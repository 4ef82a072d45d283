use battmon::codec::RequestType;
use battmon::scheduler::{select_request, PollState};

#[test]
fn cadence_at_documented_ticks_with_interval_three() {
    // The literal rule: tick % (20 * interval) picks temperatures first,
    // then tick % (10 * interval) cell voltages, else levels.
    assert_eq!(select_request(0, 3), RequestType::Temperatures);
    assert_eq!(select_request(10 * 3, 3), RequestType::CellVoltages);
    assert_eq!(select_request(20 * 3, 3), RequestType::Temperatures);
}

#[test]
fn cadence_is_levels_between_the_rare_requests() {
    for tick in 1..30u64 {
        assert_eq!(select_request(tick, 3), RequestType::Levels, "tick {}", tick);
    }
    for tick in 31..60u64 {
        assert_eq!(select_request(tick, 3), RequestType::Levels, "tick {}", tick);
    }
}

#[test]
fn cadence_is_reproducible() {
    let first: Vec<RequestType> = (0..200u64).map(|t| select_request(t, 3)).collect();
    let second: Vec<RequestType> = (0..200u64).map(|t| select_request(t, 3)).collect();
    assert_eq!(first, second);
}

#[test]
fn cadence_repeats_with_the_full_period() {
    for tick in 0..120u64 {
        assert_eq!(select_request(tick, 3), select_request(tick + 60, 3));
    }
}

#[test]
fn poll_state_advances_one_tick_at_a_time() {
    let mut state = PollState::new(3);
    assert_eq!(state.tick, 0);
    assert_eq!(state.active, RequestType::Levels);
    let mut selections = Vec::new();
    for _ in 0..60 {
        selections.push(state.advance());
    }
    assert_eq!(state.tick, 60);
    // Ticks 1..=60: cell voltages at 30, temperatures at 60, else levels.
    assert_eq!(selections[29], RequestType::CellVoltages);
    assert_eq!(selections[59], RequestType::Temperatures);
    assert_eq!(
        selections.iter().filter(|r| **r == RequestType::Levels).count(),
        58
    );
}

#[test]
fn poll_state_scales_with_the_interval() {
    // interval 1: rare requests every 10 and 20 ticks.
    let mut state = PollState::new(1);
    let mut selections = Vec::new();
    for _ in 0..20 {
        selections.push(state.advance());
    }
    assert_eq!(selections[9], RequestType::CellVoltages);
    assert_eq!(selections[19], RequestType::Temperatures);
}
