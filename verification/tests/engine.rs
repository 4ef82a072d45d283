use battmon::codec::{encode_request, Reading, RequestType};
use battmon::dataview::DataView;
use battmon::engine::{Action, Engine, Event};
use battmon::errors::CoreError;

fn levels_notification(current: u16, voltage: u16) -> Vec<u8> {
    let mut view = DataView::new(vec![0u8; 12]);
    view.set_uint16(0, current);
    view.set_uint16(2, voltage);
    let mut raw = vec![0u8, 0, 0];
    raw.extend_from_slice(&view.into_bytes());
    raw
}

#[test]
fn tick_sends_the_selected_command() {
    let mut engine = Engine::new(3);
    match engine.handle_event(Event::Tick) {
        Action::SendCommand { frame } => {
            assert_eq!(frame, encode_request(RequestType::Levels));
        }
        _ => panic!("a tick must send a command"),
    }
    assert_eq!(engine.poll.tick, 1);
}

#[test]
fn thirtieth_tick_sends_cell_voltages_at_interval_three() {
    let mut engine = Engine::new(3);
    let mut last_frame = None;
    for _ in 0..30 {
        if let Action::SendCommand { frame } = engine.handle_event(Event::Tick) {
            last_frame = Some(frame);
        } else {
            panic!("a tick must send a command");
        }
    }
    assert_eq!(last_frame, Some(encode_request(RequestType::CellVoltages)));
}

#[test]
fn notification_is_decoded_under_the_pending_request() {
    let mut engine = Engine::new(3);
    engine.handle_event(Event::Tick); // pending request: levels
    let action = engine.handle_event(Event::Notification {
        payload: levels_notification(1000, 365),
        timestamp_ms: 42,
    });
    match action {
        Action::AppendReading { entry } => {
            assert_eq!(entry.timestamp, 42);
            match entry.data {
                Reading::Levels { current, voltage, .. } => {
                    assert_eq!(current, 1000);
                    assert_eq!(voltage, 365);
                }
                _ => panic!("expected a levels reading"),
            }
        }
        _ => panic!("a decodable notification must be appended"),
    }
}

#[test]
fn malformed_notification_is_discarded_and_loop_continues() {
    let mut engine = Engine::new(3);
    engine.handle_event(Event::Tick);
    let action = engine.handle_event(Event::Notification {
        payload: vec![0, 0, 0, 1],
        timestamp_ms: 7,
    });
    match action {
        Action::DiscardNotification { error } => assert_eq!(error, CoreError::DecodeError),
        _ => panic!("a malformed notification must be discarded"),
    }
    // The next tick still polls.
    assert!(matches!(
        engine.handle_event(Event::Tick),
        Action::SendCommand { .. }
    ));
}

#[test]
fn cancellation_disconnects_once_and_stops_all_work() {
    let mut engine = Engine::new(3);
    assert!(matches!(
        engine.handle_event(Event::Tick),
        Action::SendCommand { .. }
    ));
    let events = vec![
        Event::Cancel,
        Event::Tick,
        Event::Notification { payload: levels_notification(100, 100), timestamp_ms: 1 },
        Event::Cancel,
        Event::Tick,
    ];
    let mut disconnects = 0;
    let mut sends_or_appends = 0;
    for event in events {
        match engine.handle_event(event) {
            Action::Disconnect => disconnects += 1,
            Action::SendCommand { .. } | Action::AppendReading { .. } => sends_or_appends += 1,
            Action::DiscardNotification { .. } => sends_or_appends += 1,
            Action::Idle => {}
        }
    }
    assert_eq!(disconnects, 1);
    assert_eq!(sends_or_appends, 0);
}
