use battmon::codec::{Data, Reading};
use battmon::errors::CoreError;
use battmon::sink::{append_to_log, empty_log, parse_log, render_log, single_levels_event_json};

fn levels_entry(timestamp: u64) -> Data {
    Data {
        data: Reading::Levels {
            current: 1000,
            voltage: 365,
            state_of_charge: 8500,
            capacity: 12000,
        },
        timestamp,
    }
}

fn as_json(bytes: &[u8]) -> serde_json::Value {
    let text = std::str::from_utf8(bytes).expect("log must be UTF-8");
    serde_json::from_str(text).expect("log must be valid JSON")
}

#[test]
fn fresh_log_is_an_empty_array() {
    let log = empty_log();
    assert_eq!(log, b"[]".to_vec());
    assert_eq!(as_json(&log).as_array().unwrap().len(), 0);
}

#[test]
fn appending_k_readings_yields_an_array_of_length_k() {
    let mut log = empty_log();
    for k in 1..=5u64 {
        log = append_to_log(&log, levels_entry(k)).unwrap();
        let value = as_json(&log);
        assert_eq!(value.as_array().unwrap().len(), k as usize);
    }
}

#[test]
fn appended_entry_holds_the_decoded_values_and_timestamp() {
    let log = append_to_log(&empty_log(), levels_entry(1_700_000_000_123)).unwrap();
    let value = as_json(&log);
    let entry = &value.as_array().unwrap()[0];
    let data = entry.get("data").unwrap().get("Levels").unwrap();
    assert_eq!(data.get("current").unwrap().as_f64().unwrap(), 10.0);
    assert_eq!(data.get("voltage").unwrap().as_f64().unwrap(), 36.5);
    assert_eq!(data.get("state_of_charge").unwrap().as_f64().unwrap(), 8.5);
    assert_eq!(data.get("capacity").unwrap().as_f64().unwrap(), 12.0);
    assert_eq!(
        entry.get("timestamp").unwrap().as_u64().unwrap(),
        1_700_000_000_123
    );
}

#[test]
fn negative_values_render_as_negative_decimals() {
    let entry = Data {
        data: Reading::Temperatures { temps: vec![215, -40, 0] },
        timestamp: 5,
    };
    let log = append_to_log(&empty_log(), entry).unwrap();
    let value = as_json(&log);
    let temps = value.as_array().unwrap()[0]
        .get("data")
        .unwrap()
        .get("Temperatures")
        .unwrap()
        .get("temps")
        .unwrap()
        .as_array()
        .unwrap()
        .clone();
    assert_eq!(temps[0].as_f64().unwrap(), 21.5);
    assert_eq!(temps[1].as_f64().unwrap(), -4.0);
    assert_eq!(temps[2].as_f64().unwrap(), 0.0);
}

#[test]
fn appending_to_a_non_array_file_is_a_persistence_failure() {
    for corrupt in [
        b"{}".to_vec(),
        b"not json at all".to_vec(),
        b"".to_vec(),
        b"[{\"data\":".to_vec(),
        b"[1,2,3]".to_vec(),
        b"null".to_vec(),
    ] {
        assert_eq!(
            append_to_log(&corrupt, levels_entry(1)),
            Err(CoreError::PersistenceFailure),
            "content {:?} must be rejected",
            corrupt
        );
    }
}

#[test]
fn log_round_trips_through_parse() {
    let entries = vec![
        levels_entry(1),
        Data { data: Reading::CellVoltages { voltages: vec![33, 34, 35] }, timestamp: 2 },
        Data { data: Reading::CellVoltages { voltages: vec![] }, timestamp: 3 },
        Data { data: Reading::Temperatures { temps: vec![-1, 0, 1] }, timestamp: u64::MAX },
        Data { data: Reading::CellVoltages { voltages: vec![0, u16::MAX] }, timestamp: 0 },
        Data { data: Reading::Temperatures { temps: vec![i16::MIN, i16::MAX] }, timestamp: 4 },
        Data {
            data: Reading::Levels {
                current: i16::MIN,
                voltage: u16::MAX,
                state_of_charge: u32::MAX,
                capacity: 0,
            },
            timestamp: 5,
        },
    ];
    let log = render_log(&entries);
    let parsed = parse_log(&log).unwrap();
    assert_eq!(parsed, entries);
}

#[test]
fn parse_rejects_trailing_bytes() {
    let mut log = render_log(&vec![levels_entry(9)]);
    log.push(b' ');
    assert!(parse_log(&log).is_none());
}

#[test]
fn mixed_readings_survive_many_appends() {
    let mut log = empty_log();
    log = append_to_log(
        &log,
        Data { data: Reading::CellVoltages { voltages: vec![37] }, timestamp: 10 },
    )
    .unwrap();
    log = append_to_log(
        &log,
        Data { data: Reading::Temperatures { temps: vec![-300] }, timestamp: 11 },
    )
    .unwrap();
    log = append_to_log(&log, levels_entry(12)).unwrap();
    let parsed = parse_log(&log).unwrap();
    assert_eq!(parsed.len(), 3);
    assert_eq!(parsed[1].timestamp, 11);
    let value = as_json(&log);
    assert_eq!(value.as_array().unwrap().len(), 3);
    let temps = value.as_array().unwrap()[1]
        .get("data")
        .unwrap()
        .get("Temperatures")
        .unwrap()
        .get("temps")
        .unwrap()
        .as_array()
        .unwrap()
        .clone();
    assert_eq!(temps[0].as_f64().unwrap(), -30.0);
}

#[test]
fn single_levels_event_renders_one_entry() {
    let mut raw = vec![0u8, 0, 0];
    // current 10.00 A, voltage 36.5 V, both counts zero.
    raw.extend_from_slice(&[0x03, 0xE8, 0x01, 0x6D, 0, 0, 0, 0, 0, 0, 0, 0]);
    let bytes = single_levels_event_json(&raw, 77).unwrap();
    let value: serde_json::Value =
        serde_json::from_str(std::str::from_utf8(&bytes).unwrap()).unwrap();
    let data = value.get("data").unwrap().get("Levels").unwrap();
    assert_eq!(data.get("current").unwrap().as_f64().unwrap(), 10.0);
    assert_eq!(data.get("voltage").unwrap().as_f64().unwrap(), 36.5);
    assert_eq!(value.get("timestamp").unwrap().as_u64().unwrap(), 77);
}

#[test]
fn single_levels_event_rejects_short_notifications() {
    assert_eq!(
        single_levels_event_json(&vec![0, 0, 0, 1, 2], 1),
        Err(CoreError::DecodeError)
    );
}
