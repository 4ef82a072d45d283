//! One full pass of the polling core: resolve the GATT table, issue the
//! levels command, decode a notification with known bytes, and persist
//! the reading — everything but the radio and the file itself.

use battmon::codec::{encode_request, Reading, RequestType};
use battmon::engine::{Action, Engine, Event};
use battmon::session::{
    resolve_endpoints, CharacteristicInfo, ServiceInfo, COMMAND_CHARACTERISTIC_UUID,
    COMMAND_SERVICE_UUID, TELEMETRY_CHARACTERISTIC_UUID, TELEMETRY_SERVICE_UUID,
};
use battmon::sink::{append_to_log, empty_log};

#[test]
fn levels_poll_from_connect_to_disk() {
    // Connect: the device's GATT table resolves to the two endpoints.
    let table = vec![
        ServiceInfo {
            uuid: COMMAND_SERVICE_UUID,
            characteristics: vec![CharacteristicInfo {
                uuid: COMMAND_CHARACTERISTIC_UUID,
                write: true,
                write_without_response: true,
                notify: false,
            }],
        },
        ServiceInfo {
            uuid: TELEMETRY_SERVICE_UUID,
            characteristics: vec![CharacteristicInfo {
                uuid: TELEMETRY_CHARACTERISTIC_UUID,
                write: false,
                write_without_response: false,
                notify: true,
            }],
        },
    ];
    let endpoints = resolve_endpoints(&table).unwrap();
    assert_eq!(endpoints.command_service, 0);
    assert_eq!(endpoints.telemetry_service, 1);

    // First tick: the engine issues the levels command.
    let mut engine = Engine::new(3);
    let frame = match engine.handle_event(Event::Tick) {
        Action::SendCommand { frame } => frame,
        _ => panic!("the first tick must send a command"),
    };
    assert_eq!(frame, encode_request(RequestType::Levels));
    assert_eq!(frame.to_bytes(), vec![0x30, 0x03, 0x13, 0xb2, 0x00, 0x06, 0x65, 0x4a]);

    // The device answers with known bytes: 3 framing bytes, then
    // current 10.00 A, voltage 36.5 V, SoC 8.500, capacity 12.000 Ah.
    let notification = vec![
        0x00, 0x00, 0x00, // framing
        0x03, 0xE8, // 1000
        0x01, 0x6D, // 365
        0x00, 0x00, 0x21, 0x34, // 8500
        0x00, 0x00, 0x2E, 0xE0, // 12000
    ];
    let window_start = now_ms();
    let timestamp = now_ms();
    let entry = match engine.handle_event(Event::Notification {
        payload: notification,
        timestamp_ms: timestamp,
    }) {
        Action::AppendReading { entry } => entry,
        _ => panic!("the notification must become a reading"),
    };
    let window_end = now_ms();
    match &entry.data {
        Reading::Levels { current, voltage, state_of_charge, capacity } => {
            assert_eq!(*current, 1000);
            assert_eq!(*voltage, 365);
            assert_eq!(*state_of_charge, 8500);
            assert_eq!(*capacity, 12000);
        }
        _ => panic!("expected a levels reading"),
    }
    assert!(window_start <= entry.timestamp && entry.timestamp <= window_end);

    // The reading lands in the log and matches on disk.
    let log = append_to_log(&empty_log(), entry).unwrap();
    let value: serde_json::Value =
        serde_json::from_str(std::str::from_utf8(&log).unwrap()).unwrap();
    let array = value.as_array().unwrap();
    assert_eq!(array.len(), 1);
    let data = array[0].get("data").unwrap().get("Levels").unwrap();
    assert_eq!(data.get("current").unwrap().as_f64().unwrap(), 10.0);
    assert_eq!(data.get("voltage").unwrap().as_f64().unwrap(), 36.5);
    assert_eq!(data.get("state_of_charge").unwrap().as_f64().unwrap(), 8.5);
    assert_eq!(data.get("capacity").unwrap().as_f64().unwrap(), 12.0);
    let logged = array[0].get("timestamp").unwrap().as_u64().unwrap();
    assert!(window_start <= logged && logged <= window_end);

    // Cancellation tears the session down exactly once.
    assert!(matches!(engine.handle_event(Event::Cancel), Action::Disconnect));
    assert!(matches!(engine.handle_event(Event::Tick), Action::Idle));
}

fn now_ms() -> u64 {
    std::time::SystemTime::now()
        .duration_since(std::time::UNIX_EPOCH)
        .unwrap()
        .as_millis() as u64
}
