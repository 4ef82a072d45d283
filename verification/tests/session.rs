use battmon::errors::{CoreError, PeripheralError};
use battmon::session::{
    resolve_endpoints, CharacteristicInfo, ServiceInfo, COMMAND_CHARACTERISTIC_UUID,
    COMMAND_SERVICE_UUID, TELEMETRY_CHARACTERISTIC_UUID, TELEMETRY_SERVICE_UUID,
};

fn characteristic(uuid: u128, write: bool, wwr: bool, notify: bool) -> CharacteristicInfo {
    CharacteristicInfo { uuid, write, write_without_response: wwr, notify }
}

fn full_table() -> Vec<ServiceInfo> {
    vec![
        ServiceInfo {
            uuid: 0x00001800_0000_1000_8000_00805f9b34fb,
            characteristics: vec![characteristic(0x2a00, false, false, false)],
        },
        ServiceInfo {
            uuid: COMMAND_SERVICE_UUID,
            characteristics: vec![
                characteristic(0x0000ffd4_0000_1000_8000_00805f9b34fb, false, false, false),
                characteristic(COMMAND_CHARACTERISTIC_UUID, true, true, false),
            ],
        },
        ServiceInfo {
            uuid: TELEMETRY_SERVICE_UUID,
            characteristics: vec![characteristic(TELEMETRY_CHARACTERISTIC_UUID, false, false, true)],
        },
    ]
}

#[test]
fn resolve_finds_both_endpoints() {
    let endpoints = resolve_endpoints(&full_table()).unwrap();
    assert_eq!(endpoints.command_service, 1);
    assert_eq!(endpoints.command_characteristic, 1);
    assert_eq!(endpoints.telemetry_service, 2);
    assert_eq!(endpoints.telemetry_characteristic, 0);
}

#[test]
fn resolve_accepts_write_with_response_only() {
    let mut table = full_table();
    table[1].characteristics[1] = characteristic(COMMAND_CHARACTERISTIC_UUID, true, false, false);
    assert!(resolve_endpoints(&table).is_ok());
}

#[test]
fn missing_command_characteristic_is_fatal() {
    let mut table = full_table();
    table[1].characteristics.retain(|c| c.uuid != COMMAND_CHARACTERISTIC_UUID);
    assert_eq!(
        resolve_endpoints(&table),
        Err(CoreError::CharacteristicNotFound)
    );
}

#[test]
fn non_writable_command_characteristic_is_fatal() {
    let mut table = full_table();
    table[1].characteristics[1] = characteristic(COMMAND_CHARACTERISTIC_UUID, false, false, false);
    assert_eq!(
        resolve_endpoints(&table),
        Err(CoreError::CharacteristicNotFound)
    );
}

#[test]
fn telemetry_without_notify_is_fatal() {
    let mut table = full_table();
    table[2].characteristics[0] = characteristic(TELEMETRY_CHARACTERISTIC_UUID, false, false, false);
    assert_eq!(
        resolve_endpoints(&table),
        Err(CoreError::CharacteristicNotFound)
    );
}

#[test]
fn empty_table_is_fatal() {
    assert_eq!(
        resolve_endpoints(&Vec::new()),
        Err(CoreError::CharacteristicNotFound)
    );
}

#[test]
fn peripheral_errors_are_distinct() {
    assert_ne!(PeripheralError::Fail, PeripheralError::UnableToUseAdapter);
    assert_eq!(
        format!("{:?}", PeripheralError::UnableToUseAdapter),
        "UnableToUseAdapter"
    );
}
