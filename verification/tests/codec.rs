use battmon::codec::{
    decode_notification, encode_request, handle_data, power_milliwatts, Data, Reading, RequestType,
};
use battmon::dataview::DataView;
use battmon::errors::CoreError;

/// A raw notification: 3 framing bytes, then the body built by `fill`.
fn notification(body_len: usize, fill: impl FnOnce(&mut DataView)) -> Vec<u8> {
    let mut view = DataView::new(vec![0u8; body_len]);
    fill(&mut view);
    let mut raw = vec![0xAAu8, 0xBB, 0xCC];
    raw.extend_from_slice(&view.into_bytes());
    raw
}

#[test]
fn levels_decode_reproduces_known_fields() {
    let raw = notification(12, |v| {
        v.set_uint16(0, 1000); // current: 10.00 A
        v.set_uint16(2, 365); // voltage: 36.5 V
        v.set_uint16(4, 0);
        v.set_uint16(6, 8500); // state of charge: 8.500
        v.set_uint16(8, 0);
        v.set_uint16(10, 12000); // capacity: 12.000 Ah
    });
    let reading = decode_notification(&raw, &RequestType::Levels).unwrap();
    match reading {
        Reading::Levels { current, voltage, state_of_charge, capacity } => {
            assert_eq!(current, 1000);
            assert_eq!(voltage, 365);
            assert_eq!(state_of_charge, 8500);
            assert_eq!(capacity, 12000);
            assert_eq!(current as f32 / 100.0, 10.0);
            assert_eq!(voltage as f32 / 10.0, 36.5);
            assert_eq!(state_of_charge as f32 / 1000.0, 8.5);
            assert_eq!(capacity as f32 / 1000.0, 12.0);
        }
        _ => panic!("expected a levels reading"),
    }
}

#[test]
fn levels_decode_handles_negative_current() {
    let raw = notification(12, |v| {
        v.set_uint16(0, (-500i16) as u16); // -5.00 A
        v.set_uint16(2, 120);
    });
    let reading = decode_notification(&raw, &RequestType::Levels).unwrap();
    match reading {
        Reading::Levels { current, .. } => {
            assert_eq!(current, -500);
            assert_eq!(current as f32 / 100.0, -5.0);
        }
        _ => panic!("expected a levels reading"),
    }
}

#[test]
fn cell_voltages_decode_reproduces_values() {
    let raw = notification(8, |v| {
        v.set_uint16(0, 3);
        v.set_uint16(2, 33); // 3.3 V
        v.set_uint16(4, 34);
        v.set_uint16(6, 35);
    });
    let reading = decode_notification(&raw, &RequestType::CellVoltages).unwrap();
    match reading {
        Reading::CellVoltages { voltages } => {
            assert_eq!(voltages, vec![33, 34, 35]);
        }
        _ => panic!("expected a cell-voltages reading"),
    }
}

#[test]
fn temperatures_decode_reproduces_signed_values() {
    let raw = notification(6, |v| {
        v.set_uint16(0, 2);
        v.set_uint16(2, 215); // 21.5 degrees
        v.set_uint16(4, (-40i16) as u16); // -4.0 degrees
    });
    let reading = decode_notification(&raw, &RequestType::Temperatures).unwrap();
    match reading {
        Reading::Temperatures { temps } => {
            assert_eq!(temps, vec![215, -40]);
        }
        _ => panic!("expected a temperatures reading"),
    }
}

#[test]
fn length_prefixed_decode_yields_declared_count() {
    for &count in &[0u16, 1, 16] {
        let raw = notification(2 + 2 * count as usize, |v| {
            v.set_uint16(0, count);
            for i in 0..count as usize {
                v.set_uint16(2 + 2 * i, 30 + i as u16);
            }
        });
        match decode_notification(&raw, &RequestType::CellVoltages).unwrap() {
            Reading::CellVoltages { voltages } => assert_eq!(voltages.len(), count as usize),
            _ => panic!("expected a cell-voltages reading"),
        }
        match decode_notification(&raw, &RequestType::Temperatures).unwrap() {
            Reading::Temperatures { temps } => assert_eq!(temps.len(), count as usize),
            _ => panic!("expected a temperatures reading"),
        }
    }
}

#[test]
fn short_notification_is_a_decode_error() {
    assert_eq!(
        decode_notification(&vec![0xAA, 0xBB], &RequestType::Levels),
        Err(CoreError::DecodeError)
    );
}

#[test]
fn short_levels_body_is_a_decode_error() {
    let raw = notification(11, |_| {});
    assert_eq!(
        decode_notification(&raw, &RequestType::Levels),
        Err(CoreError::DecodeError)
    );
}

#[test]
fn truncated_count_body_is_a_decode_error() {
    // Declares 4 cells but carries only 2.
    let raw = notification(6, |v| {
        v.set_uint16(0, 4);
        v.set_uint16(2, 33);
        v.set_uint16(4, 34);
    });
    assert_eq!(
        decode_notification(&raw, &RequestType::CellVoltages),
        Err(CoreError::DecodeError)
    );
    assert_eq!(
        decode_notification(&raw, &RequestType::Temperatures),
        Err(CoreError::DecodeError)
    );
}

#[test]
fn handle_data_decodes_a_bare_body() {
    let mut view = DataView::new(vec![0u8; 4]);
    view.set_uint16(0, 1);
    view.set_uint16(2, 37);
    match handle_data(&view, &RequestType::CellVoltages).unwrap() {
        Reading::CellVoltages { voltages } => assert_eq!(voltages, vec![37]),
        _ => panic!("expected a cell-voltages reading"),
    }
}

#[test]
fn encode_request_produces_the_fixed_frames() {
    let levels = encode_request(RequestType::Levels);
    assert_eq!(
        (levels.opcode, levels.register, levels.length, levels.checksum),
        (0x3003, 0x13b2, 0x0006, 0x654a)
    );
    let cells = encode_request(RequestType::CellVoltages);
    assert_eq!(
        (cells.opcode, cells.register, cells.length, cells.checksum),
        (0x3003, 0x1388, 0x0011, 0x0549)
    );
    let temps = encode_request(RequestType::Temperatures);
    assert_eq!(
        (temps.opcode, temps.register, temps.length, temps.checksum),
        (0x3003, 0x1399, 0x0005, 0x5543)
    );
}

#[test]
fn frame_bytes_are_big_endian() {
    let bytes = encode_request(RequestType::Levels).to_bytes();
    assert_eq!(bytes, vec![0x30, 0x03, 0x13, 0xb2, 0x00, 0x06, 0x65, 0x4a]);
    let bytes = encode_request(RequestType::Temperatures).to_bytes();
    assert_eq!(bytes, vec![0x30, 0x03, 0x13, 0x99, 0x00, 0x05, 0x55, 0x43]);
}

#[test]
fn power_is_the_product_of_raw_current_and_voltage() {
    let reading = Reading::Levels {
        current: 1000,
        voltage: 365,
        state_of_charge: 8500,
        capacity: 12000,
    };
    // 10.00 A * 36.5 V = 365 W = 365_000 mW.
    assert_eq!(power_milliwatts(&reading), Some(365_000));
    let reading = Reading::Levels {
        current: -500,
        voltage: 120,
        state_of_charge: 0,
        capacity: 0,
    };
    assert_eq!(power_milliwatts(&reading), Some(-60_000));
    assert_eq!(power_milliwatts(&Reading::Temperatures { temps: vec![] }), None);
}

#[test]
fn data_carries_its_timestamp() {
    let entry = Data {
        data: Reading::CellVoltages { voltages: vec![33] },
        timestamp: 1_700_000_000_123,
    };
    assert_eq!(entry.timestamp, 1_700_000_000_123);
}

#[test]
fn dataview_round_trips_fields() {
    let mut view = DataView::new(vec![0u8; 8]);
    view.set_uint16(0, 0xBEEF);
    view.set_uint16(2, 0x0102);
    assert_eq!(view.get_uint16(0), 0xBEEF);
    assert_eq!(view.get_int16(0), -16657); // 0xBEEF as two's complement
    assert_eq!(view.get_uint32(0), 0xBEEF0102);
    assert_eq!(view.len(), 8);
    let bytes = view.into_bytes();
    assert_eq!(&bytes[..4], &[0xBE, 0xEF, 0x01, 0x02]);
}
