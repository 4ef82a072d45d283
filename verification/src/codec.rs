//! Wire codec: command frames out, typed readings in.
//!
//! The device understands three polling commands, one per [`RequestType`].
//! Each is a fixed 8-byte frame of four big-endian 16-bit words:
//! an opcode word, a register word, a length word and a checksum word.
//! The three frames are fixed constants from the device's command table,
//! not computed at runtime.
//!
//! Inbound notifications carry a 3-byte framing header (not interpreted)
//! followed by big-endian fields laid out according to the request type
//! that was last issued. All metrics are fixed-point integers on the
//! wire; the decoded [`Reading`] keeps those exact integers, along with
//! the scale each one carries (hundredths of an ampere, tenths of a volt,
//! thousandths for state of charge and capacity, tenths of a degree).

use vstd::prelude::*;

verus! {

use crate::dataview::DataView;
use crate::dataview::spec_i16_at;
use crate::dataview::spec_u16_at;
use crate::dataview::spec_u32_at;
use crate::errors::CoreError;

/// Which telemetry class is being polled. Exactly one request is pending
/// at any time; the next inbound notification is decoded under the same
/// request type as the most recently issued command.
#[derive(Clone, Copy, PartialEq, Eq, Structural, Debug)]
pub enum RequestType {
    /// Pack-level levels: current, voltage, state of charge, capacity.
    Levels,
    /// Per-cell voltages, length-prefixed.
    CellVoltages,
    /// Temperature sensors, length-prefixed.
    Temperatures,
}

/// One outgoing 8-byte command frame: four big-endian 16-bit words.
#[derive(Clone, Copy, PartialEq, Eq, Structural, Debug)]
pub struct CommandFrame {
    /// Command opcode word.
    pub opcode: u16,
    /// Register word selecting the telemetry class.
    pub register: u16,
    /// Length word.
    pub length: u16,
    /// Checksum word.
    pub checksum: u16,
}

/// The fixed frame issued for a request type, straight from the device's
/// command table.
pub open spec fn spec_frame_for(request_type: RequestType) -> CommandFrame {
    match request_type {
        RequestType::Levels => CommandFrame {
            opcode: 0x3003,
            register: 0x13b2,
            length: 0x0006,
            checksum: 0x654a,
        },
        RequestType::CellVoltages => CommandFrame {
            opcode: 0x3003,
            register: 0x1388,
            length: 0x0011,
            checksum: 0x0549,
        },
        RequestType::Temperatures => CommandFrame {
            opcode: 0x3003,
            register: 0x1399,
            length: 0x0005,
            checksum: 0x5543,
        },
    }
}

/// Encode a request as its fixed command frame. Total: every request type
/// has exactly one frame.
pub fn encode_request(request_type: RequestType) -> (frame: CommandFrame)
    ensures
        frame == spec_frame_for(request_type),
{
    match request_type {
        RequestType::Levels => CommandFrame {
            opcode: 0x3003,
            register: 0x13b2,
            length: 0x0006,
            checksum: 0x654a,
        },
        RequestType::CellVoltages => CommandFrame {
            opcode: 0x3003,
            register: 0x1388,
            length: 0x0011,
            checksum: 0x0549,
        },
        RequestType::Temperatures => CommandFrame {
            opcode: 0x3003,
            register: 0x1399,
            length: 0x0005,
            checksum: 0x5543,
        },
    }
}

/// Render a command frame as the 8 bytes written to the device: the four
/// 16-bit words big-endian, in order.
pub open spec fn spec_frame_bytes(frame: CommandFrame) -> Seq<u8> {
    seq![
        (frame.opcode / 256) as u8,
        (frame.opcode % 256) as u8,
        (frame.register / 256) as u8,
        (frame.register % 256) as u8,
        (frame.length / 256) as u8,
        (frame.length % 256) as u8,
        (frame.checksum / 256) as u8,
        (frame.checksum % 256) as u8,
    ]
}

impl CommandFrame {
    /// The 8-byte buffer written to the command characteristic.
    pub fn to_bytes(&self) -> (bytes: Vec<u8>)
        ensures
            bytes@ == spec_frame_bytes(*self),
    {
        let buffer: Vec<u8> = vec![0u8; 8];
        let mut view = DataView::new(buffer);
        view.set_uint16(0, self.opcode);
        view.set_uint16(2, self.register);
        view.set_uint16(4, self.length);
        view.set_uint16(6, self.checksum);
        let bytes = view.into_bytes();
        proof {
            assert(bytes@ =~= spec_frame_bytes(*self));
        }
        bytes
    }
}

/// One decoded telemetry reading. Every metric is the exact fixed-point
/// integer from the wire: `current` counts hundredths of an ampere,
/// `voltage` tenths of a volt, `state_of_charge` and `capacity`
/// thousandths, cell voltages tenths of a volt, temperatures tenths of a
/// degree.
#[derive(Clone, PartialEq, Eq, Debug)]
pub enum Reading {
    /// Pack-level levels.
    Levels {
        /// Pack current, hundredths of an ampere, signed.
        current: i16,
        /// Pack voltage, tenths of a volt.
        voltage: u16,
        /// State of charge, thousandths.
        state_of_charge: u32,
        /// Capacity, thousandths of an ampere-hour.
        capacity: u32,
    },
    /// Per-cell voltages, tenths of a volt each.
    CellVoltages {
        /// One entry per cell, in wire order.
        voltages: Vec<u16>,
    },
    /// Temperature sensors, tenths of a degree each, signed.
    Temperatures {
        /// One entry per sensor, in wire order.
        temps: Vec<i16>,
    },
}

/// Mathematical model of a [`Reading`]: the same fields with sequences in
/// place of vectors.
pub enum ReadingV {
    /// Model of [`Reading::Levels`].
    Levels {
        /// Pack current, hundredths of an ampere, signed.
        current: i16,
        /// Pack voltage, tenths of a volt.
        voltage: u16,
        /// State of charge, thousandths.
        state_of_charge: u32,
        /// Capacity, thousandths of an ampere-hour.
        capacity: u32,
    },
    /// Model of [`Reading::CellVoltages`].
    CellVoltages {
        /// One entry per cell, in wire order.
        voltages: Seq<u16>,
    },
    /// Model of [`Reading::Temperatures`].
    Temperatures {
        /// One entry per sensor, in wire order.
        temps: Seq<i16>,
    },
}

impl View for Reading {
    type V = ReadingV;

    open spec fn view(&self) -> ReadingV {
        match *self {
            Reading::Levels { current, voltage, state_of_charge, capacity } =>
                ReadingV::Levels { current, voltage, state_of_charge, capacity },
            Reading::CellVoltages { ref voltages } =>
                ReadingV::CellVoltages { voltages: voltages@ },
            Reading::Temperatures { ref temps } =>
                ReadingV::Temperatures { temps: temps@ },
        }
    }
}

/// A reading together with the millisecond Unix timestamp captured when
/// its notification arrived.
#[derive(Clone, PartialEq, Eq, Debug)]
pub struct Data {
    /// The decoded reading.
    pub data: Reading,
    /// Milliseconds since the Unix epoch, captured at receipt time.
    pub timestamp: u64,
}

/// Mathematical model of a [`Data`] log entry.
pub struct DataV {
    /// Model of the decoded reading.
    pub data: ReadingV,
    /// Milliseconds since the Unix epoch.
    pub timestamp: u64,
}

impl View for Data {
    type V = DataV;

    open spec fn view(&self) -> DataV {
        DataV { data: self.data@, timestamp: self.timestamp }
    }
}

/// What decoding a notification body yields under a request type: the
/// exact big-endian fields of the layout, or a decode error when the
/// body is shorter than the offsets its layout (and declared count)
/// imply.
pub open spec fn spec_decode(request_type: RequestType, payload: Seq<u8>) -> Result<
    ReadingV,
    CoreError,
> {
    match request_type {
        RequestType::Levels => {
            if payload.len() >= 12 {
                Ok(ReadingV::Levels {
                    current: spec_i16_at(payload, 0),
                    voltage: spec_u16_at(payload, 2),
                    state_of_charge: spec_u32_at(payload, 4),
                    capacity: spec_u32_at(payload, 8),
                })
            } else {
                Err(CoreError::DecodeError)
            }
        },
        RequestType::CellVoltages => {
            if payload.len() >= 2 && payload.len() >= 2 + 2 * (spec_u16_at(payload, 0) as int) {
                Ok(ReadingV::CellVoltages {
                    voltages: Seq::new(
                        spec_u16_at(payload, 0) as nat,
                        |i: int| spec_u16_at(payload, 2 + 2 * i),
                    ),
                })
            } else {
                Err(CoreError::DecodeError)
            }
        },
        RequestType::Temperatures => {
            if payload.len() >= 2 && payload.len() >= 2 + 2 * (spec_u16_at(payload, 0) as int) {
                Ok(ReadingV::Temperatures {
                    temps: Seq::new(
                        spec_u16_at(payload, 0) as nat,
                        |i: int| spec_i16_at(payload, 2 + 2 * i),
                    ),
                })
            } else {
                Err(CoreError::DecodeError)
            }
        },
    }
}

/// Decode a notification body (framing header already stripped) under the
/// given request type.
///
/// Succeeds exactly when the body is long enough for its layout: 12 bytes
/// for levels; for the length-prefixed layouts, a 2-byte count `N`
/// followed by `N` 2-byte entries. A short body is a decode error, never
/// a panic or a truncated reading.
pub fn handle_data(payload: &DataView, request_type: &RequestType) -> (reading: Result<
    Reading,
    CoreError,
>)
    ensures
        match reading {
            Ok(r) => spec_decode(*request_type, payload@) == Ok::<ReadingV, CoreError>(r@),
            Err(e) => spec_decode(*request_type, payload@) == Err::<ReadingV, CoreError>(e),
        },
{
    match request_type {
        RequestType::Levels => {
            if payload.len() >= 12 {
                Ok(Reading::Levels {
                    current: payload.get_int16(0),
                    voltage: payload.get_uint16(2),
                    state_of_charge: payload.get_uint32(4),
                    capacity: payload.get_uint32(8),
                })
            } else {
                Err(CoreError::DecodeError)
            }
        },
        RequestType::CellVoltages => {
            if payload.len() < 2 {
                return Err(CoreError::DecodeError);
            }
            let count = payload.get_uint16(0);
            if payload.len() < 2 + 2 * (count as usize) {
                return Err(CoreError::DecodeError);
            }
            let mut voltages: Vec<u16> = Vec::new();
            let mut i: usize = 0;
            while i < count as usize
                invariant
                    i <= count,
                    payload@.len() >= 2 + 2 * (count as int),
                    count == spec_u16_at(payload@, 0),
                    voltages@.len() == i,
                    forall|k: int| 0 <= k < i ==> voltages@[k] == spec_u16_at(payload@, 2 + 2 * k),
                decreases count as int - i,
            {
                voltages.push(payload.get_uint16(2 + 2 * i));
                i = i + 1;
            }
            proof {
                assert(voltages@ =~= Seq::new(
                    count as nat,
                    |k: int| spec_u16_at(payload@, 2 + 2 * k),
                ));
            }
            Ok(Reading::CellVoltages { voltages })
        },
        RequestType::Temperatures => {
            if payload.len() < 2 {
                return Err(CoreError::DecodeError);
            }
            let count = payload.get_uint16(0);
            if payload.len() < 2 + 2 * (count as usize) {
                return Err(CoreError::DecodeError);
            }
            let mut temps: Vec<i16> = Vec::new();
            let mut i: usize = 0;
            while i < count as usize
                invariant
                    i <= count,
                    payload@.len() >= 2 + 2 * (count as int),
                    count == spec_u16_at(payload@, 0),
                    temps@.len() == i,
                    forall|k: int| 0 <= k < i ==> temps@[k] == spec_i16_at(payload@, 2 + 2 * k),
                decreases count as int - i,
            {
                temps.push(payload.get_int16(2 + 2 * i));
                i = i + 1;
            }
            proof {
                assert(temps@ =~= Seq::new(
                    count as nat,
                    |k: int| spec_i16_at(payload@, 2 + 2 * k),
                ));
            }
            Ok(Reading::Temperatures { temps })
        },
    }
}

/// Bytes of the notification framing header that precede every payload
/// and are not interpreted.
pub const NOTIFICATION_HEADER_LEN: usize = 3;

/// What decoding a whole notification yields: strip the 3-byte framing
/// header, then decode the rest under the request type.
pub open spec fn spec_decode_notification(request_type: RequestType, raw: Seq<u8>) -> Result<
    ReadingV,
    CoreError,
> {
    if raw.len() < NOTIFICATION_HEADER_LEN {
        Err(CoreError::DecodeError)
    } else {
        spec_decode(request_type, raw.subrange(NOTIFICATION_HEADER_LEN as int, raw.len() as int))
    }
}

/// Decode a raw notification: strip the 3-byte framing header and decode
/// the remaining body under the given request type. A notification too
/// short to carry the header is a decode error.
pub fn decode_notification(raw: &Vec<u8>, request_type: &RequestType) -> (reading: Result<
    Reading,
    CoreError,
>)
    ensures
        match reading {
            Ok(r) => spec_decode_notification(*request_type, raw@)
                == Ok::<ReadingV, CoreError>(r@),
            Err(e) => spec_decode_notification(*request_type, raw@)
                == Err::<ReadingV, CoreError>(e),
        },
{
    let total: usize = raw.len();
    if total < NOTIFICATION_HEADER_LEN {
        return Err(CoreError::DecodeError);
    }
    let mut body: Vec<u8> = Vec::new();
    let mut i: usize = NOTIFICATION_HEADER_LEN;
    while i < total
        invariant
            NOTIFICATION_HEADER_LEN <= i <= total,
            total == raw@.len(),
            body@ == raw@.subrange(NOTIFICATION_HEADER_LEN as int, i as int),
        decreases total - i,
    {
        body.push(raw[i]);
        i = i + 1;
        proof {
            assert(body@ =~= raw@.subrange(NOTIFICATION_HEADER_LEN as int, i as int));
        }
    }
    let view = DataView::new(body);
    handle_data(&view, request_type)
}

/// The two bytes of an unsigned 16-bit value, big-endian.
pub open spec fn spec_be16_bytes(value: u16) -> Seq<u8> {
    seq![(value / 256) as u8, (value % 256) as u8]
}

/// The two bytes of a signed 16-bit value, big-endian two's complement.
pub open spec fn spec_be16_bytes_signed(value: i16) -> Seq<u8> {
    if value >= 0 {
        spec_be16_bytes(value as u16)
    } else {
        spec_be16_bytes((value + 0x10000) as u16)
    }
}

/// The four bytes of an unsigned 32-bit value, big-endian.
pub open spec fn spec_be32_bytes(value: u32) -> Seq<u8> {
    seq![
        ((value / 0x1000000) % 256) as u8,
        ((value / 0x10000) % 256) as u8,
        ((value / 0x100) % 256) as u8,
        (value % 256) as u8,
    ]
}

/// A synthetically constructed levels body holding the given field
/// values at their wire offsets.
pub open spec fn spec_levels_payload(
    current: i16,
    voltage: u16,
    state_of_charge: u32,
    capacity: u32,
) -> Seq<u8> {
    spec_be16_bytes_signed(current) + spec_be16_bytes(voltage) + spec_be32_bytes(state_of_charge)
        + spec_be32_bytes(capacity)
}

/// Composing a big-endian 16-bit field and reading it back is the
/// identity.
pub proof fn lemma_be16_round_trip(value: u16, s: Seq<u8>, offset: int)
    requires
        0 <= offset,
        offset + 2 <= s.len(),
        s.subrange(offset, offset + 2) == spec_be16_bytes(value),
    ensures
        spec_u16_at(s, offset) == value,
{
    assert(s[offset] == spec_be16_bytes(value)[0]);
    assert(s[offset + 1] == spec_be16_bytes(value)[1]);
}

/// Composing a big-endian signed 16-bit field and reading it back is the
/// identity.
pub proof fn lemma_be16_signed_round_trip(value: i16, s: Seq<u8>, offset: int)
    requires
        0 <= offset,
        offset + 2 <= s.len(),
        s.subrange(offset, offset + 2) == spec_be16_bytes_signed(value),
    ensures
        spec_i16_at(s, offset) == value,
{
    assert(s[offset] == spec_be16_bytes_signed(value)[0]);
    assert(s[offset + 1] == spec_be16_bytes_signed(value)[1]);
}

/// Composing a big-endian 32-bit field and reading it back is the
/// identity.
pub proof fn lemma_be32_round_trip(value: u32, s: Seq<u8>, offset: int)
    requires
        0 <= offset,
        offset + 4 <= s.len(),
        s.subrange(offset, offset + 4) == spec_be32_bytes(value),
    ensures
        spec_u32_at(s, offset) == value,
{
    assert(s[offset] == spec_be32_bytes(value)[0]);
    assert(s[offset + 1] == spec_be32_bytes(value)[1]);
    assert(s[offset + 2] == spec_be32_bytes(value)[2]);
    assert(s[offset + 3] == spec_be32_bytes(value)[3]);
    assert(((value / 0x1000000) % 256) * 0x1000000 + ((value / 0x10000) % 256) * 0x10000 + ((value
        / 0x100) % 256) * 0x100 + (value % 256) == value) by (bit_vector);
}

/// Decoding a synthetically constructed levels body under the levels
/// request reproduces the field values it was built from, exactly.
pub proof fn lemma_levels_round_trip(
    current: i16,
    voltage: u16,
    state_of_charge: u32,
    capacity: u32,
)
    ensures
        spec_decode(
            RequestType::Levels,
            spec_levels_payload(current, voltage, state_of_charge, capacity),
        ) == Ok::<ReadingV, CoreError>(
            ReadingV::Levels { current, voltage, state_of_charge, capacity },
        ),
{
    let payload = spec_levels_payload(current, voltage, state_of_charge, capacity);
    assert(payload.len() == 12);
    assert(payload.subrange(0, 2) =~= spec_be16_bytes_signed(current));
    lemma_be16_signed_round_trip(current, payload, 0);
    assert(payload.subrange(2, 4) =~= spec_be16_bytes(voltage));
    lemma_be16_round_trip(voltage, payload, 2);
    assert(payload.subrange(4, 8) =~= spec_be32_bytes(state_of_charge));
    lemma_be32_round_trip(state_of_charge, payload, 4);
    assert(payload.subrange(8, 12) =~= spec_be32_bytes(capacity));
    lemma_be32_round_trip(capacity, payload, 8);
}

/// The concatenated big-endian bytes of a list of unsigned 16-bit
/// values.
pub open spec fn spec_u16_list_bytes(values: Seq<u16>) -> Seq<u8>
    decreases values.len(),
{
    if values.len() == 0 {
        Seq::empty()
    } else {
        spec_be16_bytes(values[0]) + spec_u16_list_bytes(values.drop_first())
    }
}

/// The concatenated big-endian bytes of a list of signed 16-bit values.
pub open spec fn spec_i16_list_bytes(values: Seq<i16>) -> Seq<u8>
    decreases values.len(),
{
    if values.len() == 0 {
        Seq::empty()
    } else {
        spec_be16_bytes_signed(values[0]) + spec_i16_list_bytes(values.drop_first())
    }
}

/// A synthetically constructed cell-voltages body: the count, then the
/// values.
pub open spec fn spec_cell_voltages_payload(values: Seq<u16>) -> Seq<u8>
    recommends
        values.len() <= u16::MAX,
{
    spec_be16_bytes(values.len() as u16) + spec_u16_list_bytes(values)
}

/// A synthetically constructed temperatures body: the count, then the
/// values.
pub open spec fn spec_temperatures_payload(values: Seq<i16>) -> Seq<u8>
    recommends
        values.len() <= u16::MAX,
{
    spec_be16_bytes(values.len() as u16) + spec_i16_list_bytes(values)
}

/// Each value sits at its own two-byte slot of the concatenated list.
proof fn lemma_u16_list_bytes_slots(values: Seq<u16>, i: int)
    requires
        0 <= i < values.len(),
    ensures
        spec_u16_list_bytes(values).len() == 2 * values.len(),
        spec_u16_list_bytes(values).subrange(2 * i, 2 * i + 2) == spec_be16_bytes(values[i]),
    decreases i,
{
    lemma_u16_list_bytes_len(values);
    let bytes = spec_u16_list_bytes(values);
    if i == 0 {
        assert(bytes.subrange(0, 2) =~= spec_be16_bytes(values[0]));
    } else {
        let rest = spec_u16_list_bytes(values.drop_first());
        lemma_u16_list_bytes_slots(values.drop_first(), i - 1);
        assert(bytes.subrange(2 * i, 2 * i + 2) =~= rest.subrange(2 * (i - 1), 2 * (i - 1) + 2));
        assert(values.drop_first()[i - 1] == values[i]);
    }
}

/// The concatenated list is two bytes per value.
proof fn lemma_u16_list_bytes_len(values: Seq<u16>)
    ensures
        spec_u16_list_bytes(values).len() == 2 * values.len(),
    decreases values.len(),
{
    if values.len() > 0 {
        lemma_u16_list_bytes_len(values.drop_first());
    }
}

/// Each value sits at its own two-byte slot of the concatenated signed
/// list.
proof fn lemma_i16_list_bytes_slots(values: Seq<i16>, i: int)
    requires
        0 <= i < values.len(),
    ensures
        spec_i16_list_bytes(values).len() == 2 * values.len(),
        spec_i16_list_bytes(values).subrange(2 * i, 2 * i + 2) == spec_be16_bytes_signed(
            values[i],
        ),
    decreases i,
{
    lemma_i16_list_bytes_len(values);
    let bytes = spec_i16_list_bytes(values);
    if i == 0 {
        assert(bytes.subrange(0, 2) =~= spec_be16_bytes_signed(values[0]));
    } else {
        let rest = spec_i16_list_bytes(values.drop_first());
        lemma_i16_list_bytes_slots(values.drop_first(), i - 1);
        assert(bytes.subrange(2 * i, 2 * i + 2) =~= rest.subrange(2 * (i - 1), 2 * (i - 1) + 2));
        assert(values.drop_first()[i - 1] == values[i]);
    }
}

/// The concatenated signed list is two bytes per value.
proof fn lemma_i16_list_bytes_len(values: Seq<i16>)
    ensures
        spec_i16_list_bytes(values).len() == 2 * values.len(),
    decreases values.len(),
{
    if values.len() > 0 {
        lemma_i16_list_bytes_len(values.drop_first());
    }
}

/// Decoding a synthetically constructed cell-voltages body under the
/// cell-voltages request reproduces the values it was built from,
/// exactly and completely.
pub proof fn lemma_cell_voltages_round_trip(values: Seq<u16>)
    requires
        values.len() <= u16::MAX,
    ensures
        spec_decode(RequestType::CellVoltages, spec_cell_voltages_payload(values)) == Ok::<
            ReadingV,
            CoreError,
        >(ReadingV::CellVoltages { voltages: values }),
{
    let payload = spec_cell_voltages_payload(values);
    lemma_u16_list_bytes_len(values);
    assert(payload.len() == 2 + 2 * values.len());
    assert(payload.subrange(0, 2) =~= spec_be16_bytes(values.len() as u16));
    lemma_be16_round_trip(values.len() as u16, payload, 0);
    assert(spec_u16_at(payload, 0) == values.len());
    assert forall|i: int| 0 <= i < values.len() implies spec_u16_at(payload, 2 + 2 * i)
        == values[i] by {
        lemma_u16_list_bytes_slots(values, i);
        let list = spec_u16_list_bytes(values);
        assert(payload.subrange(2 + 2 * i, 2 + 2 * i + 2) =~= list.subrange(2 * i, 2 * i + 2));
        lemma_be16_round_trip(values[i], payload, 2 + 2 * i);
    }
    match spec_decode(RequestType::CellVoltages, payload) {
        Ok(ReadingV::CellVoltages { voltages }) => {
            assert(voltages =~= values);
        },
        _ => {
            assert(false);
        },
    }
}

/// Decoding a synthetically constructed temperatures body under the
/// temperatures request reproduces the values it was built from,
/// exactly and completely.
pub proof fn lemma_temperatures_round_trip(values: Seq<i16>)
    requires
        values.len() <= u16::MAX,
    ensures
        spec_decode(RequestType::Temperatures, spec_temperatures_payload(values)) == Ok::<
            ReadingV,
            CoreError,
        >(ReadingV::Temperatures { temps: values }),
{
    let payload = spec_temperatures_payload(values);
    lemma_i16_list_bytes_len(values);
    assert(payload.len() == 2 + 2 * values.len());
    assert(payload.subrange(0, 2) =~= spec_be16_bytes(values.len() as u16));
    lemma_be16_round_trip(values.len() as u16, payload, 0);
    assert(spec_u16_at(payload, 0) == values.len());
    assert forall|i: int| 0 <= i < values.len() implies spec_i16_at(payload, 2 + 2 * i)
        == values[i] by {
        lemma_i16_list_bytes_slots(values, i);
        let list = spec_i16_list_bytes(values);
        assert(payload.subrange(2 + 2 * i, 2 + 2 * i + 2) =~= list.subrange(2 * i, 2 * i + 2));
        lemma_be16_signed_round_trip(values[i], payload, 2 + 2 * i);
    }
    match spec_decode(RequestType::Temperatures, payload) {
        Ok(ReadingV::Temperatures { temps }) => {
            assert(temps =~= values);
        },
        _ => {
            assert(false);
        },
    }
}

/// For the length-prefixed layouts, a body declaring a count of `n`
/// entries and long enough for them decodes to exactly `n` elements.
pub proof fn lemma_declared_count_is_length(request_type: RequestType, payload: Seq<u8>)
    requires
        !(request_type is Levels),
        payload.len() >= 2,
        payload.len() >= 2 + 2 * (spec_u16_at(payload, 0) as int),
    ensures
        spec_decode(request_type, payload) is Ok,
        match spec_decode(request_type, payload) {
            Ok(ReadingV::CellVoltages { voltages }) =>
                voltages.len() == spec_u16_at(payload, 0),
            Ok(ReadingV::Temperatures { temps }) => temps.len() == spec_u16_at(payload, 0),
            _ => false,
        },
{
}

/// The instantaneous power implied by a levels reading, in milliwatts:
/// the product of the raw current (hundredths of an ampere) and the raw
/// voltage (tenths of a volt). Defined only for levels readings.
pub fn power_milliwatts(reading: &Reading) -> (power: Option<i64>)
    ensures
        match power {
            Some(p) => reading@ matches ReadingV::Levels { current, voltage, .. }
                && p == current * voltage,
            None => !(reading@ is Levels),
        },
{
    match reading {
        Reading::Levels { current, voltage, .. } => {
            let c: i64 = *current as i64;
            let v: i64 = *voltage as i64;
            proof {
                assert(-32768 * 65535 <= c * v <= 32767 * 65535) by (nonlinear_arith)
                    requires
                        -32768 <= c <= 32767,
                        0 <= v <= 65535,
                ;
            }
            Some(c * v)
        },
        _ => None,
    }
}

} // verus!
