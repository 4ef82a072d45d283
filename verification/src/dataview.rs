//! Big-endian field access over a byte buffer.
//!
//! Both the outgoing command frames and the inbound notification payloads
//! are sequences of big-endian fields at fixed byte offsets. [`DataView`]
//! wraps a byte buffer and reads or writes those fields.

use vstd::prelude::*;

verus! {

/// The unsigned 16-bit big-endian value formed by two bytes.
pub open spec fn spec_be_u16(hi: u8, lo: u8) -> u16 {
    (hi * 256 + lo) as u16
}

/// The signed 16-bit big-endian value formed by two bytes
/// (two's complement).
pub open spec fn spec_be_i16(hi: u8, lo: u8) -> i16 {
    if hi >= 128 {
        (hi * 256 + lo - 0x10000) as i16
    } else {
        (hi * 256 + lo) as i16
    }
}

/// The unsigned 32-bit big-endian value formed by four bytes.
pub open spec fn spec_be_u32(b0: u8, b1: u8, b2: u8, b3: u8) -> u32 {
    (b0 * 0x1000000 + b1 * 0x10000 + b2 * 0x100 + b3) as u32
}

/// The unsigned 16-bit field at a byte offset of a buffer.
pub open spec fn spec_u16_at(s: Seq<u8>, offset: int) -> u16
    recommends
        0 <= offset,
        offset + 2 <= s.len(),
{
    spec_be_u16(s[offset], s[offset + 1])
}

/// The signed 16-bit field at a byte offset of a buffer.
pub open spec fn spec_i16_at(s: Seq<u8>, offset: int) -> i16
    recommends
        0 <= offset,
        offset + 2 <= s.len(),
{
    spec_be_i16(s[offset], s[offset + 1])
}

/// The unsigned 32-bit field at a byte offset of a buffer.
pub open spec fn spec_u32_at(s: Seq<u8>, offset: int) -> u32
    recommends
        0 <= offset,
        offset + 4 <= s.len(),
{
    spec_be_u32(s[offset], s[offset + 1], s[offset + 2], s[offset + 3])
}

/// A byte buffer read and written as big-endian fields at byte offsets.
pub struct DataView {
    buffer: Vec<u8>,
}

impl View for DataView {
    type V = Seq<u8>;

    closed spec fn view(&self) -> Seq<u8> {
        self.buffer@
    }
}

impl DataView {
    /// Wrap a buffer.
    pub fn new(buffer: Vec<u8>) -> (view: Self)
        ensures
            view@ == buffer@,
    {
        DataView { buffer }
    }

    /// Give the buffer back.
    pub fn into_bytes(self) -> (bytes: Vec<u8>)
        ensures
            bytes@ == self@,
    {
        self.buffer
    }

    /// Number of bytes in the buffer.
    pub fn len(&self) -> (n: usize)
        ensures
            n == self@.len(),
    {
        self.buffer.len()
    }

    /// Store a 16-bit value big-endian at a byte offset.
    pub fn set_uint16(&mut self, offset: usize, value: u16)
        requires
            offset + 2 <= old(self)@.len(),
        ensures
            final(self)@ == old(self)@
                .update(offset as int, (value / 256) as u8)
                .update(offset as int + 1, (value % 256) as u8),
            final(self)@.len() == old(self)@.len(),
            spec_u16_at(final(self)@, offset as int) == value,
    {
        let _buffer_len: usize = self.buffer.len();
        self.buffer[offset] = (value / 256) as u8;
        self.buffer[offset + 1] = (value % 256) as u8;
    }

    /// Read the signed 16-bit field at a byte offset.
    pub fn get_int16(&self, offset: usize) -> (value: i16)
        requires
            offset + 2 <= self@.len(),
        ensures
            value == spec_i16_at(self@, offset as int),
    {
        let _buffer_len: usize = self.buffer.len();
        let hi = self.buffer[offset];
        let lo = self.buffer[offset + 1];
        let magnitude: i32 = hi as i32 * 256 + lo as i32;
        let value: i32 = if magnitude >= 0x8000 {
            magnitude - 0x10000
        } else {
            magnitude
        };
        value as i16
    }

    /// Read the unsigned 16-bit field at a byte offset.
    pub fn get_uint16(&self, offset: usize) -> (value: u16)
        requires
            offset + 2 <= self@.len(),
        ensures
            value == spec_u16_at(self@, offset as int),
    {
        let _buffer_len: usize = self.buffer.len();
        let hi = self.buffer[offset];
        let lo = self.buffer[offset + 1];
        hi as u16 * 256 + lo as u16
    }

    /// Read the unsigned 32-bit field at a byte offset.
    pub fn get_uint32(&self, offset: usize) -> (value: u32)
        requires
            offset + 4 <= self@.len(),
        ensures
            value == spec_u32_at(self@, offset as int),
    {
        let _buffer_len: usize = self.buffer.len();
        let b0 = self.buffer[offset];
        let b1 = self.buffer[offset + 1];
        let b2 = self.buffer[offset + 2];
        let b3 = self.buffer[offset + 3];
        b0 as u32 * 0x1000000 + b1 as u32 * 0x10000 + b2 as u32 * 0x100 + b3 as u32
    }
}

} // verus!
