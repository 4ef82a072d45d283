//! Error taxonomy of the polling core.
//!
//! Failures intrinsic to a single tick (a failed write, a malformed
//! payload, a log file error) are reported to the caller and the loop
//! keeps running; failures that invalidate the session's assumptions
//! (no adapter, missing characteristics) end that device's loop.

use vstd::prelude::*;

verus! {

/// What went wrong inside the polling core.
#[derive(Clone, Copy, PartialEq, Eq, Structural, Debug)]
pub enum CoreError {
    /// Adapter or peripheral unreachable; fatal for the session.
    ConnectionFailure,
    /// The device's GATT table lacks a required service or characteristic;
    /// fatal for the session, never retried.
    CharacteristicNotFound,
    /// A command write failed; the scheduler retries on the next tick.
    WriteFailure,
    /// A notification payload was shorter than its declared layout; the
    /// reading is dropped and the loop continues.
    DecodeError,
    /// The JSON log could not be parsed or extended; polling continues.
    PersistenceFailure,
}

/// Errors surfaced to callers driving a peripheral from outside the core.
#[derive(Clone, Copy, PartialEq, Eq, Structural, Debug)]
pub enum PeripheralError {
    /// The peripheral operation failed.
    Fail,
    /// No adapter has been chosen, so no peripheral can be driven.
    UnableToUseAdapter,
}

} // verus!
