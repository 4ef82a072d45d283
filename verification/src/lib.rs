//! Polling and decoding engine for a BLE battery monitor.
//!
//! The library covers the protocol logic of one device session: encoding
//! command frames, decoding notification payloads into typed readings,
//! scheduling which request to issue on each timer tick, driving the
//! per-session event loop, resolving the device's GATT characteristics,
//! and maintaining the JSON log that readings are appended to.
//! All I/O (the BLE transport, timers, files) lives outside the library;
//! callers hand in plain values and perform the actions handed back.

pub mod codec;
pub mod discovery;
pub mod dataview;
pub mod engine;
pub mod errors;
pub mod numfmt;
pub mod options;
pub mod scheduler;
pub mod session;
pub mod sink;
