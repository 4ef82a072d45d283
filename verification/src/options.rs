//! Caller-supplied configuration.
//!
//! These are the plain inputs the polling core is driven with: which
//! device to connect to, how often to poll, and where to log. The caller
//! parses its command line or configuration file and hands the values in.

use vstd::prelude::*;

verus! {

/// Command-line options for one polling run.
#[derive(Clone, Debug)]
pub struct Args {
    /// Log file to append readings to; none means print only.
    pub logs: Option<String>,
    /// Identifier of the device to connect to, if pinned by ID.
    pub peripheral_id: Option<String>,
    /// Advertised name of the device to connect to, if pinned by name.
    pub peripheral_name: Option<String>,
    /// Poll interval in seconds.
    pub interval: u64,
}

/// Stored preferences: where data goes and which devices to prefer.
#[derive(Clone, Debug)]
pub struct Config {
    /// Path of the reading log file.
    pub data_file_path: Option<String>,
    /// Adapter chosen by default.
    pub default_adapter: Option<String>,
    /// Peripheral chosen by default.
    pub default_peripheral: Option<String>,
}

} // verus!
