//! Session setup: resolving the device's GATT table.
//!
//! The device family exposes two fixed 128-bit UUID pairs: a command
//! characteristic that accepts writes, and a telemetry characteristic
//! that emits notifications. A session is established by matching those
//! constants against the GATT table discovered on the connected
//! peripheral; a device that lacks either endpoint does not speak this
//! protocol, which is fatal for that device and never retried.
//!
//! The caller performs service discovery and hands the table in as plain
//! values; the indices handed back identify which characteristic to
//! write commands to and which to subscribe to.

use vstd::prelude::*;

verus! {

use crate::errors::CoreError;

/// Service that holds the command characteristic.
pub const COMMAND_SERVICE_UUID: u128 = 0x0000ffd0_0000_1000_8000_00805f9b34fb;

/// Characteristic that command frames are written to.
pub const COMMAND_CHARACTERISTIC_UUID: u128 = 0x0000ffd1_0000_1000_8000_00805f9b34fb;

/// Service that holds the telemetry characteristic.
pub const TELEMETRY_SERVICE_UUID: u128 = 0x0000fff0_0000_1000_8000_00805f9b34fb;

/// Characteristic that telemetry notifications arrive on.
pub const TELEMETRY_CHARACTERISTIC_UUID: u128 = 0x0000fff1_0000_1000_8000_00805f9b34fb;

/// One characteristic of the discovered GATT table: its UUID and the
/// properties the protocol cares about.
#[derive(Clone, Copy, PartialEq, Eq, Structural, Debug)]
pub struct CharacteristicInfo {
    /// The characteristic's 128-bit UUID.
    pub uuid: u128,
    /// Supports write with response.
    pub write: bool,
    /// Supports write without response.
    pub write_without_response: bool,
    /// Supports notifications.
    pub notify: bool,
}

/// One service of the discovered GATT table.
#[derive(Clone, PartialEq, Eq, Debug)]
pub struct ServiceInfo {
    /// The service's 128-bit UUID.
    pub uuid: u128,
    /// Its characteristics, in discovery order.
    pub characteristics: Vec<CharacteristicInfo>,
}

/// Where in the GATT table the two protocol endpoints sit: indices into
/// the table that was resolved.
#[derive(Clone, Copy, PartialEq, Eq, Structural, Debug)]
pub struct Endpoints {
    /// Index of the service holding the command characteristic.
    pub command_service: usize,
    /// Index of the command characteristic within that service.
    pub command_characteristic: usize,
    /// Index of the service holding the telemetry characteristic.
    pub telemetry_service: usize,
    /// Index of the telemetry characteristic within that service.
    pub telemetry_characteristic: usize,
}

/// A usable command characteristic: the fixed UUID, writable with or
/// without response.
pub open spec fn spec_is_command_char(c: CharacteristicInfo) -> bool {
    c.uuid == COMMAND_CHARACTERISTIC_UUID && (c.write_without_response || c.write)
}

/// A usable telemetry characteristic: the fixed UUID, supporting notify.
pub open spec fn spec_is_telemetry_char(c: CharacteristicInfo) -> bool {
    c.uuid == TELEMETRY_CHARACTERISTIC_UUID && c.notify
}

/// The characteristic predicate for one of the two endpoints.
pub open spec fn spec_char_matches(c: CharacteristicInfo, command: bool) -> bool {
    if command {
        spec_is_command_char(c)
    } else {
        spec_is_telemetry_char(c)
    }
}

/// The service UUID expected to hold one of the two endpoints.
pub open spec fn spec_target_service(command: bool) -> u128 {
    if command {
        COMMAND_SERVICE_UUID
    } else {
        TELEMETRY_SERVICE_UUID
    }
}

/// A service that holds the requested endpoint.
pub open spec fn spec_service_has(s: ServiceInfo, command: bool) -> bool {
    s.uuid == spec_target_service(command) && exists|j: int|
        0 <= j < s.characteristics@.len() && spec_char_matches(
            #[trigger] s.characteristics@[j],
            command,
        )
}

/// The table holds the requested endpoint somewhere.
pub open spec fn spec_table_has(services: Seq<ServiceInfo>, command: bool) -> bool {
    exists|i: int| 0 <= i < services.len() && spec_service_has(#[trigger] services[i], command)
}

/// Find the first service/characteristic pair matching one endpoint, in
/// table order.
fn find_endpoint(services: &Vec<ServiceInfo>, command: bool) -> (found: Option<(usize, usize)>)
    ensures
        found is Some <==> spec_table_has(services@, command),
        match found {
            Some((i, j)) => {
                &&& 0 <= i < services@.len()
                &&& 0 <= j < services@[i as int].characteristics@.len()
                &&& services@[i as int].uuid == spec_target_service(command)
                &&& spec_char_matches(services@[i as int].characteristics@[j as int], command)
                &&& forall|k: int| 0 <= k < i ==> !spec_service_has(#[trigger] services@[k], command)
                &&& forall|k: int| 0 <= k < j
                    ==> !spec_char_matches(
                        #[trigger] services@[i as int].characteristics@[k],
                        command,
                    )
            },
            None => true,
        },
{
    let target: u128 = if command {
        COMMAND_SERVICE_UUID
    } else {
        TELEMETRY_SERVICE_UUID
    };
    let n: usize = services.len();
    let mut i: usize = 0;
    while i < n
        invariant
            i <= n,
            n == services@.len(),
            target == spec_target_service(command),
            forall|k: int| 0 <= k < i ==> !spec_service_has(#[trigger] services@[k], command),
        decreases n - i,
    {
        if services[i].uuid == target {
            let m: usize = services[i].characteristics.len();
            let mut j: usize = 0;
            while j < m
                invariant
                    j <= m,
                    i < n == services@.len(),
                    m == services@[i as int].characteristics@.len(),
                    target == spec_target_service(command),
                    services@[i as int].uuid == target,
                    forall|k: int| 0 <= k < i ==> !spec_service_has(
                        #[trigger] services@[k],
                        command,
                    ),
                    forall|k: int| 0 <= k < j
                        ==> !spec_char_matches(
                            #[trigger] services@[i as int].characteristics@[k],
                            command,
                        ),
                decreases m - j,
            {
                let c = &services[i].characteristics[j];
                let hit = if command {
                    c.uuid == COMMAND_CHARACTERISTIC_UUID && (c.write_without_response || c.write)
                } else {
                    c.uuid == TELEMETRY_CHARACTERISTIC_UUID && c.notify
                };
                if hit {
                    proof {
                        assert(spec_char_matches(
                            services@[i as int].characteristics@[j as int],
                            command,
                        ));
                        assert(spec_service_has(services@[i as int], command));
                        assert(spec_table_has(services@, command));
                    }
                    return Some((i, j));
                }
                j = j + 1;
            }
        }
        i = i + 1;
    }
    None
}

/// Resolve both protocol endpoints against a discovered GATT table.
///
/// Succeeds exactly when the table holds, under the fixed service UUIDs,
/// a command characteristic that is writable (with or without response)
/// and a telemetry characteristic that supports notify; each reported
/// index pair is the first match in table order. A table lacking either
/// endpoint is a [`CoreError::CharacteristicNotFound`], fatal for that
/// device.
pub fn resolve_endpoints(services: &Vec<ServiceInfo>) -> (endpoints: Result<Endpoints, CoreError>)
    ensures
        endpoints is Ok <==> spec_table_has(services@, true) && spec_table_has(services@, false),
        match endpoints {
            Ok(e) => {
                &&& 0 <= e.command_service < services@.len()
                &&& 0 <= e.command_characteristic
                    < services@[e.command_service as int].characteristics@.len()
                &&& services@[e.command_service as int].uuid == COMMAND_SERVICE_UUID
                &&& spec_is_command_char(
                    services@[e.command_service as int].characteristics@[
                        e.command_characteristic as int],
                )
                &&& 0 <= e.telemetry_service < services@.len()
                &&& 0 <= e.telemetry_characteristic
                    < services@[e.telemetry_service as int].characteristics@.len()
                &&& services@[e.telemetry_service as int].uuid == TELEMETRY_SERVICE_UUID
                &&& spec_is_telemetry_char(
                    services@[e.telemetry_service as int].characteristics@[
                        e.telemetry_characteristic as int],
                )
                &&& forall|k: int| 0 <= k < e.command_service
                    ==> !spec_service_has(#[trigger] services@[k], true)
                &&& forall|k: int| 0 <= k < e.command_characteristic
                    ==> !spec_is_command_char(
                        #[trigger] services@[e.command_service as int].characteristics@[k],
                    )
                &&& forall|k: int| 0 <= k < e.telemetry_service
                    ==> !spec_service_has(#[trigger] services@[k], false)
                &&& forall|k: int| 0 <= k < e.telemetry_characteristic
                    ==> !spec_is_telemetry_char(
                        #[trigger] services@[e.telemetry_service as int].characteristics@[k],
                    )
            },
            Err(e) => e == CoreError::CharacteristicNotFound,
        },
{
    let command = find_endpoint(services, true);
    let telemetry = find_endpoint(services, false);
    match (command, telemetry) {
        (Some((ci, cj)), Some((ti, tj))) => Ok(
            Endpoints {
                command_service: ci,
                command_characteristic: cj,
                telemetry_service: ti,
                telemetry_characteristic: tj,
            },
        ),
        _ => Err(CoreError::CharacteristicNotFound),
    }
}

} // verus!
