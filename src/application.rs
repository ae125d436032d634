//! Commands, queries and handler interfaces of the application layer, with
//! the helpers that run repository operations.

use vstd::prelude::*;
use crate::domain::{BatteryInfo, DeviceCapabilities, DeviceType};

verus! {

/// Declares `anyhow::Error`, the error that repository operations report.
#[verifier::external_type_specification]
#[verifier::external_body]
pub struct ExAnyhowError(anyhow::Error);

/// Register a new device.
#[derive(Clone, Debug)]
pub struct RegisterDeviceCommand {
    pub device_id: String,
    pub device_name: String,
    pub device_type: DeviceType,
    pub capabilities: DeviceCapabilities,
}

/// Update a device's battery status.
#[derive(Clone, Debug)]
pub struct UpdateBatteryCommand {
    pub device_id: String,
    pub battery_info: BatteryInfo,
}

/// Get the active navigation session.
#[derive(Clone, Debug)]
pub struct GetActiveSessionQuery {}

/// Get the connected devices.
#[derive(Clone, Debug)]
pub struct GetConnectedDevicesQuery {}

/// Get a device by its identifier.
#[derive(Clone, Debug)]
pub struct GetDeviceQuery {
    pub device_id: String,
}

/// Geocode an address.
#[derive(Clone, Debug)]
pub struct GeocodeQuery {
    pub address: String,
}

/// Handler of a command that runs without awaiting.
pub trait SyncCommandHandler<TCommand, TResult> {
    fn handle(&self, command: TCommand) -> Result<TResult, anyhow::Error>;
}

/// Handler of a query that runs without awaiting.
pub trait SyncQueryHandler<TQuery, TResult> {
    fn handle(&self, query: TQuery) -> Result<TResult, anyhow::Error>;
}

/// Runs a repository command that yields an identifier and hands its result
/// back unchanged.
pub fn command_with_id<F: FnOnce() -> Result<i64, anyhow::Error>>(operation: F) -> (r: Result<
    i64,
    anyhow::Error,
>)
    requires
        operation.requires(()),
    ensures
        operation.ensures((), r),
{
    operation()
}

/// Runs a repository command that yields nothing and hands its result back
/// unchanged.
pub fn command<F: FnOnce() -> Result<(), anyhow::Error>>(operation: F) -> (r: Result<
    (),
    anyhow::Error,
>)
    requires
        operation.requires(()),
    ensures
        operation.ensures((), r),
{
    operation()
}

} // verus!
