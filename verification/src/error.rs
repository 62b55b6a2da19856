//! Errors that device drivers report.

use vstd::prelude::*;

verus! {

/// Why a device operation failed.
#[derive(Clone, Copy, Debug, PartialEq, Eq, Structural)]
pub enum DeviceError {
    /// The device did not reach the expected state in time, or has no room.
    NotReady,
    /// The device reported that a command failed.
    IoError,
}

/// The outcome of a device operation.
pub type DeviceResult<T> = Result<T, DeviceError>;

} // verus!
