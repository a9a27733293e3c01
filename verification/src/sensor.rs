//! The errors that sensors report.

use vstd::prelude::*;

verus! {

/// Why a sensor could not be created or read.
#[derive(Debug, Clone)]
pub enum SensorError {
    /// The platform or the device has no such sensor.
    NotSupported,
    /// The sensor exists but reading it failed; the message says why.
    ReadError(String),
}

} // verus!
