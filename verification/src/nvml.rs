//! The calls into the NVIDIA Management Library (through `nvml-wrapper`) that the
//! NVIDIA sensor makes. Every answer of NVML depends on the driver and the
//! hardware present, so none of these items promises anything of that answer:
//! the verified code records what came back and states what holds whichever
//! answer it was. The one claim made is that an error's message is not empty. The two
//! calls that take a device index or a timestamp give it back as a ghost value,
//! so that callers can state what they asked NVML for.

use vstd::prelude::*;

use nvml_wrapper::error::NvmlError;
use nvml_wrapper::{Device, Nvml};

verus! {

/// A handle on an initialized NVML library.
#[verifier::external_type_specification]
#[verifier::external_body]
pub struct ExNvml(Nvml);

/// A handle on one GPU, borrowed from an NVML handle.
#[verifier::external_type_specification]
#[verifier::external_body]
pub struct ExNvmlDevice<'nvml>(Device<'nvml>);

/// An error that NVML reported.
#[verifier::external_type_specification]
#[verifier::external_body]
pub struct ExNvmlError(NvmlError);

/// `Nvml::init`: loads the NVML shared library and initializes it. Nothing is
/// claimed of the outcome, which depends on the driver installed.
#[verifier::external_body]
pub(crate) fn nvml_init() -> (r: Result<Nvml, NvmlError>) {
    Nvml::init()
}

/// `Nvml::device_count`: the number of GPUs that NVML sees. Nothing is claimed
/// of the outcome.
#[verifier::external_body]
pub(crate) fn nvml_device_count(nvml: &Nvml) -> (r: Result<u32, NvmlError>) {
    nvml.device_count()
}

/// `Nvml::device_by_index`: the handle of the GPU at `index`. Nothing is
/// claimed of the outcome; the index asked for is given back as a ghost value.
#[verifier::external_body]
pub(crate) fn nvml_device_by_index<'a>(nvml: &'a Nvml, index: u32) -> (r: (
    Result<Device<'a>, NvmlError>,
    Ghost<u32>,
))
    ensures
        r.1@ == index,
{
    (nvml.device_by_index(index), Ghost(index))
}

/// `Device::name`: the GPU's product name. Nothing is claimed of the outcome.
#[verifier::external_body]
pub(crate) fn nvml_device_name(device: &Device) -> (r: Result<String, NvmlError>) {
    device.name()
}

/// `Device::power_usage`: the board's power draw in milliwatts. Nothing is
/// claimed of the outcome.
#[verifier::external_body]
pub(crate) fn nvml_power_usage(device: &Device) -> (r: Result<u32, NvmlError>) {
    device.power_usage()
}

/// `Device::utilization_rates`: the GPU and memory utilization in percent, as
/// the pair (`gpu`, `memory`). Nothing is claimed of the outcome.
#[verifier::external_body]
pub(crate) fn nvml_utilization_rates(device: &Device) -> (r: Result<(u32, u32), NvmlError>) {
    device.utilization_rates().map(|u| (u.gpu, u.memory))
}

/// `Device::process_utilization_stats`: the per-process samples taken since
/// `last_seen_timestamp`, each as the pair (`pid`, `sm_util`). Nothing is
/// claimed of the outcome; the timestamp asked from is given back as a ghost
/// value.
#[verifier::external_body]
pub(crate) fn nvml_process_utilization_stats(device: &Device, last_seen_timestamp: u64) -> (r: (
    Result<Vec<(u32, u32)>, NvmlError>,
    Ghost<u64>,
))
    ensures
        r.1@ == last_seen_timestamp,
{
    let samples = device.process_utilization_stats(last_seen_timestamp);
    (samples.map(|v| v.into_iter().map(|s| (s.pid, s.sm_util)).collect()), Ghost(last_seen_timestamp))
}

/// The message of an NVML error (its `Display` text, through `ToString`). The
/// only claim is that it is not empty: every variant of `NvmlError` has an
/// `#[error(..)]` text that starts with fixed words.
#[verifier::external_body]
pub(crate) fn nvml_error_message(e: &NvmlError) -> (r: String)
    ensures
        r@.len() > 0,
{
    e.to_string()
}

} // verus!
