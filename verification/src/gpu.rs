//! The GPU sensor: which sensor a vendor gets, the list of GPUs, and the
//! per-sensor operations.

use vstd::prelude::*;

use std::collections::HashMap;

use crate::linux_amd_gpu::{display_name_of, opt_view, LinuxAmdGPUSensor, LinuxAmdGpuDevice};
use crate::nvidia_gpu::{sampling_call_holds, NvidiaGPUSensor};
use crate::nvml::{nvml_device_by_index, nvml_device_count, nvml_device_name, nvml_init};
use crate::sensor::SensorError;
use crate::text::{decimal, join, seq_join};
use crate::vendor::{lowercase, vendor_of_lowered, GPUVendor};

verus! {

/// Platform-specific GPU power sensor.
pub enum GPUSensor {
    Nvidia(NvidiaGPUSensor),
    Amd(LinuxAmdGPUSensor),
}

/// A sensor of the collector; this library provides the GPU ones.
pub enum SensorType {
    GPU(GPUSensor),
}

/// The names under which the AMD GPUs are listed, in order.
pub open spec fn display_names(devices: Seq<LinuxAmdGpuDevice>) -> Seq<Seq<char>> {
    devices.map_values(|d: LinuxAmdGpuDevice| display_name_of(d@))
}

/// The views of a vector of strings.
pub open spec fn string_views(v: Seq<String>) -> Seq<Seq<char>> {
    v.map_values(|s: String| s@)
}

/// The GPU list: the AMD GPUs under their display names, then the NVIDIA GPUs
/// under the names NVML gives.
pub fn gpu_names(amd_devices: &Vec<LinuxAmdGpuDevice>, nvidia_names: Vec<String>) -> (r: Vec<
    String,
>)
    ensures
        string_views(r@) == display_names(amd_devices@) + string_views(nvidia_names@),
{
    let mut list: Vec<String> = Vec::new();
    let n = amd_devices.len();
    let mut i: usize = 0;
    while i < n
        invariant
            n == amd_devices@.len(),
            i <= n,
            list@.len() == i,
            string_views(list@) == display_names(amd_devices@.take(i as int)),
        decreases n - i,
    {
        let name = amd_devices[i].display_name();
        let ghost before = list@;
        list.push(name);
        assert(list@ == before.push(name));
        assert(amd_devices@.take(i + 1) =~= amd_devices@.take(i as int).push(amd_devices@[i as int]));
        assert forall|k: int| 0 <= k < i implies string_views(list@)[k] == display_names(
            amd_devices@.take(i + 1),
        )[k] by {
            assert(string_views(list@)[k] == string_views(before)[k]);
            assert(display_names(amd_devices@.take(i + 1))[k] == display_names(
                amd_devices@.take(i as int),
            )[k]);
        }
        assert(string_views(list@) =~= display_names(amd_devices@.take(i + 1)));
        i += 1;
    }
    assert(amd_devices@.take(n as int) =~= amd_devices@);
    let ghost base = list@;
    let m = nvidia_names.len();
    let mut j: usize = 0;
    while j < m
        invariant
            m == nvidia_names@.len(),
            j <= m,
            string_views(base) == display_names(amd_devices@),
            list@ == base + nvidia_names@.take(j as int),
        decreases m - j,
    {
        list.push(nvidia_names[j].clone());
        assert(list@ =~= base + nvidia_names@.take(j + 1));
        j += 1;
    }
    assert(nvidia_names@.take(m as int) =~= nvidia_names@);
    assert(string_views(base + nvidia_names@) =~= string_views(base) + string_views(
        nvidia_names@,
    ));
    list
}

/// The `Some` entries of `names`, in order.
pub open spec fn present_names(names: Seq<Option<Seq<char>>>) -> Seq<Seq<char>>
    decreases names.len(),
{
    if names.len() == 0 {
        Seq::empty()
    } else {
        let rest = present_names(names.drop_last());
        match names.last() {
            Some(n) => rest.push(n),
            None => rest,
        }
    }
}

/// The NVIDIA part of the GPU list, given whether NVML could be initialized
/// and count its devices (`count_ok`) and, for each device index in order, the
/// name NVML gave (`None` where the handle or the name could not be had):
/// empty unless `count_ok`, else the names that were given, in index order.
pub open spec fn nvidia_names_spec(count_ok: bool, names: Seq<Option<Seq<char>>>) -> Seq<Seq<char>> {
    if count_ok {
        present_names(names)
    } else {
        Seq::empty()
    }
}

/// The NVIDIA part of the GPU list, from the outcome of NVML's enumeration.
pub fn nvidia_names_of(count_ok: bool, names: &Vec<Option<String>>) -> (r: Vec<String>)
    ensures
        string_views(r@) == nvidia_names_spec(
            count_ok,
            names@.map_values(|o: Option<String>| opt_view(o)),
        ),
{
    let ghost views = names@.map_values(|o: Option<String>| opt_view(o));
    let mut r: Vec<String> = Vec::new();
    if !count_ok {
        assert(string_views(r@) =~= Seq::<Seq<char>>::empty());
        return r;
    }
    let n = names.len();
    let mut i: usize = 0;
    while i < n
        invariant
            n == names@.len(),
            views == names@.map_values(|o: Option<String>| opt_view(o)),
            i <= n,
            string_views(r@) == present_names(views.take(i as int)),
        decreases n - i,
    {
        assert(views.take(i + 1).drop_last() =~= views.take(i as int));
        assert(views.take(i + 1).last() == opt_view(names@[i as int]));
        match &names[i] {
            Some(name) => {
                let ghost before = r@;
                r.push(name.clone());
                assert(string_views(r@) =~= string_views(before).push(name@));
            },
            None => {},
        }
        i += 1;
    }
    assert(views.take(n as int) =~= views);
    r
}

/// What NVML's enumeration gave: whether it could be initialized and count its
/// devices, the count it gave, the name (or none) it gave for each index in
/// order, and the index that was looked up for each entry.
pub struct NvmlEnumeration {
    pub count_ok: bool,
    pub count: u32,
    pub names: Seq<Option<Seq<char>>>,
    pub asked: Seq<u32>,
}

/// The enumeration asked for the indices `0, 1, ...` in order, one entry each:
/// one for each device NVML counted, none where it could not count them.
pub open spec fn enumeration_in_index_order(e: NvmlEnumeration) -> bool {
    &&& e.asked.len() == e.names.len()
    &&& forall|k: int| 0 <= k < e.asked.len() ==> e.asked[k] == k
    &&& !e.count_ok ==> e.names.len() == 0
    &&& e.count_ok ==> e.names.len() == e.count
}

/// Asks NVML for its GPUs: whether it could be initialized and count them, and
/// for each index below the count, in order, the device's name where both its
/// handle and its name could be had. The ghost value records what NVML
/// answered: the count, and for each index the name that `Device::name` gave
/// (none where the handle or the name could not be had).
fn nvml_enumeration() -> (r: (bool, Vec<Option<String>>, Ghost<NvmlEnumeration>))
    ensures
        enumeration_in_index_order(r.2@),
        r.0 == r.2@.count_ok,
        r.1@.len() == r.2@.names.len(),
        forall|k: int| 0 <= k < r.1@.len() ==> opt_view(#[trigger] r.1@[k]) == r.2@.names[k],
{
    let mut names: Vec<Option<String>> = Vec::new();
    let ghost mut asked: Seq<u32> = Seq::empty();
    let ghost mut given: Seq<Option<Seq<char>>> = Seq::empty();
    let nvml = match nvml_init() {
        Ok(n) => n,
        Err(_) => {
            return (false, names, Ghost(NvmlEnumeration { count_ok: false, count: 0, names: given, asked }));
        },
    };
    let count = match nvml_device_count(&nvml) {
        Ok(c) => c,
        Err(_) => {
            return (false, names, Ghost(NvmlEnumeration { count_ok: false, count: 0, names: given, asked }));
        },
    };
    let mut i: u32 = 0;
    while i < count
        invariant
            i <= count,
            names@.len() == i,
            asked.len() == i,
            given.len() == i,
            forall|k: int| 0 <= k < i ==> asked[k] == k,
            forall|k: int| 0 <= k < i ==> opt_view(#[trigger] names@[k]) == given[k],
        decreases count - i,
    {
        let ghost mut answered: Option<Seq<char>> = None;
        let (found, Ghost(index)) = nvml_device_by_index(&nvml, i);
        let name = match found {
            Ok(device) => {
                let answer = nvml_device_name(&device);
                proof {
                    answered = match &answer {
                        Ok(n) => Some(n@),
                        Err(_) => None,
                    };
                }
                match answer {
                    Ok(name) => Some(name),
                    Err(_) => None,
                }
            },
            Err(_) => None,
        };
        names.push(name);
        proof {
            asked = asked.push(index);
            given = given.push(answered);
        }
        i += 1;
    }
    (true, names, Ghost(NvmlEnumeration { count_ok: true, count, names: given, asked }))
}

/// The names of the GPUs that NVML sees, in index order, skipping any whose
/// handle or name it cannot give; empty where NVML cannot be initialized or
/// cannot count its devices. The ghost value is what NVML answered.
fn nvidia_gpu_names() -> (r: (Vec<String>, Ghost<NvmlEnumeration>))
    ensures
        enumeration_in_index_order(r.1@),
        string_views(r.0@) == nvidia_names_spec(r.1@.count_ok, r.1@.names),
{
    let (count_ok, names, Ghost(e)) = nvml_enumeration();
    let r = nvidia_names_of(count_ok, &names);
    assert(names@.map_values(|o: Option<String>| opt_view(o)) =~= e.names);
    (r, Ghost(e))
}

/// Returns the list of AMD and NVIDIA GPU names on this system: the AMD GPUs
/// (`amd_devices`, as [`crate::linux_amd_gpu::list_amd_gpus`] gives them) first,
/// under their display names, then the names that NVML gives for its devices
/// in index order ([`nvidia_names_spec`]).
pub fn get_gpu_list(amd_devices: &Vec<LinuxAmdGpuDevice>) -> (r: Vec<String>)
    ensures
        r@.len() >= amd_devices@.len(),
        exists|e: NvmlEnumeration|
            enumeration_in_index_order(e) && string_views(r@) == display_names(amd_devices@)
                + nvidia_names_spec(e.count_ok, e.names),
{
    let (nvidia, Ghost(e)) = nvidia_gpu_names();
    let r = gpu_names(amd_devices, nvidia);
    assert(string_views(r@) == display_names(amd_devices@) + string_views(nvidia@));
    assert(string_views(r@).len() == r@.len());
    assert(enumeration_in_index_order(e) && string_views(r@) == display_names(amd_devices@)
        + nvidia_names_spec(e.count_ok, e.names));
    r
}

/// The sensor's name for a list of GPU names: `Gpu(s): [a, b]`.
pub fn gpu_list_label(names: &Vec<String>) -> (r: String)
    ensures
        r@ == "Gpu(s): ["@ + seq_join(string_views(names@), ", "@) + "]"@,
{
    let mut r = String::new();
    r.append("Gpu(s): [");
    let joined = join(names, ", ");
    r.append(joined.as_str());
    r.append("]");
    r
}

/// Creates a GPU power sensor appropriate for the vendor that `vendor_id` names:
/// AMD GPUs are looked up by `index` in `amd_devices` (the list that
/// [`crate::linux_amd_gpu::list_amd_gpus`] gives), NVIDIA GPUs through NVML; other
/// vendors have no power sensor.
pub fn get_gpu_power_sensor(vendor_id: &str, index: u32, amd_devices: Vec<LinuxAmdGpuDevice>) -> (r:
    Result<SensorType, SensorError>)
    ensures
        ({
            let vendor = vendor_of_lowered(lowercase(vendor_id@));
            &&& vendor == GPUVendor::Amd && index < amd_devices@.len() ==> (r matches Ok(
                SensorType::GPU(GPUSensor::Amd(s)),
            ) && s.device@ == amd_devices@[index as int]@)
            &&& vendor == GPUVendor::Amd && index >= amd_devices@.len() ==> (r matches Err(
                SensorError::ReadError(m),
            ) && m@ == "No AMD GPU found at Linux DRM index "@ + decimal(index as nat))
            &&& vendor == GPUVendor::Nvidia ==> match r {
                Ok(SensorType::GPU(GPUSensor::Nvidia(s))) => s.device_index == index
                    && s.last_timestamp == 0,
                Ok(_) => false,
                Err(e) => e matches SensorError::ReadError(m) && m@.len() > 0,
            }
            &&& (vendor == GPUVendor::Intel || vendor == GPUVendor::Other) ==> r matches Err(
                SensorError::NotSupported,
            )
        }),
{
    let vendor = GPUVendor::from_str(vendor_id);
    match vendor {
        GPUVendor::Amd => match LinuxAmdGPUSensor::new(amd_devices, index) {
            Ok(s) => Ok(SensorType::GPU(GPUSensor::Amd(s))),
            Err(e) => Err(e),
        },
        GPUVendor::Nvidia => match NvidiaGPUSensor::new(index) {
            Ok(s) => Ok(SensorType::GPU(GPUSensor::Nvidia(s))),
            Err(e) => Err(e),
        },
        _ => Err(SensorError::NotSupported),
    }
}

impl GPUSensor {
    /// Returns per-process GPU utilization percentages, by process id. Only
    /// NVIDIA GPUs report it; for AMD GPUs the sysfs interface gives device-level
    /// figures only, so the answer is `NotSupported`.
    pub fn get_process_gpu_usage(&mut self, current_timestamp: u64) -> (r: Result<
        HashMap<u32, u32>,
        SensorError,
    >)
        ensures
            match *old(self) {
                GPUSensor::Amd(_) => r matches Err(SensorError::NotSupported) && *final(self)
                    == *old(self),
                GPUSensor::Nvidia(s0) => *final(self) matches GPUSensor::Nvidia(s1) && {
                    &&& s1.device_index == s0.device_index
                    &&& s1.nvml == s0.nvml
                    &&& s0.last_timestamp == 0 ==> (r matches Ok(m) && m@ == Map::<
                        u32,
                        u32,
                    >::empty() && s1.last_timestamp == current_timestamp && s1.last_request
                        == s0.last_request)
                    &&& s0.last_timestamp != 0 ==> sampling_call_holds(
                        s0.device_index,
                        s0.last_timestamp,
                        current_timestamp,
                        s1.last_request@,
                        s1.last_timestamp,
                        r,
                    )
                },
            },
    {
        match self {
            GPUSensor::Nvidia(sensor) => sensor.get_processes_gpu_usage(current_timestamp),
            GPUSensor::Amd(_) => Err(SensorError::NotSupported),
        }
    }

    /// Returns `true` when this GPU is a known integrated GPU model; no Linux
    /// sensor is one.
    pub fn is_integrated(&self) -> (r: bool)
        ensures
            !r,
    {
        false
    }
}

} // verus!
