//! NVIDIA GPUs, read through NVML.

use vstd::prelude::*;

use std::collections::HashMap;

use nvml_wrapper::Nvml;

use crate::linux_amd_gpu::opt_view;
use crate::nvml::{
    nvml_device_by_index, nvml_error_message, nvml_init, nvml_power_usage,
    nvml_process_utilization_stats, nvml_utilization_rates,
};
use crate::sensor::SensorError;
use crate::text::{decimal, push_decimal};

verus! {

broadcast use vstd::std_specs::hash::group_hash_axioms;

/// The view of the outcome of a power probe (the error text where it failed).
pub open spec fn power_outcome_view(o: Result<u32, String>) -> Result<u32, Seq<char>> {
    match o {
        Ok(p) => Ok(p),
        Err(t) => Err(t@),
    }
}

/// The view of the outcome of a utilization probe (the error text where it
/// failed).
pub open spec fn utilization_outcome_view(o: Result<(u32, u32), String>) -> Result<
    (u32, u32),
    Seq<char>,
> {
    match o {
        Ok(u) => Ok(u),
        Err(t) => Err(t@),
    }
}

/// The error message for an NVIDIA GPU whose telemetry probes failed at
/// initialization, given the outcome of the power probe and of the utilization
/// probe; `None` when both succeeded.
pub open spec fn probe_message(
    index: u32,
    power: Result<u32, Seq<char>>,
    utilization: Result<(u32, u32), Seq<char>>,
) -> Option<Seq<char>> {
    match (power, utilization) {
        (Err(p), Err(u)) => Some(
            "NVML telemetry unavailable for device index "@ + decimal(index as nat) + ": power='"@
                + p + "', utilization='"@ + u + "'"@,
        ),
        (Err(p), Ok(_)) => Some(
            "⚠ NVIDIA GPU "@ + decimal(index as nat)
                + " power telemetry unavailable at initialization: "@ + p,
        ),
        (Ok(_), Err(u)) => Some(
            "⚠ NVIDIA GPU "@ + decimal(index as nat)
                + " utilization telemetry unavailable at initialization: "@ + u,
        ),
        (Ok(_), Ok(_)) => None,
    }
}

/// The counters (power in milliwatts, GPU and memory utilization in percent)
/// that a reading gives, from the outcome of the power query and of the
/// utilization query: the first failure's error text, else the values.
pub open spec fn counters_result(
    power: Result<u32, Seq<char>>,
    utilization: Result<(u32, u32), Seq<char>>,
) -> Result<(u32, u32, u32), Seq<char>> {
    match power {
        Err(t) => Err(t),
        Ok(p) => match utilization {
            Err(t) => Err(t),
            Ok(u) => Ok((p, u.0, u.1)),
        },
    }
}

/// The per-process usage that a list of (`pid`, `sm_util`) samples gives: each
/// process gets the value of its last sample.
pub open spec fn samples_to_map(s: Seq<(u32, u32)>) -> Map<u32, u32>
    decreases s.len(),
{
    if s.len() == 0 {
        Map::empty()
    } else {
        samples_to_map(s.drop_last()).insert(s.last().0, s.last().1)
    }
}

/// The usage map of a list of samples holds exactly the processes sampled, each
/// with the utilization of its last sample.
pub proof fn lemma_samples_to_map_keeps_last(s: Seq<(u32, u32)>)
    ensures
        forall|p: u32|
            samples_to_map(s).dom().contains(p) <==> exists|i: int|
                0 <= i < s.len() && (#[trigger] s[i]).0 == p,
        forall|i: int|
            0 <= i < s.len() && (forall|j: int| i < j < s.len() ==> s[j].0 != s[i].0) ==> (
            #[trigger] samples_to_map(s)[s[i].0]) == s[i].1,
    decreases s.len(),
{
    if s.len() > 0 {
        let t = s.drop_last();
        let n = s.len() - 1;
        lemma_samples_to_map_keeps_last(t);
        assert(samples_to_map(s) == samples_to_map(t).insert(s[n].0, s[n].1));
        assert forall|p: u32|
            samples_to_map(s).dom().contains(p) <==> exists|i: int|
                0 <= i < s.len() && (#[trigger] s[i]).0 == p by {
            if samples_to_map(s).dom().contains(p) {
                if p == s[n].0 {
                    assert(s[n].0 == p);
                } else {
                    assert(samples_to_map(t).dom().contains(p));
                    let i = choose|i: int| 0 <= i < t.len() && (#[trigger] t[i]).0 == p;
                    assert(s[i] == t[i]);
                }
            }
            if exists|i: int| 0 <= i < s.len() && (#[trigger] s[i]).0 == p {
                let i = choose|i: int| 0 <= i < s.len() && (#[trigger] s[i]).0 == p;
                if i < n {
                    assert(t[i] == s[i]);
                }
            }
        }
        assert forall|i: int|
            0 <= i < s.len() && (forall|j: int| i < j < s.len() ==> s[j].0 != s[i].0) implies (
            #[trigger] samples_to_map(s)[s[i].0]) == s[i].1 by {
            if i < n {
                assert(s[n].0 != s[i].0);
                assert(t[i] == s[i]);
                assert forall|j: int| i < j < t.len() implies t[j].0 != t[i].0 by {
                    assert(t[j] == s[j]);
                }
            }
        }
    }
}

/// The result of an NVML process-utilization query, as the sensor reports it.
pub open spec fn process_usage_result(samples: Result<Seq<(u32, u32)>, Seq<char>>) -> Result<
    Map<u32, u32>,
    Seq<char>,
> {
    match samples {
        Ok(s) => Ok(samples_to_map(s)),
        Err(t) => Err("Failed to get process utilization stats: "@ + t),
    }
}

/// Decides whether an NVIDIA GPU can be used, from the outcome of its power
/// probe and of its utilization probe.
pub fn probe_outcome(index: u32, power: Result<u32, String>, utilization: Result<(u32, u32), String>) -> (r:
    Result<(), SensorError>)
    ensures
        r is Ok <==> (power is Ok && utilization is Ok),
        match probe_message(index, power_outcome_view(power), utilization_outcome_view(utilization)) {
            Some(m) => r matches Err(SensorError::ReadError(x)) && x@ == m,
            None => r is Ok,
        },
{
    match (power, utilization) {
        (Err(p), Err(u)) => {
            let mut m = String::new();
            m.append("NVML telemetry unavailable for device index ");
            push_decimal(&mut m, index);
            m.append(": power='");
            m.append(p.as_str());
            m.append("', utilization='");
            m.append(u.as_str());
            m.append("'");
            Err(SensorError::ReadError(m))
        },
        (Err(p), Ok(_)) => {
            let mut m = String::new();
            m.append("⚠ NVIDIA GPU ");
            push_decimal(&mut m, index);
            m.append(" power telemetry unavailable at initialization: ");
            m.append(p.as_str());
            Err(SensorError::ReadError(m))
        },
        (Ok(_), Err(u)) => {
            let mut m = String::new();
            m.append("⚠ NVIDIA GPU ");
            push_decimal(&mut m, index);
            m.append(" utilization telemetry unavailable at initialization: ");
            m.append(u.as_str());
            Err(SensorError::ReadError(m))
        },
        (Ok(_), Ok(_)) => Ok(()),
    }
}

/// The counters of a reading (power in milliwatts, GPU and memory utilization
/// in percent), from the outcome of the power query and of the utilization
/// query: the first failure is reported with its error text.
pub fn counters_of(power: Result<u32, String>, utilization: Result<(u32, u32), String>) -> (r:
    Result<(u32, u32, u32), SensorError>)
    ensures
        match counters_result(power_outcome_view(power), utilization_outcome_view(utilization)) {
            Ok(c) => r == Ok::<(u32, u32, u32), SensorError>(c),
            Err(t) => r matches Err(SensorError::ReadError(x)) && x@ == t,
        },
{
    match power {
        Err(t) => Err(SensorError::ReadError(t)),
        Ok(p) => match utilization {
            Err(t) => Err(SensorError::ReadError(t)),
            Ok((g, m)) => Ok((p, g, m)),
        },
    }
}

/// What one per-process sampling attempt against NVML gave: the device lookup
/// failed (with its error text), or it succeeded and the sampling gave the
/// (`pid`, `sm_util`) samples or failed (with its error text).
pub type SamplingOutcome = Result<Result<Seq<(u32, u32)>, Seq<char>>, Seq<char>>;

/// The view of a sampling outcome.
pub open spec fn sampling_outcome_view(o: Result<Result<Vec<(u32, u32)>, String>, String>) -> SamplingOutcome {
    match o {
        Ok(Ok(s)) => Ok(Ok(s@)),
        Ok(Err(t)) => Ok(Err(t@)),
        Err(t) => Err(t@),
    }
}

/// One step of per-process sampling after the first: from the recorded
/// timestamp `last`, the time of this call `current` and the sampling outcome,
/// the timestamp recorded next (`new_last`) and the answer (`r`). A failed
/// device lookup keeps `last` and reports the lookup's error; otherwise
/// `current` is recorded, also when the sampling itself fails.
pub open spec fn sampling_step_holds(
    last: u64,
    current: u64,
    lookup: SamplingOutcome,
    new_last: u64,
    r: Result<HashMap<u32, u32>, SensorError>,
) -> bool {
    match lookup {
        Err(t) => new_last == last && (r matches Err(SensorError::ReadError(m)) && m@ == t),
        Ok(sampled) => new_last == current && match sampled {
            Ok(s) => (r matches Ok(m) && m@ == samples_to_map(s)),
            Err(t) => (r matches Err(SensorError::ReadError(m)) && m@
                == "Failed to get process utilization stats: "@ + t),
        },
    }
}

/// One step of per-process sampling after the first (see
/// [`sampling_step_holds`]): the timestamp to record next and the answer.
pub fn sampling_step(
    last: u64,
    current: u64,
    lookup: Result<Result<Vec<(u32, u32)>, String>, String>,
) -> (r: (u64, Result<HashMap<u32, u32>, SensorError>))
    ensures
        sampling_step_holds(last, current, sampling_outcome_view(lookup), r.0, r.1),
{
    match lookup {
        Err(t) => (last, Err(SensorError::ReadError(t))),
        Ok(sampled) => (current, process_usage_outcome(sampled)),
    }
}

/// The per-process usage map of a list of (`pid`, `sm_util`) samples.
pub fn usage_map(samples: &Vec<(u32, u32)>) -> (m: HashMap<u32, u32>)
    ensures
        m@ == samples_to_map(samples@),
{
    let mut m: HashMap<u32, u32> = HashMap::new();
    let n = samples.len();
    let mut i: usize = 0;
    while i < n
        invariant
            n == samples@.len(),
            i <= n,
            m@ == samples_to_map(samples@.take(i as int)),
        decreases n - i,
    {
        let (pid, util) = samples[i];
        m.insert(pid, util);
        assert(samples@.take(i + 1).drop_last() =~= samples@.take(i as int));
        i += 1;
    }
    assert(samples@.take(n as int) =~= samples@);
    m
}

/// The sensor's answer to a process-utilization query: the usage map of the
/// samples, or the error text of the failed query.
pub fn process_usage_outcome(samples: Result<Vec<(u32, u32)>, String>) -> (r: Result<
    HashMap<u32, u32>,
    SensorError,
>)
    ensures
        match samples {
            Ok(s) => r matches Ok(m) && m@ == samples_to_map(s@),
            Err(t) => r matches Err(SensorError::ReadError(x)) && x@
                == "Failed to get process utilization stats: "@ + t@,
        },
{
    match samples {
        Ok(s) => Ok(usage_map(&s)),
        Err(t) => {
            let mut m = String::new();
            m.append("Failed to get process utilization stats: ");
            m.append(t.as_str());
            Err(SensorError::ReadError(m))
        },
    }
}

/// What a sensor last asked NVML for: the device index it looked up and, where
/// the lookup succeeded and per-process samples were asked for, the timestamp
/// they were asked from; with what NVML answered to a per-process sampling
/// (`None` where none was asked for).
pub struct NvmlRequest {
    pub device_index: u32,
    pub samples_since: Option<u64>,
    pub answer: Option<SamplingOutcome>,
}

/// One per-process sampling call after the first: the request recorded says
/// that device `device_index` was looked up, what NVML answered (the lookup's
/// failure, or the samples it gave or its sampling failure) and, exactly when
/// the lookup succeeded, that samples were asked from `last`; the timestamp
/// recorded next and the answer follow from NVML's answer as
/// [`sampling_step_holds`] says.
pub open spec fn sampling_call_holds(
    device_index: u32,
    last: u64,
    current: u64,
    request: Option<NvmlRequest>,
    new_last: u64,
    r: Result<HashMap<u32, u32>, SensorError>,
) -> bool {
    match request {
        Some(q) => {
            &&& q.device_index == device_index
            &&& match q.answer {
                Some(a) => {
                    &&& q.samples_since == (if a is Ok {
                        Some(last)
                    } else {
                        None
                    })
                    &&& sampling_step_holds(last, current, a, new_last, r)
                },
                None => false,
            }
        },
        None => false,
    }
}

/// One reading of an NVIDIA GPU's counters.
pub struct NvidiaReading {
    /// Board power draw in milliwatts.
    pub power_mw: u32,
    /// GPU utilization in percent.
    pub gpu_percent: u32,
    /// Memory utilization in percent.
    pub memory_percent: u32,
    /// The NVML index of the device the counters were read from.
    pub read_from: Ghost<u32>,
    /// What NVML answered: the power draw, and the (GPU, memory) utilization
    /// pair.
    pub answered: Ghost<(u32, (u32, u32))>,
}

/// The sensor for one NVIDIA GPU.
pub struct NvidiaGPUSensor {
    /// The NVML handle the GPU is read through.
    pub nvml: Nvml,
    /// The GPU's NVML index.
    pub device_index: u32,
    /// When per-process usage was last sampled; zero before the first query.
    pub last_timestamp: u64,
    /// What the sensor last asked NVML for.
    pub last_request: Ghost<Option<NvmlRequest>>,
}

impl NvidiaGPUSensor {
    /// Opens NVML and checks that the GPU at `index` exists and reports both
    /// its power and its utilization (decided by [`probe_outcome`]).
    pub fn new(index: u32) -> (r: Result<Self, SensorError>)
        ensures
            r matches Ok(s) ==> s.device_index == index && s.last_timestamp == 0
                && s.last_request@ == Some(
                NvmlRequest { device_index: index, samples_since: None, answer: None },
            ),
            r matches Err(e) ==> e matches SensorError::ReadError(m) && m@.len() > 0,
    {
        let nvml = match nvml_init() {
            Ok(n) => n,
            Err(e) => {
                return Err(SensorError::ReadError(nvml_error_message(&e)));
            },
        };
        let (outcome, Ghost(asked)) = {
            let (found, Ghost(asked)) = nvml_device_by_index(&nvml, index);
            let device = match found {
                Ok(d) => d,
                Err(e) => {
                    return Err(SensorError::ReadError(nvml_error_message(&e)));
                },
            };
            let power = match nvml_power_usage(&device) {
                Ok(p) => Ok(p),
                Err(e) => Err(nvml_error_message(&e)),
            };
            let utilization = match nvml_utilization_rates(&device) {
                Ok(u) => Ok(u),
                Err(e) => Err(nvml_error_message(&e)),
            };
            (probe_outcome(index, power, utilization), Ghost(asked))
        };
        match outcome {
            Ok(()) => Ok(
                NvidiaGPUSensor {
                    nvml,
                    device_index: index,
                    last_timestamp: 0,
                    last_request: Ghost(
                        Some(NvmlRequest { device_index: asked, samples_since: None, answer: None }),
                    ),
                },
            ),
            Err(e) => Err(e),
        }
    }

    /// Per-process GPU (SM) utilization since the previous call, by process id.
    /// The first call only records `current_timestamp` and gives an empty map,
    /// without asking NVML; each later call looks the device up, samples from
    /// the recorded time on, and records the new time (also when the sampling
    /// itself fails, but not when the lookup fails).
    pub fn get_processes_gpu_usage(&mut self, current_timestamp: u64) -> (r: Result<
        HashMap<u32, u32>,
        SensorError,
    >)
        ensures
            final(self).device_index == old(self).device_index,
            final(self).nvml == old(self).nvml,
            old(self).last_timestamp == 0 ==> (r matches Ok(m) && m@ == Map::<u32, u32>::empty()
                && final(self).last_timestamp == current_timestamp && final(self).last_request
                == old(self).last_request),
            old(self).last_timestamp != 0 ==> sampling_call_holds(
                old(self).device_index,
                old(self).last_timestamp,
                current_timestamp,
                final(self).last_request@,
                final(self).last_timestamp,
                r,
            ),
    {
        if self.last_timestamp == 0 {
            self.last_timestamp = current_timestamp;
            let m: HashMap<u32, u32> = HashMap::new();
            return Ok(m);
        }
        let ghost mut since: Option<u64> = None;
        let ghost mut answer: SamplingOutcome = Err(Seq::empty());
        let (found, Ghost(asked_index)) = nvml_device_by_index(&self.nvml, self.device_index);
        let lookup = match found {
            Ok(device) => {
                let (samples, Ghost(asked_since)) = nvml_process_utilization_stats(
                    &device,
                    self.last_timestamp,
                );
                let ghost given: Seq<(u32, u32)> = match &samples {
                    Ok(v) => v@,
                    Err(_) => Seq::empty(),
                };
                let sampled = match samples {
                    Ok(s) => Ok(s),
                    Err(e) => Err(nvml_error_message(&e)),
                };
                proof {
                    since = Some(asked_since);
                    answer = Ok(
                        match &sampled {
                            Ok(_) => Ok(given),
                            Err(t) => Err(t@),
                        },
                    );
                }
                Ok(sampled)
            },
            Err(e) => {
                let t = nvml_error_message(&e);
                proof {
                    answer = Err(t@);
                }
                Err(t)
            },
        };
        self.last_request = Ghost(
            Some(NvmlRequest { device_index: asked_index, samples_since: since, answer: Some(answer) }),
        );
        let (next, r) = sampling_step(self.last_timestamp, current_timestamp, lookup);
        self.last_timestamp = next;
        r
    }

    /// Reads the GPU's power draw and utilization (decided by [`counters_of`]);
    /// the utilization is asked for only once the power was read.
    pub fn read_counters(&self) -> (r: Result<NvidiaReading, SensorError>)
        ensures
            r matches Ok(x) ==> {
                &&& x.read_from@ == self.device_index
                &&& x.power_mw == x.answered@.0
                &&& x.gpu_percent == x.answered@.1.0
                &&& x.memory_percent == x.answered@.1.1
            },
            r matches Err(e) ==> e matches SensorError::ReadError(m) && m@.len() > 0,
    {
        let (found, Ghost(asked)) = nvml_device_by_index(&self.nvml, self.device_index);
        let device = match found {
            Ok(d) => d,
            Err(e) => {
                return Err(SensorError::ReadError(nvml_error_message(&e)));
            },
        };
        let power_answer = nvml_power_usage(&device);
        let ghost answered_power: u32 = match &power_answer {
            Ok(p) => *p,
            Err(_) => 0,
        };
        let ghost mut answered_utilization: (u32, u32) = (0, 0);
        let power = match power_answer {
            Ok(p) => Ok(p),
            Err(e) => Err(nvml_error_message(&e)),
        };
        let utilization = if power.is_ok() {
            let utilization_answer = nvml_utilization_rates(&device);
            proof {
                answered_utilization = match &utilization_answer {
                    Ok(u) => *u,
                    Err(_) => (0, 0),
                };
            }
            match utilization_answer {
                Ok(u) => Ok(u),
                Err(e) => Err(nvml_error_message(&e)),
            }
        } else {
            Err(String::new())
        };
        match counters_of(power, utilization) {
            Ok((power_mw, gpu_percent, memory_percent)) => Ok(
                NvidiaReading {
                    power_mw,
                    gpu_percent,
                    memory_percent,
                    read_from: Ghost(asked),
                    answered: Ghost((answered_power, answered_utilization)),
                },
            ),
            Err(e) => Err(e),
        }
    }
}

} // verus!
