//! GPU power-sensor logic: vendor detection, AMD DRM device discovery and naming,
//! NVIDIA NVML probing, and the sensor dispatch built on top of them.
//!
//! Reading files under `/sys` is left to the caller, which hands the library the
//! raw file contents; every decision taken on those contents is verified here.

pub mod text;
pub mod vendor;
pub mod linux_amd_gpu;
pub mod sensor;
pub mod nvml;
pub mod nvidia_gpu;
pub mod gpu;
pub mod windows_adapters;

pub use crate::gpu::{get_gpu_list, get_gpu_power_sensor, gpu_list_label, gpu_names, GPUSensor, SensorType};
pub use crate::linux_amd_gpu::{
    is_primary_drm_card, list_amd_gpus, normalize_hex_id, pick_power_reading, radv_architecture_name,
    read_marketing_name, DrmEntry, HwmonReadings, LinuxAmdGPUSensor, LinuxAmdGpuDevice,
};
pub use crate::nvidia_gpu::{NvidiaGPUSensor, NvidiaReading};
pub use crate::sensor::SensorError;
pub use crate::vendor::GPUVendor;
pub use crate::windows_adapters::{adapter_name, get_gpu_list_from_adapters};
