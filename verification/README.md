# gpu_sensors

GPU power-sensor logic for a Linux power monitor, verified with Verus.

- `src/text.rs`: the string operations the sensors need (trimming, ASCII case,
  searching, decimal formatting, ordering, joining), each with its contract.
- `src/vendor.rs`: vendor detection from a name string.
- `src/linux_amd_gpu.rs`: AMD GPUs through the `amdgpu` DRM sysfs interface:
  which entries are AMD GPUs, their display names, the listing order, the choice
  of the power reading.
- `src/nvml.rs`, `src/nvidia_gpu.rs`: NVIDIA GPUs through NVML (`nvml-wrapper`).
- `src/gpu.rs`: the GPU sensor, the GPU list and the sensor factory.
- `src/windows_adapters.rs`: the GPU list from DXGI adapter descriptions.
- `app/`: the file reading under `/sys` and the floating-point readings.

The sensors target Linux. The Windows-only sensors (AMD through ADLX, Intel
through the PDH performance counters) and the DXGI adapter enumeration are not
part of this crate; of the Windows path only the adapter-name filtering
(`windows_adapters.rs`) is here.
