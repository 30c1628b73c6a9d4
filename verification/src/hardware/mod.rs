//! Host resource snapshot types and the Linux inspection logic.

use vstd::prelude::*;

pub mod keyvalue;
pub mod laws;
pub mod cgroup;
pub mod cpuinfo;
pub mod drm;
pub mod format;
pub mod inspect;
pub mod meminfo;
pub mod mountinfo;
pub mod os_release;
pub mod path;
pub mod quota;
pub mod render;
pub mod storage;
pub mod sysfs;

verus! {

/// A snapshot of the host's resources.
#[derive(Debug, Clone, PartialEq, Eq)]
pub struct HostSnapshot {
    pub operating_system: String,
    pub architecture: String,
    pub cpu: CpuSnapshot,
    pub memory: MemorySnapshot,
    pub accelerators: Vec<AcceleratorSnapshot>,
    pub storage: StorageSnapshot,
}

/// A CPU quota of a control group: `quota` microseconds of CPU time per
/// `period` microseconds, that is `quota / period` CPUs.
#[derive(Debug, Clone, Copy, PartialEq, Eq)]
pub struct CpuQuota {
    pub quota: u64,
    pub period: u64,
}

/// Visible CPU topology and inference-relevant instruction features.
#[derive(Debug, Clone, PartialEq, Eq)]
pub struct CpuSnapshot {
    pub model: String,
    pub physical_cores: Option<usize>,
    pub logical_cpus: usize,
    pub available_parallelism: usize,
    pub cgroup_quota: Option<CpuQuota>,
    pub features: Vec<String>,
    pub numa_nodes: Option<usize>,
}

/// Host memory and swap, with the effective amounts under a control group limit.
#[derive(Debug, Clone, Copy, PartialEq, Eq)]
pub struct MemorySnapshot {
    pub host_total_bytes: u64,
    pub host_available_bytes: u64,
    pub effective_total_bytes: u64,
    pub effective_available_bytes: u64,
    pub swap_total_bytes: u64,
    pub swap_available_bytes: u64,
    pub cgroup_limit_bytes: Option<u64>,
    pub cgroup_used_bytes: Option<u64>,
}

/// An accelerator of a known GPU vendor exposed through DRM.
#[derive(Debug, Clone, PartialEq, Eq)]
pub struct AcceleratorSnapshot {
    pub backend: String,
    pub name: String,
    pub vendor_id: Option<String>,
    pub device_id: Option<String>,
    pub memory_total_bytes: Option<u64>,
    pub memory_available_bytes: Option<u64>,
}

/// The filesystem that holds a selected path.
#[derive(Debug, Clone, PartialEq, Eq)]
pub struct StorageSnapshot {
    pub path: String,
    pub filesystem: Option<String>,
    pub device: Option<String>,
    pub total_bytes: u64,
    pub available_bytes: u64,
    pub rotational: Option<bool>,
}

/// Memory limit and usage of the current control group.
#[derive(Debug, Clone, Copy, PartialEq, Eq)]
pub struct CgroupMemory {
    pub limit_bytes: u64,
    pub used_bytes: u64,
}

/// The text that an optional string holds.
pub open spec fn opt_view(o: Option<String>) -> Option<Seq<char>> {
    match o {
        Some(s) => Some(s@),
        None => None,
    }
}

/// What an accelerator snapshot holds, with its texts as character sequences.
pub struct AcceleratorView {
    pub backend: Seq<char>,
    pub name: Seq<char>,
    pub vendor_id: Option<Seq<char>>,
    pub device_id: Option<Seq<char>>,
    pub memory_total_bytes: Option<u64>,
    pub memory_available_bytes: Option<u64>,
}

impl View for AcceleratorSnapshot {
    type V = AcceleratorView;

    open spec fn view(&self) -> AcceleratorView {
        AcceleratorView {
            backend: self.backend@,
            name: self.name@,
            vendor_id: opt_view(self.vendor_id),
            device_id: opt_view(self.device_id),
            memory_total_bytes: self.memory_total_bytes,
            memory_available_bytes: self.memory_available_bytes,
        }
    }
}

/// What a storage snapshot holds, with its texts as character sequences.
pub struct StorageView {
    pub path: Seq<char>,
    pub filesystem: Option<Seq<char>>,
    pub device: Option<Seq<char>>,
    pub total_bytes: u64,
    pub available_bytes: u64,
    pub rotational: Option<bool>,
}

impl View for StorageSnapshot {
    type V = StorageView;

    open spec fn view(&self) -> StorageView {
        StorageView {
            path: self.path@,
            filesystem: opt_view(self.filesystem),
            device: opt_view(self.device),
            total_bytes: self.total_bytes,
            available_bytes: self.available_bytes,
            rotational: self.rotational,
        }
    }
}

} // verus!
