//! The host inspection report, assembled from what the host's files say.

use vstd::prelude::*;

use super::cgroup::{
    file_view, memory_files_view, memory_outcome, quota_outcome, read_cgroup_cpu_quota,
    read_cgroup_memory, warn, warning_views, CgroupFile, CgroupMemoryFiles, FileRead,
};
use super::cpuinfo::{cpuinfo, parse_cpuinfo, CpuView};
use super::meminfo::{meminfo, parse_meminfo};
use super::os_release::{os_name, parse_os_release};
use super::sysfs::{
    accelerator_views, accelerators_outcome, discover_accelerators, parallelism,
    parallelism_or_one, probe_view, DrmListing,
};
use super::{
    AcceleratorSnapshot, AcceleratorView, HostSnapshot, MemorySnapshot, StorageSnapshot,
    StorageView,
};
use crate::text::{owned, push_str};

verus! {

/// The version of the inspection report's schema.
pub const INSPECTION_SCHEMA_VERSION: u16 = 1;

/// Why host inspection failed.
#[derive(Debug, Clone, PartialEq, Eq)]
pub enum InspectionError {
    /// A required file or path could not be read or resolved.
    Io { action: String, path: String, detail: String },
    /// A required file did not say what it must.
    Invalid { subject: String, detail: String },
}

/// An inspection error with its texts as character sequences.
pub enum InspectionErrorView {
    Io { action: Seq<char>, path: Seq<char>, detail: Seq<char> },
    Invalid { subject: Seq<char>, detail: Seq<char> },
}

impl View for InspectionError {
    type V = InspectionErrorView;

    open spec fn view(&self) -> InspectionErrorView {
        match self {
            InspectionError::Io { action, path, detail } => InspectionErrorView::Io {
                action: action@,
                path: path@,
                detail: detail@,
            },
            InspectionError::Invalid { subject, detail } => InspectionErrorView::Invalid {
                subject: subject@,
                detail: detail@,
            },
        }
    }
}

/// The message of an inspection error.
pub open spec fn error_text(e: InspectionErrorView) -> Seq<char> {
    match e {
        InspectionErrorView::Io { action, path, detail } => "could not "@ + action + " "@ + path
            + ": "@ + detail,
        InspectionErrorView::Invalid { subject, detail } => "invalid "@ + subject + ": "@ + detail,
    }
}

impl InspectionError {
    /// An error reading or resolving `path`.
    pub fn io(action: &str, path: &str, detail: String) -> (e: InspectionError)
        ensures
            e@ == (InspectionErrorView::Io { action: action@, path: path@, detail: detail@ }),
    {
        InspectionError::Io { action: owned(action), path: owned(path), detail }
    }

    /// An error in the content of `subject`.
    pub fn invalid(subject: &str, detail: String) -> (e: InspectionError)
        ensures
            e@ == (InspectionErrorView::Invalid { subject: subject@, detail: detail@ }),
    {
        InspectionError::Invalid { subject: owned(subject), detail }
    }

    /// The error's message.
    pub fn message(&self) -> (s: String)
        ensures
            s@ == error_text(self@),
    {
        match self {
            InspectionError::Io { action, path, detail } => {
                let mut s = owned("could not ");
                push_str(&mut s, action.as_str());
                push_str(&mut s, " ");
                push_str(&mut s, path.as_str());
                push_str(&mut s, ": ");
                push_str(&mut s, detail.as_str());
                s
            },
            InspectionError::Invalid { subject, detail } => {
                let mut s = owned("invalid ");
                push_str(&mut s, subject.as_str());
                push_str(&mut s, ": ");
                push_str(&mut s, detail.as_str());
                s
            },
        }
    }
}

/// A read-only inspection of the host.
#[derive(Debug, Clone, PartialEq, Eq)]
pub struct InspectionReport {
    pub schema_version: u16,
    pub host: HostSnapshot,
    pub warnings: Vec<String>,
}

/// What a host snapshot holds, with its texts as character sequences.
pub struct HostView {
    pub operating_system: Seq<char>,
    pub architecture: Seq<char>,
    pub cpu: CpuView,
    pub memory: MemorySnapshot,
    pub accelerators: Seq<AcceleratorView>,
    pub storage: StorageView,
}

impl View for HostSnapshot {
    type V = HostView;

    open spec fn view(&self) -> HostView {
        HostView {
            operating_system: self.operating_system@,
            architecture: self.architecture@,
            cpu: self.cpu@,
            memory: self.memory,
            accelerators: accelerator_views(self.accelerators@),
            storage: self.storage@,
        }
    }
}

/// The storage of the inspected path, with the warnings its inspection gave.
#[derive(Debug, Clone, PartialEq, Eq)]
pub struct StorageProbe {
    pub snapshot: StorageSnapshot,
    pub warnings: Vec<String>,
}

/// Everything that inspection reads from the host, as it was read.
#[derive(Debug)]
pub struct HostInputs {
    /// `/etc/os-release`.
    pub os_release: FileRead,
    /// `cpu.max` of the control group, when there is a control group directory.
    pub cgroup_cpu: Option<CgroupFile>,
    /// `memory.max` and `memory.current`, when there is a control group directory.
    pub cgroup_memory: Option<CgroupMemoryFiles>,
    /// `/proc/cpuinfo`, or the error that reading it gave.
    pub cpuinfo: Result<String, String>,
    /// The available parallelism, or the error that asking for it gave.
    pub parallelism: Result<usize, String>,
    /// The number of NUMA nodes, when known.
    pub numa_nodes: Option<usize>,
    /// `/proc/meminfo`, or the error that reading it gave.
    pub meminfo: Result<String, String>,
    /// The listing of `/sys/class/drm`.
    pub drm: DrmListing,
    /// The inspected path's storage, or why it could not be inspected.
    pub storage: Result<StorageProbe, InspectionError>,
    /// The processor architecture.
    pub architecture: String,
}

/// The operating system's name and the warnings: the os-release name, or
/// `Linux` with a warning when the file is unreadable, missing or names none.
pub open spec fn os_outcome(read: FileRead) -> (Seq<char>, Seq<Seq<char>>) {
    match read {
        FileRead::Text(t) => match os_name(t@) {
            Some(n) => (n, Seq::empty()),
            None => ("Linux"@, seq!["/etc/os-release has no NAME or PRETTY_NAME"@]),
        },
        FileRead::Missing => ("Linux"@, seq!["/etc/os-release is unavailable"@]),
        FileRead::Failed(e) => ("Linux"@, seq!["could not read /etc/os-release: "@ + e@]),
    }
}

/// Decides the operating system's name (see `os_outcome`).
pub fn operating_system_name(read: &FileRead, warnings: &mut Vec<String>) -> (r: String)
    ensures
        r@ == os_outcome(*read).0,
        warning_views(final(warnings)@) == warning_views(old(warnings)@) + os_outcome(*read).1,
{
    let ghost before = warning_views(warnings@);
    let (name, w) = match read {
        FileRead::Text(t) => match parse_os_release(t.as_str()) {
            Some(n) => (n, None),
            None => (owned("Linux"), Some(owned("/etc/os-release has no NAME or PRETTY_NAME"))),
        },
        FileRead::Missing => (owned("Linux"), Some(owned("/etc/os-release is unavailable"))),
        FileRead::Failed(e) => {
            let mut w = owned("could not read /etc/os-release: ");
            push_str(&mut w, e.as_str());
            (owned("Linux"), Some(w))
        },
    };
    match w {
        Some(w) => {
            let ghost wv = w@;
            warn(warnings, w);
            assert(before.push(wv) =~= before + seq![wv]);
        },
        None => {
            assert(before + Seq::<Seq<char>>::empty() =~= before);
        },
    }
    name
}

/// The text of a read result.
pub open spec fn read_view(r: Result<String, String>) -> Result<Seq<char>, Seq<char>> {
    match r {
        Ok(s) => Ok(s@),
        Err(e) => Err(e@),
    }
}

/// The view of a storage probe result.
pub open spec fn storage_view(r: Result<StorageProbe, InspectionError>) -> Result<(StorageView, Seq<Seq<char>>), InspectionErrorView> {
    match r {
        Ok(p) => Ok((p.snapshot@, warning_views(p.warnings@))),
        Err(e) => Err(e@),
    }
}

/// Why inspection fails, if it does: the first of an unreadable or invalid
/// `/proc/cpuinfo`, an unreadable or invalid `/proc/meminfo`, and storage that
/// could not be inspected.
pub open spec fn inspection_error(i: HostInputs) -> Option<InspectionErrorView> {
    let quota = quota_outcome(file_view(i.cgroup_cpu)).0;
    let cgroup = memory_outcome(memory_files_view(i.cgroup_memory)).0;
    let par = parallelism(probe_view(i.parallelism)).0;
    match read_view(i.cpuinfo) {
        Err(e) => Some(
            InspectionErrorView::Io { action: "read"@, path: "/proc/cpuinfo"@, detail: e },
        ),
        Ok(c) => match cpuinfo(c, par, quota, i.numa_nodes) {
            Err(d) => Some(InspectionErrorView::Invalid { subject: "/proc/cpuinfo"@, detail: d }),
            Ok(_) => match read_view(i.meminfo) {
                Err(e) => Some(
                    InspectionErrorView::Io { action: "read"@, path: "/proc/meminfo"@, detail: e },
                ),
                Ok(m) => match meminfo(m, cgroup) {
                    Err(d) => Some(
                        InspectionErrorView::Invalid { subject: "/proc/meminfo"@, detail: d },
                    ),
                    Ok(_) => match storage_view(i.storage) {
                        Err(e) => Some(e),
                        Ok(_) => None,
                    },
                },
            },
        },
    }
}

/// The host that a successful inspection reports.
pub open spec fn inspected_host(i: HostInputs) -> HostView {
    let quota = quota_outcome(file_view(i.cgroup_cpu)).0;
    let cgroup = memory_outcome(memory_files_view(i.cgroup_memory)).0;
    let par = parallelism(probe_view(i.parallelism)).0;
    HostView {
        operating_system: os_outcome(i.os_release).0,
        architecture: i.architecture@,
        cpu: cpuinfo(read_view(i.cpuinfo)->Ok_0, par, quota, i.numa_nodes)->Ok_0,
        memory: meminfo(read_view(i.meminfo)->Ok_0, cgroup)->Ok_0,
        accelerators: accelerators_outcome(i.drm).0,
        storage: storage_view(i.storage)->Ok_0.0,
    }
}

/// The warnings of a successful inspection, in the order the checks run:
/// os-release, CPU quota, memory limit, parallelism, accelerators, storage.
pub open spec fn inspection_warnings(i: HostInputs) -> Seq<Seq<char>> {
    os_outcome(i.os_release).1 + quota_outcome(file_view(i.cgroup_cpu)).1 + memory_outcome(
        memory_files_view(i.cgroup_memory),
    ).1 + parallelism(probe_view(i.parallelism)).1 + accelerators_outcome(i.drm).1 + storage_view(
        i.storage,
    )->Ok_0.1
}

/// Assembles the inspection report from what was read (see
/// `inspection_error`, `inspected_host` and `inspection_warnings`).
pub fn inspect(inputs: HostInputs) -> (r: Result<InspectionReport, InspectionError>)
    ensures
        match r {
            Err(e) => inspection_error(inputs) == Some(e@),
            Ok(rep) => {
                &&& inspection_error(inputs) is None
                &&& rep.schema_version == INSPECTION_SCHEMA_VERSION
                &&& rep.host@ == inspected_host(inputs)
                &&& warning_views(rep.warnings@) == inspection_warnings(inputs)
            },
        },
{
    let ghost i = inputs;
    let HostInputs {
        os_release,
        cgroup_cpu,
        cgroup_memory,
        cpuinfo: cpuinfo_read,
        parallelism: parallelism_probe,
        numa_nodes,
        meminfo: meminfo_read,
        drm,
        storage,
        architecture,
    } = inputs;
    let mut warnings: Vec<String> = Vec::new();
    assert(warning_views(warnings@) =~= Seq::<Seq<char>>::empty());
    let operating_system = operating_system_name(&os_release, &mut warnings);
    let quota = read_cgroup_cpu_quota(cgroup_cpu, &mut warnings);
    let cgroup = read_cgroup_memory(cgroup_memory, &mut warnings);
    let cpu_text = match cpuinfo_read {
        Ok(t) => t,
        Err(e) => {
            return Err(InspectionError::io("read", "/proc/cpuinfo", e));
        },
    };
    let par = parallelism_or_one(parallelism_probe, &mut warnings);
    let cpu = match parse_cpuinfo(cpu_text.as_str(), par, quota, numa_nodes) {
        Ok(c) => c,
        Err(d) => {
            return Err(InspectionError::invalid("/proc/cpuinfo", d));
        },
    };
    let mem_text = match meminfo_read {
        Ok(t) => t,
        Err(e) => {
            return Err(InspectionError::io("read", "/proc/meminfo", e));
        },
    };
    let memory = match parse_meminfo(mem_text.as_str(), cgroup) {
        Ok(m) => m,
        Err(d) => {
            return Err(InspectionError::invalid("/proc/meminfo", d));
        },
    };
    let accelerators = discover_accelerators(drm, &mut warnings);
    let probe = match storage {
        Ok(p) => p,
        Err(e) => {
            return Err(e);
        },
    };
    let StorageProbe { snapshot, warnings: storage_warnings } = probe;
    let ghost before = warning_views(warnings@);
    let mut k: usize = 0;
    while k < storage_warnings.len()
        invariant
            k <= storage_warnings.len(),
            warning_views(warnings@) == before + warning_views(storage_warnings@).take(k as int),
        decreases storage_warnings.len() - k,
    {
        let w = storage_warnings[k].clone();
        warn(&mut warnings, w);
        assert(warning_views(storage_warnings@).take(k + 1) =~= warning_views(storage_warnings@).take(
            k as int,
        ).push(storage_warnings@[k as int]@));
        assert(warning_views(warnings@) =~= before + warning_views(storage_warnings@).take(k + 1));
        k = k + 1;
    }
    assert(warning_views(storage_warnings@).take(storage_warnings.len() as int) =~= warning_views(
        storage_warnings@,
    ));
    let host = HostSnapshot {
        operating_system,
        architecture,
        cpu,
        memory,
        accelerators,
        storage: snapshot,
    };
    Ok(InspectionReport { schema_version: INSPECTION_SCHEMA_VERSION, host, warnings })
}

} // verus!
