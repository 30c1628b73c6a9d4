//! The human-readable inspection report.

use vstd::prelude::*;

use super::cgroup::warning_views;
use super::cpuinfo::{string_views, CpuView};
use super::format::{bytes_text, format_bytes};
use super::inspect::{HostView, InspectionReport};
use super::quota::{quota_cpus_text, quota_text};
use super::sysfs::accelerator_views;
use super::{AcceleratorSnapshot, AcceleratorView, CpuSnapshot, MemorySnapshot, StorageSnapshot, StorageView};
use crate::text::{decimal, decimal_chars, push_chars, push_str};

verus! {

/// `s` followed by a line break.
pub open spec fn line(s: Seq<char>) -> Seq<char> {
    s + "\n"@
}

/// The items joined by `sep`.
pub open spec fn join(items: Seq<Seq<char>>, sep: Seq<char>) -> Seq<char>
    decreases items.len(),
{
    if items.len() == 0 {
        Seq::empty()
    } else if items.len() == 1 {
        items[0]
    } else {
        join(items.drop_last(), sep) + sep + items.last()
    }
}

/// A line `label n` when the count is known.
pub open spec fn count_line(label: Seq<char>, n: Option<nat>) -> Seq<char> {
    match n {
        Some(k) => line(label + decimal(k)),
        None => Seq::empty(),
    }
}

/// The quota line when the control group has a CPU quota: its share of CPUs
/// with two decimals.
pub open spec fn quota_line(q: Option<super::CpuQuota>) -> Seq<char> {
    match q {
        Some(q) => line("  Cgroup CPU quota: "@ + quota_text(q.quota, q.period) + " CPUs"@),
        None => Seq::empty(),
    }
}

/// The features line.
pub open spec fn features_line(features: Seq<Seq<char>>) -> Seq<char> {
    line(
        "  Inference features: "@ + if features.len() == 0 {
            "none detected"@
        } else {
            join(features, ", "@)
        },
    )
}

/// The CPU section.
pub open spec fn cpu_section(cpu: CpuView) -> Seq<char> {
    "\nCPU\n"@ + line("  Model: "@ + cpu.model) + line("  Logical CPUs: "@ + decimal(cpu.logical_cpus))
        + line("  Available parallelism: "@ + decimal(cpu.available_parallelism)) + count_line(
        "  Physical cores: "@,
        cpu.physical_cores,
    ) + quota_line(cpu.cgroup_quota) + count_line(
        "  NUMA nodes: "@,
        super::cpuinfo::opt_nat(cpu.numa_nodes),
    ) + features_line(cpu.features)
}

/// A line `label <bytes>`.
pub open spec fn bytes_line(label: Seq<char>, n: u64) -> Seq<char> {
    line(label + bytes_text(n))
}

/// A line `label <total> total, <available> available`.
pub open spec fn capacity_line(label: Seq<char>, total: u64, available: u64) -> Seq<char> {
    line(label + bytes_text(total) + " total, "@ + bytes_text(available) + " available"@)
}

/// The cgroup limit line when the limit is known.
pub open spec fn limit_line(l: Option<u64>) -> Seq<char> {
    match l {
        Some(v) => bytes_line("  Cgroup limit: "@, v),
        None => Seq::empty(),
    }
}

/// The memory section.
pub open spec fn memory_section(m: MemorySnapshot) -> Seq<char> {
    "\nMemory\n"@ + bytes_line("  Host total: "@, m.host_total_bytes) + bytes_line(
        "  Host available: "@,
        m.host_available_bytes,
    ) + bytes_line("  Effective total: "@, m.effective_total_bytes) + bytes_line(
        "  Effective available: "@,
        m.effective_available_bytes,
    ) + capacity_line("  Swap: "@, m.swap_total_bytes, m.swap_available_bytes) + limit_line(
        m.cgroup_limit_bytes,
    )
}

/// The memory of one accelerator, when known.
pub open spec fn accelerator_memory(t: Option<u64>) -> Seq<char> {
    match t {
        Some(v) => ": "@ + bytes_text(v) + " total"@,
        None => Seq::empty(),
    }
}

/// One accelerator line.
pub open spec fn accelerator_line(a: AcceleratorView) -> Seq<char> {
    line("  "@ + a.name + " ["@ + a.backend + "]"@ + accelerator_memory(a.memory_total_bytes))
}

/// The accelerator lines, in order.
pub open spec fn accelerator_lines(v: Seq<AcceleratorView>) -> Seq<char>
    decreases v.len(),
{
    if v.len() == 0 {
        Seq::empty()
    } else {
        accelerator_lines(v.drop_last()) + accelerator_line(v.last())
    }
}

/// The accelerators section.
pub open spec fn accelerator_section(v: Seq<AcceleratorView>) -> Seq<char> {
    "\nAccelerators\n"@ + if v.len() == 0 {
        line("  None detected through Linux DRM"@)
    } else {
        accelerator_lines(v)
    }
}

/// A line `label value` when the value is known.
pub open spec fn opt_text_line(label: Seq<char>, v: Option<Seq<char>>) -> Seq<char> {
    match v {
        Some(t) => line(label + t),
        None => Seq::empty(),
    }
}

/// The rotational line when it is known.
pub open spec fn rotational_line(r: Option<bool>) -> Seq<char> {
    match r {
        Some(b) => line(
            "  Rotational: "@ + if b {
                "yes"@
            } else {
                "no"@
            },
        ),
        None => Seq::empty(),
    }
}

/// The storage section.
pub open spec fn storage_section(s: StorageView) -> Seq<char> {
    "\nStorage\n"@ + line("  Path: "@ + s.path) + opt_text_line("  Filesystem: "@, s.filesystem)
        + opt_text_line("  Device: "@, s.device) + capacity_line(
        "  Capacity: "@,
        s.total_bytes,
        s.available_bytes,
    ) + rotational_line(s.rotational)
}

/// The warning lines, in order.
pub open spec fn warning_lines(ws: Seq<Seq<char>>) -> Seq<char>
    decreases ws.len(),
{
    if ws.len() == 0 {
        Seq::empty()
    } else {
        warning_lines(ws.drop_last()) + line("  - "@ + ws.last())
    }
}

/// The human-readable report: a header, then the CPU, memory, accelerator and
/// storage sections, then the warnings if there are any.
pub open spec fn human_report(schema: u16, host: HostView, warnings: Seq<Seq<char>>) -> Seq<char> {
    line("OptiMod host inspection (schema "@ + decimal(schema as nat) + ")"@) + line(
        "Operating system: "@ + host.operating_system,
    ) + line("Architecture: "@ + host.architecture) + cpu_section(host.cpu)
        + memory_section(host.memory) + accelerator_section(host.accelerators) + storage_section(
        host.storage,
    ) + if warnings.len() == 0 {
        Seq::empty()
    } else {
        "\nWarnings\n"@ + warning_lines(warnings)
    }
}

/// A line holding `label` and then `value`.
fn text_line(label: &str, value: &str) -> (s: String)
    ensures
        s@ == line(label@ + value@),
{
    let mut t = crate::text::owned(label);
    push_str(&mut t, value);
    push_str(&mut t, "\n");
    t
}

/// Appends a line holding `label` and the decimal text of `n`.
fn push_count_line(s: &mut String, label: &str, n: u64)
    ensures
        final(s)@ == old(s)@ + line(label@ + decimal(n as nat)),
{
    let mut t = crate::text::owned(label);
    let d = decimal_chars(n as u128);
    push_chars(&mut t, &d);
    push_str(&mut t, "\n");
    push_str(s, t.as_str());
}

/// Appends `count_line(label, n)`.
fn push_opt_count_line(s: &mut String, label: &str, n: Option<usize>)
    ensures
        final(s)@ == old(s)@ + count_line(label@, super::cpuinfo::opt_nat(n)),
{
    match n {
        Some(k) => push_count_line(s, label, k as u64),
        None => {
            assert(old(s)@ + Seq::<char>::empty() =~= old(s)@);
        },
    }
}

/// The features line (see `features_line`).
fn render_features(features: &Vec<String>) -> (t: String)
    ensures
        t@ == features_line(string_views(features@)),
{
    let mut t = crate::text::owned("  Inference features: ");
    let ghost fv = string_views(features@);
    if features.len() == 0 {
        push_str(&mut t, "none detected");
    } else {
        let mut list = String::new();
        let mut i: usize = 0;
        assert(join(fv.take(0), ", "@) =~= Seq::<char>::empty());
        while i < features.len()
            invariant
                i <= features.len(),
                fv == string_views(features@),
                list@ == join(fv.take(i as int), ", "@),
            decreases features.len() - i,
        {
            assert(fv.take(i + 1).drop_last() =~= fv.take(i as int));
            assert(fv.take(i + 1).last() == features@[i as int]@);
            if i > 0 {
                push_str(&mut list, ", ");
            } else {
                assert(fv.take(1) =~= seq![fv[0]]);
                assert(list@ + features@[0]@ =~= features@[0]@);
            }
            push_str(&mut list, features[i].as_str());
            i = i + 1;
        }
        assert(fv.take(features.len() as int) =~= fv);
        push_str(&mut t, list.as_str());
    }
    push_str(&mut t, "\n");
    t
}

/// Renders the CPU section (see `cpu_section`).
fn render_cpu(cpu: &CpuSnapshot) -> (s: String)
    ensures
        s@ == cpu_section(cpu@),
{
    let mut s = crate::text::owned("\nCPU\n");
    let l = text_line("  Model: ", cpu.model.as_str());
    push_str(&mut s, l.as_str());
    push_count_line(&mut s, "  Logical CPUs: ", cpu.logical_cpus as u64);
    push_count_line(&mut s, "  Available parallelism: ", cpu.available_parallelism as u64);
    push_opt_count_line(&mut s, "  Physical cores: ", cpu.physical_cores);
    match cpu.cgroup_quota {
        Some(q) => {
            let mut t = crate::text::owned("  Cgroup CPU quota: ");
            let cpus = quota_cpus_text(q.quota, q.period);
            push_str(&mut t, cpus.as_str());
            push_str(&mut t, " CPUs");
            push_str(&mut t, "\n");
            push_str(&mut s, t.as_str());
        },
        None => {
            assert(s@ + Seq::<char>::empty() =~= s@);
        },
    }
    push_opt_count_line(&mut s, "  NUMA nodes: ", cpu.numa_nodes);
    let f = render_features(&cpu.features);
    push_str(&mut s, f.as_str());
    s
}

/// Appends a line `label <bytes>`.
fn push_bytes_line(s: &mut String, label: &str, n: u64)
    ensures
        final(s)@ == old(s)@ + bytes_line(label@, n),
{
    let b = format_bytes(n);
    let t = text_line(label, b.as_str());
    push_str(s, t.as_str());
}

/// Appends a line `label <total> total, <available> available`.
fn push_capacity_line(s: &mut String, label: &str, total: u64, available: u64)
    ensures
        final(s)@ == old(s)@ + capacity_line(label@, total, available),
{
    let mut t = crate::text::owned(label);
    let a = format_bytes(total);
    push_str(&mut t, a.as_str());
    push_str(&mut t, " total, ");
    let b = format_bytes(available);
    push_str(&mut t, b.as_str());
    push_str(&mut t, " available");
    push_str(&mut t, "\n");
    push_str(s, t.as_str());
}

/// Renders the memory section (see `memory_section`).
fn render_memory(m: &MemorySnapshot) -> (s: String)
    ensures
        s@ == memory_section(*m),
{
    let mut s = crate::text::owned("\nMemory\n");
    push_bytes_line(&mut s, "  Host total: ", m.host_total_bytes);
    push_bytes_line(&mut s, "  Host available: ", m.host_available_bytes);
    push_bytes_line(&mut s, "  Effective total: ", m.effective_total_bytes);
    push_bytes_line(&mut s, "  Effective available: ", m.effective_available_bytes);
    push_capacity_line(&mut s, "  Swap: ", m.swap_total_bytes, m.swap_available_bytes);
    match m.cgroup_limit_bytes {
        Some(l) => push_bytes_line(&mut s, "  Cgroup limit: ", l),
        None => {
            assert(s@ + Seq::<char>::empty() =~= s@);
        },
    }
    s
}

/// Renders one accelerator line (see `accelerator_line`).
fn render_accelerator(a: &AcceleratorSnapshot) -> (t: String)
    ensures
        t@ == accelerator_line(a@),
{
    let mut t = crate::text::owned("  ");
    push_str(&mut t, a.name.as_str());
    push_str(&mut t, " [");
    push_str(&mut t, a.backend.as_str());
    push_str(&mut t, "]");
    let mut mem = String::new();
    match a.memory_total_bytes {
        Some(v) => {
            push_str(&mut mem, ": ");
            let b = format_bytes(v);
            push_str(&mut mem, b.as_str());
            push_str(&mut mem, " total");
            assert(mem@ =~= accelerator_memory(a.memory_total_bytes));
        },
        None => {
            assert(mem@ =~= accelerator_memory(a.memory_total_bytes));
        },
    }
    push_str(&mut t, mem.as_str());
    push_str(&mut t, "\n");
    t
}

/// Renders the accelerators section (see `accelerator_section`).
fn render_accelerators(v: &Vec<AcceleratorSnapshot>) -> (s: String)
    ensures
        s@ == accelerator_section(accelerator_views(v@)),
{
    let mut s = crate::text::owned("\nAccelerators\n");
    let ghost av = accelerator_views(v@);
    if v.len() == 0 {
        let mut t = crate::text::owned("  None detected through Linux DRM");
        push_str(&mut t, "\n");
        push_str(&mut s, t.as_str());
        return s;
    }
    let mut lines = String::new();
    let mut i: usize = 0;
    assert(av.take(0) =~= Seq::<AcceleratorView>::empty());
    while i < v.len()
        invariant
            i <= v.len(),
            av == accelerator_views(v@),
            lines@ == accelerator_lines(av.take(i as int)),
        decreases v.len() - i,
    {
        assert(av.take(i + 1).drop_last() =~= av.take(i as int));
        assert(av.take(i + 1).last() == v@[i as int]@);
        let l = render_accelerator(&v[i]);
        push_str(&mut lines, l.as_str());
        i = i + 1;
    }
    assert(av.take(v.len() as int) =~= av);
    push_str(&mut s, lines.as_str());
    s
}

/// Appends `opt_text_line(label, v)`.
fn push_opt_text_line(s: &mut String, label: &str, v: &Option<String>)
    ensures
        final(s)@ == old(s)@ + opt_text_line(label@, super::opt_view(*v)),
{
    match v {
        Some(t) => {
            let l = text_line(label, t.as_str());
            push_str(s, l.as_str());
        },
        None => {
            assert(old(s)@ + Seq::<char>::empty() =~= old(s)@);
        },
    }
}

/// Renders the storage section (see `storage_section`).
fn render_storage(st: &StorageSnapshot) -> (s: String)
    ensures
        s@ == storage_section(st@),
{
    let mut s = crate::text::owned("\nStorage\n");
    let l = text_line("  Path: ", st.path.as_str());
    push_str(&mut s, l.as_str());
    push_opt_text_line(&mut s, "  Filesystem: ", &st.filesystem);
    push_opt_text_line(&mut s, "  Device: ", &st.device);
    push_capacity_line(&mut s, "  Capacity: ", st.total_bytes, st.available_bytes);
    match st.rotational {
        Some(r) => {
            let l = text_line(
                "  Rotational: ",
                if r {
                    "yes"
                } else {
                    "no"
                },
            );
            push_str(&mut s, l.as_str());
        },
        None => {
            assert(s@ + Seq::<char>::empty() =~= s@);
        },
    }
    s
}

/// Renders the warning lines (see `warning_lines`).
fn render_warnings(ws: &Vec<String>) -> (s: String)
    ensures
        s@ == warning_lines(warning_views(ws@)),
{
    let ghost wv = warning_views(ws@);
    let mut s = String::new();
    let mut i: usize = 0;
    assert(wv.take(0) =~= Seq::<Seq<char>>::empty());
    while i < ws.len()
        invariant
            i <= ws.len(),
            wv == warning_views(ws@),
            s@ == warning_lines(wv.take(i as int)),
        decreases ws.len() - i,
    {
        assert(wv.take(i + 1).drop_last() =~= wv.take(i as int));
        assert(wv.take(i + 1).last() == ws@[i as int]@);
        let l = text_line("  - ", ws[i].as_str());
        push_str(&mut s, l.as_str());
        i = i + 1;
    }
    assert(wv.take(ws.len() as int) =~= wv);
    s
}

/// Renders an inspection report for people (see `human_report`).
pub fn render_human(report: &InspectionReport) -> (s: String)
    ensures
        s@ == human_report(report.schema_version, report.host@, warning_views(report.warnings@)),
{
    let host = &report.host;
    let mut s = crate::text::owned("OptiMod host inspection (schema ");
    push_chars(&mut s, &decimal_chars(report.schema_version as u128));
    push_str(&mut s, ")");
    push_str(&mut s, "\n");
    let l = text_line("Operating system: ", host.operating_system.as_str());
    push_str(&mut s, l.as_str());
    let l = text_line("Architecture: ", host.architecture.as_str());
    push_str(&mut s, l.as_str());
    let c = render_cpu(&host.cpu);
    push_str(&mut s, c.as_str());
    let m = render_memory(&host.memory);
    push_str(&mut s, m.as_str());
    let a = render_accelerators(&host.accelerators);
    push_str(&mut s, a.as_str());
    let t = render_storage(&host.storage);
    push_str(&mut s, t.as_str());
    let mut tail = String::new();
    if report.warnings.len() > 0 {
        push_str(&mut tail, "\nWarnings\n");
        let w = render_warnings(&report.warnings);
        push_str(&mut tail, w.as_str());
        assert(tail@ =~= "\nWarnings\n"@ + warning_lines(warning_views(report.warnings@)));
    } else {
        assert(tail@ =~= Seq::<char>::empty());
    }
    push_str(&mut s, tail.as_str());
    s
}

} // verus!
