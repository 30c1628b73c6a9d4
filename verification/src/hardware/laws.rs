//! Properties that hold of every inspection, whatever the host reports.

use vstd::prelude::*;

use super::cgroup::{cpu_quota, memory_files_view, memory_outcome};
use super::cpuinfo::{cpuinfo, known_features, member_of, scan_blocks, CpuScan};
use super::drm::{backend_of, drm_accelerator};
use super::sysfs::{accelerators_outcome, drm_outcome, DrmEntry, DrmListing};
use super::format::{as_double, pow1024, unit_from};
use super::meminfo::meminfo;
use super::mountinfo::{deepest_mount, mount_entry};
use super::path::{components, path_starts_with};
use super::{CgroupMemory, CpuQuota};
use super::inspect::{inspected_host, inspection_error, HostInputs, HostView};
use super::keyvalue::{fields_of, non_empty};
use super::format::bytes_text;
use super::sysfs::{indexed_name, text_of};
use super::render::{
    accelerator_section, cpu_section, human_report, line, memory_section, storage_section,
};
use crate::text::{blocks, holds_text, lowercase, trim};

verus! {

/// A device whose PCI vendor is not NVIDIA, AMD or Intel is never reported as
/// an inference accelerator, whatever else its DRM metadata says.
pub proof fn lemma_unknown_vendor_is_no_accelerator(
    vendor: Seq<char>,
    device: Seq<char>,
    uevent: Seq<char>,
    memory_total: Option<Seq<char>>,
    memory_used: Option<Seq<char>>,
)
    requires
        backend_of(lowercase(trim(vendor))) is None,
    ensures
        !(drm_accelerator(vendor, device, uevent, memory_total, memory_used) matches Ok(Some(_))),
{
}

/// Available VRAM is reported only when both total and used VRAM are known,
/// and it never exceeds the total.
pub proof fn lemma_vram_available_not_invented(
    vendor: Seq<char>,
    device: Seq<char>,
    uevent: Seq<char>,
    memory_total: Option<Seq<char>>,
    memory_used: Option<Seq<char>>,
)
    ensures
        drm_accelerator(vendor, device, uevent, memory_total, memory_used) matches Ok(Some(a)) ==> {
            &&& (a.memory_available_bytes is Some <==> (memory_total is Some && memory_used is Some))
            &&& (a.memory_total_bytes is Some <==> memory_total is Some)
            &&& (a.memory_available_bytes matches Some(v) ==> a.memory_total_bytes matches Some(
                t,
            ) && v <= t)
        },
{
}

/// Effective memory never exceeds what the host has; under a control group it
/// also stays within the group's limit and its remaining room, and without
/// one it is the host's memory.
pub proof fn lemma_effective_memory_within_limits(input: Seq<char>, cgroup: Option<CgroupMemory>)
    ensures
        meminfo(input, cgroup) matches Ok(m) ==> {
            &&& m.effective_total_bytes <= m.host_total_bytes
            &&& m.effective_available_bytes <= m.host_available_bytes
            &&& match cgroup {
                Some(g) => {
                    &&& m.effective_total_bytes <= g.limit_bytes
                    &&& m.effective_available_bytes + g.used_bytes <= g.limit_bytes
                        || m.effective_available_bytes == 0
                    &&& m.cgroup_limit_bytes == Some(g.limit_bytes)
                    &&& m.cgroup_used_bytes == Some(g.used_bytes)
                },
                None => {
                    &&& m.effective_total_bytes == m.host_total_bytes
                    &&& m.effective_available_bytes == m.host_available_bytes
                    &&& m.cgroup_limit_bytes is None
                },
            }
        },
{
}

/// The mount chosen for a path holds the path, comes from one of the lines, and
/// no other line describes a deeper mount that holds the path; when none is
/// chosen, no line describes a mount that holds it.
pub proof fn lemma_deepest_mount_holds_path(path: Seq<char>, ls: Seq<Seq<char>>)
    ensures
        match deepest_mount(path, ls) {
            Some(m) => {
                &&& path_starts_with(path, m.mount_point)
                &&& exists|j: int| 0 <= j < ls.len() && mount_entry(path, ls[j]) == Some(m)
                &&& forall|j: int|
                    0 <= j < ls.len() && (#[trigger] mount_entry(path, ls[j])) is Some ==> components(
                        mount_entry(path, ls[j])->0.mount_point,
                    ).len() <= components(m.mount_point).len()
            },
            None => forall|j: int| 0 <= j < ls.len() ==> (#[trigger] mount_entry(path, ls[j])) is None,
        },
    decreases ls.len(),
{
    if ls.len() > 0 {
        let prev = ls.drop_last();
        lemma_deepest_mount_holds_path(path, prev);
        assert forall|j: int| 0 <= j < prev.len() implies prev[j] == ls[j] by {}
        match deepest_mount(path, prev) {
            Some(b) => {
                let j0 = choose|j: int| 0 <= j < prev.len() && mount_entry(path, prev[j]) == Some(b);
                assert(ls[j0] == prev[j0]);
            },
            None => {},
        }
        assert(ls[ls.len() - 1] == ls.last());
    }
}

/// A CPU snapshot always counts at least one logical CPU and keeps the
/// parallelism it was given.
pub proof fn lemma_cpu_counts_positive(
    input: Seq<char>,
    available_parallelism: usize,
    quota: Option<CpuQuota>,
    numa_nodes: Option<usize>,
)
    ensures
        cpuinfo(input, available_parallelism, quota, numa_nodes) matches Ok(c) ==> {
            &&& c.logical_cpus >= 1
            &&& c.available_parallelism == available_parallelism
            &&& c.cgroup_quota == quota
            &&& c.numa_nodes == numa_nodes
            &&& c.physical_cores matches Some(n) ==> n >= 1
        },
{
}

/// A CPU quota that `cpu.max` sets is a positive share of a positive period.
pub proof fn lemma_quota_positive(input: Seq<char>)
    ensures
        cpu_quota(input) matches Ok(Some(q)) ==> q.quota > 0 && q.period > 0,
{
}

/// A byte count of at least 1 KiB is shown in the largest binary unit, up to
/// PiB, that keeps its value at least 1: the unit's size is at most the value,
/// and the next unit's size is larger unless the unit is PiB.
pub proof fn lemma_unit_fits_value(x: nat)
    requires
        x >= 1024,
    ensures
        1 <= unit_from(x, 0) <= 5,
        pow1024(unit_from(x, 0)) <= x,
        unit_from(x, 0) < 5 ==> x < pow1024(unit_from(x, 0) + 1),
{
    assert(pow1024(1) == 1024) by {
        reveal_with_fuel(pow1024, 2);
    }
    lemma_unit_from(x, 1);
}

/// `unit_from` searching upwards from `k` stops at the largest fitting unit.
proof fn lemma_unit_from(x: nat, k: nat)
    requires
        1 <= k <= 5,
        pow1024(k) <= x,
    ensures
        unit_from(x, 0) == unit_from(x, k) || k > 1,
        k <= unit_from(x, k) <= 5,
        pow1024(unit_from(x, k)) <= x,
        unit_from(x, k) < 5 ==> x < pow1024(unit_from(x, k) + 1),
    decreases 5 - k,
{
    if k < 5 && x >= pow1024(k + 1) {
        lemma_unit_from(x, k + 1);
    }
}

/// Texts in lexicographic order of their characters' code points (the order of
/// their UTF-8 bytes): `a` comes strictly before `b`.
pub open spec fn text_lt(a: Seq<char>, b: Seq<char>) -> bool
    decreases a.len(),
{
    if a.len() == 0 {
        b.len() > 0
    } else if b.len() == 0 {
        false
    } else if a[0] != b[0] {
        (a[0] as u32) < (b[0] as u32)
    } else {
        text_lt(a.drop_first(), b.drop_first())
    }
}

/// Each text comes strictly before every later one: sorted, without repeats.
pub open spec fn strictly_ascending(s: Seq<Seq<char>>) -> bool {
    forall|i: int, j: int| 0 <= i < j < s.len() ==> text_lt(#[trigger] s[i], #[trigger] s[j])
}

/// The order of texts is transitive.
proof fn lemma_text_lt_transitive(a: Seq<char>, b: Seq<char>, c: Seq<char>)
    requires
        text_lt(a, b),
        text_lt(b, c),
    ensures
        text_lt(a, c),
    decreases a.len(),
{
    if a.len() > 0 && b.len() > 0 && c.len() > 0 && a[0] == b[0] && b[0] == c[0] {
        lemma_text_lt_transitive(a.drop_first(), b.drop_first(), c.drop_first());
    }
}

/// A sequence whose neighbours are in order is strictly ascending.
proof fn lemma_neighbours_ascending(s: Seq<Seq<char>>)
    requires
        forall|i: int| 0 <= i < s.len() - 1 ==> text_lt(#[trigger] s[i], s[i + 1]),
    ensures
        strictly_ascending(s),
    decreases s.len(),
{
    if s.len() > 0 {
        let t = s.drop_last();
        assert forall|i: int| 0 <= i < t.len() - 1 implies text_lt(#[trigger] t[i], t[i + 1]) by {
            assert(t[i] == s[i] && t[i + 1] == s[i + 1]);
        }
        lemma_neighbours_ascending(t);
        assert forall|i: int, j: int| 0 <= i < j < s.len() implies text_lt(
            #[trigger] s[i],
            #[trigger] s[j],
        ) by {
            if j < s.len() - 1 {
                assert(t[i] == s[i] && t[j] == s[j]);
            } else if i < j - 1 {
                assert(t[i] == s[i] && t[j - 1] == s[j - 1]);
                assert(text_lt(s[j - 1], s[j]));
                lemma_text_lt_transitive(s[i], s[j - 1], s[j]);
            }
        }
    }
}

/// The known features are listed in ascending order.
proof fn lemma_known_features_ascending()
    ensures
        strictly_ascending(known_features()),
{
    reveal_strlit("amx_bf16");
    reveal_strlit("amx_int8");
    reveal_strlit("asimd");
    reveal_strlit("avx");
    reveal_strlit("avx2");
    reveal_strlit("avx512_vnni");
    reveal_strlit("avx512f");
    reveal_strlit("avx_vnni");
    reveal_strlit("bf16");
    reveal_strlit("dotprod");
    reveal_strlit("f16c");
    reveal_strlit("fma");
    reveal_strlit("i8mm");
    reveal_strlit("neon");
    reveal_strlit("sse4_2");
    reveal_strlit("sve");
    reveal_strlit("sve2");
    let k = known_features();
    reveal_with_fuel(text_lt, 8);
    assert(text_lt(k[0], k[1]));
    assert(text_lt(k[1], k[2]));
    assert(text_lt(k[2], k[3]));
    assert(text_lt(k[3], k[4]));
    assert(text_lt(k[4], k[5]));
    assert(text_lt(k[5], k[6]));
    assert(text_lt(k[6], k[7]));
    assert(text_lt(k[7], k[8]));
    assert(text_lt(k[8], k[9]));
    assert(text_lt(k[9], k[10]));
    assert(text_lt(k[10], k[11]));
    assert(text_lt(k[11], k[12]));
    assert(text_lt(k[12], k[13]));
    assert(text_lt(k[13], k[14]));
    assert(text_lt(k[14], k[15]));
    assert(text_lt(k[15], k[16]));
    lemma_neighbours_ascending(k);
}

/// Keeping some texts of a strictly ascending sequence keeps it strictly ascending.
proof fn lemma_filter_ascending(s: Seq<Seq<char>>, p: spec_fn(Seq<char>) -> bool)
    requires
        strictly_ascending(s),
    ensures
        strictly_ascending(s.filter(p)),
    decreases s.len(),
{
    reveal_with_fuel(Seq::<_>::filter, 1);
    if s.len() > 0 {
        let t = s.drop_last();
        assert forall|i: int, j: int| 0 <= i < j < t.len() implies text_lt(
            #[trigger] t[i],
            #[trigger] t[j],
        ) by {
            assert(t[i] == s[i] && t[j] == s[j]);
        }
        lemma_filter_ascending(t, p);
        let f = t.filter(p);
        if p(s.last()) {
            assert forall|i: int| 0 <= i < f.len() implies text_lt(#[trigger] f[i], s.last()) by {
                assert(f.contains(f[i]));
                t.lemma_filter_contains_rev(p, f[i]);
                let k = choose|k: int| 0 <= k < t.len() && t[k] == f[i];
                assert(s[k] == t[k]);
            }
            let g = f.push(s.last());
            assert forall|i: int, j: int| 0 <= i < j < g.len() implies text_lt(
                #[trigger] g[i],
                #[trigger] g[j],
            ) by {
                assert(g[i] == f[i]);
                if j < f.len() {
                    assert(g[j] == f[j]);
                }
            }
        }
    }
}

/// The features of a CPU snapshot are among the known inference features (as
/// they are written there, in lower case), sorted and without repeats.
pub proof fn lemma_features_sorted_and_distinct(
    input: Seq<char>,
    available_parallelism: usize,
    quota: Option<CpuQuota>,
    numa_nodes: Option<usize>,
)
    ensures
        cpuinfo(input, available_parallelism, quota, numa_nodes) matches Ok(c) ==> {
            &&& strictly_ascending(c.features)
            &&& forall|i: int| 0 <= i < c.features.len() ==> known_features().contains(
                #[trigger] c.features[i],
            )
        },
{
    match cpuinfo(input, available_parallelism, quota, numa_nodes) {
        Ok(c) => {
            let p = member_of(scan_blocks(blocks(input)).features);
            lemma_known_features_ascending();
            lemma_filter_ascending(known_features(), p);
            assert forall|i: int| 0 <= i < c.features.len() implies known_features().contains(
                #[trigger] c.features[i],
            ) by {
                assert(c.features.contains(c.features[i]));
                known_features().lemma_filter_contains_rev(p, c.features[i]);
            }
        },
        Err(_) => {},
    }
}

/// Whether a backend is one of the three GPU vendors that count as accelerators.
pub open spec fn known_backend(backend: Seq<char>) -> bool {
    backend == "nvidia"@ || backend == "amd"@ || backend == "intel"@
}

/// Only GPUs of NVIDIA, AMD and Intel are ever reported as accelerators: a
/// display-only device of another vendor never appears, whatever DRM lists.
pub proof fn lemma_accelerators_have_known_backends(listing: DrmListing)
    ensures
        forall|i: int|
            0 <= i < accelerators_outcome(listing).0.len() ==> known_backend(
                (#[trigger] accelerators_outcome(listing).0[i]).backend,
            ),
{
    if let DrmListing::Entries(es) = listing {
        lemma_drm_backends(es@);
    }
}

/// Each accelerator that DRM entries give has a known backend.
proof fn lemma_drm_backends(es: Seq<DrmEntry>)
    ensures
        forall|i: int|
            0 <= i < drm_outcome(es).0.len() ==> known_backend(
                (#[trigger] drm_outcome(es).0[i]).backend,
            ),
    decreases es.len(),
{
    if es.len() > 0 {
        lemma_drm_backends(es.drop_last());
        let prev = drm_outcome(es.drop_last()).0;
        let acc = drm_outcome(es).0;
        assert forall|i: int| 0 <= i < acc.len() implies known_backend(#[trigger] acc[i].backend) by {
            if i < prev.len() {
                assert(acc[i] == prev[i]);
            }
        }
    }
}

/// A text holds what one of its parts begins with.
proof fn lemma_holds_at(p: Seq<char>, q: Seq<char>, r: Seq<char>, w: Seq<char>)
    requires
        w.len() <= q.len(),
        q.subrange(0, w.len() as int) == w,
    ensures
        holds_text(p + q + r, w),
{
    let k = p.len() as int;
    assert((p + q + r).subrange(k, k + w.len()) =~= w);
}

/// A text made of eight parts holds the headings that its parts begin with.
proof fn lemma_holds_headings(
    t: Seq<char>,
    h: Seq<char>,
    o: Seq<char>,
    ar: Seq<char>,
    c: Seq<char>,
    m: Seq<char>,
    a: Seq<char>,
    s: Seq<char>,
    w: Seq<char>,
)
    requires
        t == h + o + ar + c + m + a + s + w,
        o.len() >= 18 && o.subrange(0, 18) == "Operating system: "@,
        c.len() >= 5 && c.subrange(0, 5) == "\nCPU\n"@,
        m.len() >= 8 && m.subrange(0, 8) == "\nMemory\n"@,
        a.len() >= 14 && a.subrange(0, 14) == "\nAccelerators\n"@,
        s.len() >= 9 && s.subrange(0, 9) == "\nStorage\n"@,
    ensures
        holds_text(t, "Operating system: "@),
        holds_text(t, "\nCPU\n"@),
        holds_text(t, "\nMemory\n"@),
        holds_text(t, "\nAccelerators\n"@),
        holds_text(t, "\nStorage\n"@),
{
    reveal_strlit("Operating system: ");
    reveal_strlit("\nCPU\n");
    reveal_strlit("\nMemory\n");
    reveal_strlit("\nAccelerators\n");
    reveal_strlit("\nStorage\n");
    assert(t =~= h + o + (ar + c + m + a + s + w));
    lemma_holds_at(h, o, ar + c + m + a + s + w, "Operating system: "@);
    assert(t =~= (h + o + ar) + c + (m + a + s + w));
    lemma_holds_at(h + o + ar, c, m + a + s + w, "\nCPU\n"@);
    assert(t =~= (h + o + ar + c) + m + (a + s + w));
    lemma_holds_at(h + o + ar + c, m, a + s + w, "\nMemory\n"@);
    assert(t =~= (h + o + ar + c + m) + a + (s + w));
    lemma_holds_at(h + o + ar + c + m, a, s + w, "\nAccelerators\n"@);
    assert(t =~= (h + o + ar + c + m + a) + s + w);
    lemma_holds_at(h + o + ar + c + m + a, s, w, "\nStorage\n"@);
}

/// A text begins with `w` when it is `w` followed by more.
proof fn lemma_begins_with(w: Seq<char>, rest: Seq<char>)
    ensures
        (w + rest).len() >= w.len(),
        (w + rest).subrange(0, w.len() as int) == w,
{
    assert((w + rest).subrange(0, w.len() as int) =~= w);
}

/// The report for people names every resource group, whatever the host: the
/// operating system line and the CPU, memory, accelerator and storage
/// headings, each on a line of its own.
pub proof fn lemma_report_names_every_section(schema: u16, host: HostView, warnings: Seq<Seq<char>>)
    ensures
        holds_text(human_report(schema, host, warnings), "Operating system: "@),
        holds_text(human_report(schema, host, warnings), "\nCPU\n"@),
        holds_text(human_report(schema, host, warnings), "\nMemory\n"@),
        holds_text(human_report(schema, host, warnings), "\nAccelerators\n"@),
        holds_text(human_report(schema, host, warnings), "\nStorage\n"@),
{
    reveal_strlit("Operating system: ");
    reveal_strlit("\nCPU\n");
    reveal_strlit("\nMemory\n");
    reveal_strlit("\nAccelerators\n");
    reveal_strlit("\nStorage\n");
    let t = human_report(schema, host, warnings);
    let header = line("OptiMod host inspection (schema "@ + crate::text::decimal(schema as nat) + ")"@);
    let os = line("Operating system: "@ + host.operating_system);
    let arch = line("Architecture: "@ + host.architecture);
    let c = cpu_section(host.cpu);
    let m = memory_section(host.memory);
    let a = accelerator_section(host.accelerators);
    let s = storage_section(host.storage);
    let w = if warnings.len() == 0 {
        Seq::<char>::empty()
    } else {
        "\nWarnings\n"@ + super::render::warning_lines(warnings)
    };
    assert(t == header + os + arch + c + m + a + s + w);
    assert(os.len() >= 18 && os.subrange(0, 18) == "Operating system: "@) by {
        assert(os =~= "Operating system: "@ + (host.operating_system + "\n"@));
        lemma_begins_with("Operating system: "@, host.operating_system + "\n"@);
    }
    assert(c.len() >= 5 && c.subrange(0, 5) == "\nCPU\n"@) by {
        let rest = c.subrange(5, c.len() as int);
        assert(c =~= "\nCPU\n"@ + rest);
        lemma_begins_with("\nCPU\n"@, rest);
    }
    assert(m.len() >= 8 && m.subrange(0, 8) == "\nMemory\n"@) by {
        let rest = m.subrange(8, m.len() as int);
        assert(m =~= "\nMemory\n"@ + rest);
        lemma_begins_with("\nMemory\n"@, rest);
    }
    assert(a.len() >= 14 && a.subrange(0, 14) == "\nAccelerators\n"@) by {
        let rest = a.subrange(14, a.len() as int);
        assert(a =~= "\nAccelerators\n"@ + rest);
        lemma_begins_with("\nAccelerators\n"@, rest);
    }
    assert(s.len() >= 9 && s.subrange(0, 9) == "\nStorage\n"@) by {
        let rest = s.subrange(9, s.len() as int);
        assert(s =~= "\nStorage\n"@ + rest);
        lemma_begins_with("\nStorage\n"@, rest);
    }
    lemma_holds_headings(t, header, os, arch, c, m, a, s, w);
}

/// Inspection applies the control group's memory limit that the memory files
/// give: the report carries the limit and usage, and its effective memory stays
/// within the limit and the room left under it; without a limit the effective
/// memory is the host's.
pub proof fn lemma_inspection_applies_cgroup_memory(i: HostInputs)
    requires
        inspection_error(i) is None,
    ensures
        ({
            let m = inspected_host(i).memory;
            match memory_outcome(memory_files_view(i.cgroup_memory)).0 {
                Some(g) => {
                    &&& m.cgroup_limit_bytes == Some(g.limit_bytes)
                    &&& m.cgroup_used_bytes == Some(g.used_bytes)
                    &&& m.effective_total_bytes <= g.limit_bytes
                    &&& m.effective_total_bytes <= m.host_total_bytes
                    &&& m.effective_available_bytes + g.used_bytes <= g.limit_bytes
                        || m.effective_available_bytes == 0
                },
                None => {
                    &&& m.cgroup_limit_bytes is None
                    &&& m.cgroup_used_bytes is None
                    &&& m.effective_total_bytes == m.host_total_bytes
                    &&& m.effective_available_bytes == m.host_available_bytes
                },
            }
        }),
{
    let cgroup = memory_outcome(memory_files_view(i.cgroup_memory)).0;
    let text = super::inspect::read_view(i.meminfo)->Ok_0;
    lemma_effective_memory_within_limits(text, cgroup);
}

/// `Path::starts_with`: a base holds a path exactly when the base's components
/// begin the path's components, so `/mnt/data` holds `/mnt/data/x` but not
/// `/mnt/data2/x`.
pub proof fn lemma_path_prefix_is_by_components(path: Seq<char>, base: Seq<char>)
    ensures
        path_starts_with(path, base) <==> (components(base).len() <= components(path).len()
            && forall|k: int|
            0 <= k < components(base).len() ==> #[trigger] components(path)[k]
                == components(base)[k]),
{
    let pc = components(path);
    let bc = components(base);
    if bc.len() <= pc.len() && (forall|k: int| 0 <= k < bc.len() ==> #[trigger] pc[k] == bc[k]) {
        assert(pc.take(bc.len() as int) =~= bc);
    }
    if path_starts_with(path, base) {
        assert forall|k: int| 0 <= k < bc.len() implies #[trigger] pc[k] == bc[k] by {
            assert(pc.take(bc.len() as int)[k] == pc[k]);
        }
    }
}

/// The mount chosen for a path is one whose mount point's components begin the
/// path's components.
pub proof fn lemma_chosen_mount_is_a_component_prefix(path: Seq<char>, ls: Seq<Seq<char>>)
    ensures
        deepest_mount(path, ls) matches Some(m) ==> {
            &&& components(m.mount_point).len() <= components(path).len()
            &&& forall|k: int|
                0 <= k < components(m.mount_point).len() ==> #[trigger] components(path)[k]
                    == components(m.mount_point)[k]
        },
{
    lemma_deepest_mount_holds_path(path, ls);
    if let Some(m) = deepest_mount(path, ls) {
        lemma_path_prefix_is_by_components(path, m.mount_point);
    }
}

/// The accelerator, if any, that one DRM entry's metadata describes: a card
/// whose vendor and device could be read and whose metadata names a known GPU.
pub open spec fn entry_accelerator(e: DrmEntry) -> Option<super::AcceleratorView> {
    if indexed_name(e.name@, "card"@) && e.vendor is Some && e.device is Some {
        let uevent = match e.uevent {
            Some(u) => u@,
            None => Seq::empty(),
        };
        match drm_accelerator(
            e.vendor->0@,
            e.device->0@,
            uevent,
            text_of(e.memory_total),
            text_of(e.memory_used),
        ) {
            Ok(Some(a)) => Some(a),
            _ => None,
        }
    } else {
        None
    }
}

/// How many entries describe an accelerator.
pub open spec fn accelerator_entries(es: Seq<DrmEntry>) -> nat
    decreases es.len(),
{
    if es.len() == 0 {
        0
    } else {
        accelerator_entries(es.drop_last()) + if entry_accelerator(es.last()) is Some {
            1nat
        } else {
            0nat
        }
    }
}

/// Every DRM entry that describes a GPU of a known vendor is reported, after
/// those of the entries before it: one more entry adds exactly its accelerator
/// (or nothing), so the number of accelerators is the number of such entries.
pub proof fn lemma_every_accelerator_is_reported(es: Seq<DrmEntry>, e: DrmEntry)
    ensures
        drm_outcome(es.push(e)).0 == match entry_accelerator(e) {
            Some(a) => drm_outcome(es).0.push(a),
            None => drm_outcome(es).0,
        },
        drm_outcome(es).0.len() == accelerator_entries(es),
    decreases es.len(),
{
    let t = es.push(e);
    assert(t.drop_last() =~= es);
    assert(t.last() == e);
    if es.len() > 0 {
        lemma_every_accelerator_is_reported(es.drop_last(), es.last());
        assert(es.drop_last().push(es.last()) =~= es);
    }
}

/// A DRM listing reports one accelerator for each entry that describes one.
pub proof fn lemma_listing_reports_every_accelerator(entries: Vec<DrmEntry>)
    ensures
        accelerators_outcome(DrmListing::Entries(entries)).0.len() == accelerator_entries(entries@),
{
    if entries@.len() > 0 {
        lemma_every_accelerator_is_reported(entries@.drop_last(), entries@.last());
        assert(entries@.drop_last().push(entries@.last()) =~= entries@);
    }
}

/// A text holds each of its parts.
proof fn lemma_holds_part(p: Seq<char>, q: Seq<char>, r: Seq<char>)
    ensures
        holds_text(p + q + r, q),
{
    let k = p.len() as int;
    assert((p + q + r).subrange(k, k + q.len()) =~= q);
}

/// The lines of a seven-line section, each as it appears in a text.
proof fn lemma_section_lines(
    t: Seq<char>,
    before: Seq<char>,
    after: Seq<char>,
    a: Seq<char>,
    b: Seq<char>,
    c: Seq<char>,
    d: Seq<char>,
    e: Seq<char>,
    f: Seq<char>,
    g: Seq<char>,
)
    requires
        t == before + (a + b + c + d + e + f + g) + after,
    ensures
        holds_text(t, b),
        holds_text(t, c),
        holds_text(t, d),
        holds_text(t, e),
        holds_text(t, f),
        holds_text(t, g),
{
    assert(t =~= (before + a) + b + (c + d + e + f + g + after));
    lemma_holds_part(before + a, b, c + d + e + f + g + after);
    assert(t =~= (before + a + b) + c + (d + e + f + g + after));
    lemma_holds_part(before + a + b, c, d + e + f + g + after);
    assert(t =~= (before + a + b + c) + d + (e + f + g + after));
    lemma_holds_part(before + a + b + c, d, e + f + g + after);
    assert(t =~= (before + a + b + c + d) + e + (f + g + after));
    lemma_holds_part(before + a + b + c + d, e, f + g + after);
    assert(t =~= (before + a + b + c + d + e) + f + (g + after));
    lemma_holds_part(before + a + b + c + d + e, f, g + after);
    assert(t =~= (before + a + b + c + d + e + f) + g + after);
    lemma_holds_part(before + a + b + c + d + e + f, g, after);
}

/// The report for people shows each memory amount on its own labelled line,
/// the swap line with the total before `total` and the free swap before
/// `available`, and the control group limit when there is one.
pub proof fn lemma_report_memory_lines(schema: u16, host: HostView, warnings: Seq<Seq<char>>)
    ensures
        ({
            let t = human_report(schema, host, warnings);
            let m = host.memory;
            &&& holds_text(t, "  Host total: "@ + bytes_text(m.host_total_bytes) + "\n"@)
            &&& holds_text(t, "  Host available: "@ + bytes_text(m.host_available_bytes) + "\n"@)
            &&& holds_text(t, "  Effective total: "@ + bytes_text(m.effective_total_bytes) + "\n"@)
            &&& holds_text(
                t,
                "  Effective available: "@ + bytes_text(m.effective_available_bytes) + "\n"@,
            )
            &&& holds_text(
                t,
                "  Swap: "@ + bytes_text(m.swap_total_bytes) + " total, "@ + bytes_text(
                    m.swap_available_bytes,
                ) + " available"@ + "\n"@,
            )
            &&& m.cgroup_limit_bytes matches Some(l) ==> holds_text(
                t,
                "  Cgroup limit: "@ + bytes_text(l) + "\n"@,
            )
        }),
{
    let t = human_report(schema, host, warnings);
    let m = host.memory;
    let header = line("OptiMod host inspection (schema "@ + crate::text::decimal(schema as nat) + ")"@);
    let os = line("Operating system: "@ + host.operating_system);
    let arch = line("Architecture: "@ + host.architecture);
    let c = cpu_section(host.cpu);
    let a = accelerator_section(host.accelerators);
    let s = storage_section(host.storage);
    let w = if warnings.len() == 0 {
        Seq::<char>::empty()
    } else {
        "\nWarnings\n"@ + super::render::warning_lines(warnings)
    };
    let l1 = line("  Host total: "@ + bytes_text(m.host_total_bytes));
    let l2 = line("  Host available: "@ + bytes_text(m.host_available_bytes));
    let l3 = line("  Effective total: "@ + bytes_text(m.effective_total_bytes));
    let l4 = line("  Effective available: "@ + bytes_text(m.effective_available_bytes));
    let l5 = line(
        "  Swap: "@ + bytes_text(m.swap_total_bytes) + " total, "@ + bytes_text(
            m.swap_available_bytes,
        ) + " available"@,
    );
    let l6 = super::render::limit_line(m.cgroup_limit_bytes);
    assert(memory_section(m) == "\nMemory\n"@ + l1 + l2 + l3 + l4 + l5 + l6);
    assert(t == header + os + arch + c + memory_section(m) + a + s + w);
    assert(t =~= (header + os + arch + c) + ("\nMemory\n"@ + l1 + l2 + l3 + l4 + l5 + l6) + (a + s
        + w));
    lemma_section_lines(
        t,
        header + os + arch + c,
        a + s + w,
        "\nMemory\n"@,
        l1,
        l2,
        l3,
        l4,
        l5,
        l6,
    );
}

/// The `model name` a block of cpuinfo text gives, when it is not empty.
pub open spec fn block_model_name(block: Seq<char>) -> Option<Seq<char>> {
    non_empty(fields_of(block), "model name"@)
}

/// With no `model name` in any block, the scan has found none.
proof fn lemma_scan_without_model_name(bs: Seq<Seq<char>>)
    requires
        forall|k: int| 0 <= k < bs.len() ==> block_model_name(#[trigger] bs[k]) is None,
    ensures
        scan_blocks(bs).model_name is None,
    decreases bs.len(),
{
    if bs.len() > 0 {
        let t = bs.drop_last();
        assert forall|k: int| 0 <= k < t.len() implies block_model_name(#[trigger] t[k]) is None by {
            assert(t[k] == bs[k]);
        }
        lemma_scan_without_model_name(t);
        assert(block_model_name(bs[bs.len() - 1]) is None);
    }
}

/// The scan keeps the first non-empty `model name`.
proof fn lemma_scan_first_model_name(bs: Seq<Seq<char>>, j: int)
    requires
        0 <= j < bs.len(),
        block_model_name(bs[j]) is Some,
        forall|k: int| 0 <= k < j ==> block_model_name(#[trigger] bs[k]) is None,
    ensures
        scan_blocks(bs).model_name == block_model_name(bs[j]),
    decreases bs.len(),
{
    let t = bs.drop_last();
    if j < bs.len() - 1 {
        assert(t[j] == bs[j]);
        assert forall|k: int| 0 <= k < j implies block_model_name(#[trigger] t[k]) is None by {
            assert(t[k] == bs[k]);
        }
        lemma_scan_first_model_name(t, j);
    } else {
        assert forall|k: int| 0 <= k < t.len() implies block_model_name(#[trigger] t[k]) is None by {
            assert(t[k] == bs[k]);
        }
        lemma_scan_without_model_name(t);
        assert(bs.last() == bs[j]);
    }
}

/// The CPU is named by the first non-empty `model name` of any block, whatever
/// `Hardware`, `cpu model` or `processor` say, and then the text always gives a
/// snapshot.
pub proof fn lemma_model_name_names_the_cpu(
    input: Seq<char>,
    available_parallelism: usize,
    quota: Option<CpuQuota>,
    numa_nodes: Option<usize>,
    j: int,
)
    requires
        available_parallelism > 0,
        0 <= j < blocks(input).len(),
        block_model_name(blocks(input)[j]) is Some,
        forall|k: int| 0 <= k < j ==> block_model_name(#[trigger] blocks(input)[k]) is None,
    ensures
        cpuinfo(input, available_parallelism, quota, numa_nodes) matches Ok(c) && c.model
            == block_model_name(blocks(input)[j])->0,
{
    lemma_scan_first_model_name(blocks(input), j);
}

} // verus!
