//! Decisions on what sysfs and the standard library report: NUMA nodes,
//! rotational storage, DRM cards and parallelism.

use vstd::prelude::*;

use super::cgroup::{warning_views, warn};
use super::drm::{drm_accelerator, drm_result_view, opt_str_view, parse_drm_accelerator};
use super::AcceleratorSnapshot;
use crate::text::{
    is_digit, owned, push_str, str_chars, strip_prefix, strip_prefix_chars, trim, trim_chars,
};

verus! {

/// Whether `s` is a non-empty run of ASCII decimal digits.
pub open spec fn ascii_digits(s: Seq<char>) -> bool {
    s.len() > 0 && forall|i: int| 0 <= i < s.len() ==> is_digit(#[trigger] s[i])
}

/// Decides `ascii_digits` on characters.
fn digits_only(s: &[char]) -> (r: bool)
    ensures
        r == ascii_digits(s@),
{
    if s.len() == 0 {
        return false;
    }
    let mut i: usize = 0;
    while i < s.len()
        invariant
            i <= s.len(),
            forall|j: int| 0 <= j < i ==> is_digit(#[trigger] s@[j]),
        decreases s.len() - i,
    {
        if !('0' <= s[i] && s[i] <= '9') {
            return false;
        }
        i = i + 1;
    }
    true
}

/// Whether `value` is a non-empty run of ASCII decimal digits.
pub fn all_ascii_digits(value: &str) -> (r: bool)
    ensures
        r == ascii_digits(value@),
{
    digits_only(&str_chars(value))
}

/// Whether a directory name is `<prefix>` followed by a decimal index.
pub open spec fn indexed_name(name: Seq<char>, prefix: Seq<char>) -> bool {
    match strip_prefix(name, prefix) {
        Some(index) => ascii_digits(index),
        None => false,
    }
}

/// Decides `indexed_name`.
fn is_indexed_name(name: &str, prefix: &str) -> (r: bool)
    ensures
        r == indexed_name(name@, prefix@),
{
    match strip_prefix_chars(&str_chars(name), &str_chars(prefix)) {
        Some(index) => digits_only(&index),
        None => false,
    }
}

/// Whether a `/sys/class/drm` entry is a card (`card<N>`).
pub fn is_drm_card(name: &str) -> (r: bool)
    ensures
        r == indexed_name(name@, "card"@),
{
    is_indexed_name(name, "card")
}

/// How many of the names are NUMA nodes (`node<N>`).
pub open spec fn numa_count(names: Seq<Seq<char>>) -> nat
    decreases names.len(),
{
    if names.len() == 0 {
        0
    } else {
        numa_count(names.drop_last()) + if indexed_name(names.last(), "node"@) {
            1nat
        } else {
            0
        }
    }
}

/// The texts a list of strings holds.
pub open spec fn name_views(v: Seq<String>) -> Seq<Seq<char>> {
    v.map_values(|s: String| s@)
}

/// The number of NUMA nodes among the entries of `/sys/devices/system/node`,
/// or none when there is none.
pub fn count_numa_nodes(names: &[String]) -> (r: Option<usize>)
    ensures
        match r {
            Some(n) => n == numa_count(name_views(names@)) && n > 0,
            None => numa_count(name_views(names@)) == 0,
        },
{
    let ghost nv = name_views(names@);
    let mut count: usize = 0;
    let mut i: usize = 0;
    while i < names.len()
        invariant
            i <= names.len(),
            nv == name_views(names@),
            count == numa_count(nv.take(i as int)),
            count <= i,
        decreases names.len() - i,
    {
        assert(nv.take(i + 1).drop_last() =~= nv.take(i as int));
        assert(nv.take(i + 1).last() == names@[i as int]@);
        if is_indexed_name(names[i].as_str(), "node") {
            count = count + 1;
        }
        i = i + 1;
    }
    assert(nv.take(names.len() as int) =~= nv);
    if count > 0 {
        Some(count)
    } else {
        None
    }
}

/// What a block device's `queue/rotational` text says: `0` is not rotational,
/// `1` is, anything else is unknown.
pub open spec fn rotational_value(text: Seq<char>) -> Option<bool> {
    if trim(text) == "0"@ {
        Some(false)
    } else if trim(text) == "1"@ {
        Some(true)
    } else {
        None
    }
}

/// Reads a `queue/rotational` value (see `rotational_value`).
pub fn rotational_flag(text: &str) -> (r: Option<bool>)
    ensures
        r == rotational_value(text@),
{
    let t = trim_chars(&str_chars(text));
    if crate::text::chars_eq(&t, &str_chars("0")) {
        Some(false)
    } else if crate::text::chars_eq(&t, &str_chars("1")) {
        Some(true)
    } else {
        None
    }
}

/// Position of the last `/` in `s`, or -1 when there is none.
pub open spec fn last_slash(s: Seq<char>) -> int
    decreases s.len(),
{
    if s.len() == 0 {
        -1
    } else if s.last() == '/' {
        s.len() - 1
    } else {
        last_slash(s.drop_last())
    }
}

/// The directory that holds a canonical directory path (`Path::pop` on such a
/// path): none for `/` or a path without `/`.
pub open spec fn parent_dir(dir: Seq<char>) -> Option<Seq<char>> {
    let k = last_slash(dir);
    if dir == "/"@ || k < 0 {
        None
    } else if k == 0 {
        Some("/"@)
    } else {
        Some(dir.take(k))
    }
}

/// One step of the walk for a block device's rotational flag.
pub enum WalkStep {
    /// The walk ends with this answer.
    Answer(Option<bool>),
    /// The walk goes on in this directory.
    Up(Seq<char>),
}

/// The walk's step in directory `dir`, given the text of `dir/queue/rotational`
/// when it could be read: that text decides; otherwise the walk moves to the
/// parent directory, and ends without an answer at `/sys` or the root.
pub open spec fn rotational_walk(dir: Seq<char>, queue_file: Option<Seq<char>>) -> WalkStep {
    match queue_file {
        Some(t) => WalkStep::Answer(rotational_value(t)),
        None => if dir == "/sys"@ {
            WalkStep::Answer(None)
        } else {
            match parent_dir(dir) {
                Some(p) => WalkStep::Up(p),
                None => WalkStep::Answer(None),
            }
        },
    }
}

/// What the rotational walk does next (see `rotational_walk`).
#[derive(Debug, Clone, PartialEq, Eq)]
pub enum RotationalStep {
    Answer(Option<bool>),
    Up(String),
}

impl View for RotationalStep {
    type V = WalkStep;

    open spec fn view(&self) -> WalkStep {
        match self {
            RotationalStep::Answer(a) => WalkStep::Answer(*a),
            RotationalStep::Up(p) => WalkStep::Up(p@),
        }
    }
}

/// Decides the walk's step in directory `dir` (see `rotational_walk`);
/// `queue_file` is the text of `dir/queue/rotational` when it could be read.
pub fn rotational_step(dir: &str, queue_file: Option<&str>) -> (r: RotationalStep)
    ensures
        r@ == rotational_walk(dir@, opt_str_view(queue_file)),
{
    match queue_file {
        Some(t) => RotationalStep::Answer(rotational_flag(t)),
        None => {
            let d = str_chars(dir);
            if crate::text::chars_eq(&d, &str_chars("/sys")) || crate::text::chars_eq(
                &d,
                &str_chars("/"),
            ) {
                return RotationalStep::Answer(None);
            }
            let mut i: usize = d.len();
            assert(d@.take(d.len() as int) =~= d@);
            while i > 0 && d[i - 1] != '/'
                invariant
                    i <= d.len(),
                    last_slash(d@) == last_slash(d@.take(i as int)),
                decreases i,
            {
                assert(d@.take(i - 1) =~= d@.take(i as int).drop_last());
                i = i - 1;
            }
            assert(d@.take(d.len() as int) =~= d@);
            if i == 0 {
                assert(d@.take(0) =~= Seq::<char>::empty());
                return RotationalStep::Answer(None);
            }
            assert(last_slash(d@.take(i as int)) == i - 1);
            if i == 1 {
                RotationalStep::Up(owned("/"))
            } else {
                let p = crate::text::copy_range(&d, 0, i - 1);
                assert(p@ =~= d@.take(i - 1));
                RotationalStep::Up(crate::text::string_from_chars(&p))
            }
        },
    }
}

/// An unsigned value as a `u64`, or `u64::MAX` when it does not fit.
pub fn into_u64(value: u128) -> (r: u64)
    ensures
        r == (if value <= u64::MAX {
            value as u64
        } else {
            u64::MAX
        }),
{
    if value <= 0xFFFF_FFFF_FFFF_FFFF {
        value as u64
    } else {
        0xFFFF_FFFF_FFFF_FFFF
    }
}

/// The available parallelism, or 1 with a warning when it is unknown.
pub open spec fn parallelism(probe: Result<usize, Seq<char>>) -> (usize, Seq<Seq<char>>) {
    match probe {
        Ok(n) => (n, Seq::empty()),
        Err(e) => (1, seq!["could not determine available parallelism: "@ + e]),
    }
}

/// The text of a probe result.
pub open spec fn probe_view(p: Result<usize, String>) -> Result<usize, Seq<char>> {
    match p {
        Ok(n) => Ok(n),
        Err(e) => Err(e@),
    }
}

/// Decides the available parallelism (see `parallelism`).
pub fn parallelism_or_one(probe: Result<usize, String>, warnings: &mut Vec<String>) -> (r: usize)
    ensures
        r == parallelism(probe_view(probe)).0,
        warning_views(final(warnings)@) == warning_views(old(warnings)@) + parallelism(
            probe_view(probe),
        ).1,
{
    let ghost before = warning_views(warnings@);
    match probe {
        Ok(n) => {
            assert(before + Seq::<Seq<char>>::empty() =~= before);
            n
        },
        Err(e) => {
            let mut w = owned("could not determine available parallelism: ");
            push_str(&mut w, e.as_str());
            let ghost wv = w@;
            warn(warnings, w);
            assert(before.push(wv) =~= before + seq![wv]);
            1
        },
    }
}

/// One entry of `/sys/class/drm` with what reading its device files gave
/// (`None` for a file that could not be read).
#[derive(Debug, Clone, PartialEq, Eq)]
pub struct DrmEntry {
    pub name: String,
    pub vendor: Option<String>,
    pub device: Option<String>,
    pub uevent: Option<String>,
    pub memory_total: Option<String>,
    pub memory_used: Option<String>,
}

/// What listing `/sys/class/drm` gave.
#[derive(Debug, Clone, PartialEq, Eq)]
pub enum DrmListing {
    NotFound,
    Failed(String),
    Entries(Vec<DrmEntry>),
}

/// The text of an optional string.
pub open spec fn text_of(o: Option<String>) -> Option<Seq<char>> {
    match o {
        Some(s) => Some(s@),
        None => None,
    }
}

/// The accelerators and warnings of DRM entries: entries that are not cards,
/// or whose vendor or device cannot be read, are skipped; a missing uevent is
/// empty; entries that `drm_accelerator` rejects give a warning.
pub open spec fn drm_outcome(es: Seq<DrmEntry>) -> (Seq<super::AcceleratorView>, Seq<Seq<char>>)
    decreases es.len(),
{
    if es.len() == 0 {
        (Seq::empty(), Seq::empty())
    } else {
        let (acc, ws) = drm_outcome(es.drop_last());
        let e = es.last();
        if !indexed_name(e.name@, "card"@) || e.vendor is None || e.device is None {
            (acc, ws)
        } else {
            let uevent = match e.uevent {
                Some(u) => u@,
                None => Seq::empty(),
            };
            match drm_accelerator(
                e.vendor->0@,
                e.device->0@,
                uevent,
                text_of(e.memory_total),
                text_of(e.memory_used),
            ) {
                Ok(Some(a)) => (acc.push(a), ws),
                Ok(None) => (acc, ws),
                Err(d) => (acc, ws.push("ignored DRM "@ + e.name@ + ": "@ + d)),
            }
        }
    }
}

/// The accelerators and warnings of a DRM listing: none when the directory
/// does not exist; none and a warning when it cannot be listed.
pub open spec fn accelerators_outcome(l: DrmListing) -> (Seq<super::AcceleratorView>, Seq<Seq<char>>) {
    match l {
        DrmListing::NotFound => (Seq::empty(), Seq::empty()),
        DrmListing::Failed(e) => (Seq::empty(), seq!["could not inspect /sys/class/drm: "@ + e@]),
        DrmListing::Entries(es) => drm_outcome(es@),
    }
}

/// The views of a list of accelerators.
pub open spec fn accelerator_views(v: Seq<AcceleratorSnapshot>) -> Seq<super::AcceleratorView> {
    v.map_values(|a: AcceleratorSnapshot| a@)
}

/// The text of an optional string, as a string slice.
fn as_opt_str(o: &Option<String>) -> (r: Option<&str>)
    ensures
        opt_str_view(r) == text_of(*o),
{
    match o {
        Some(s) => Some(s.as_str()),
        None => None,
    }
}

/// Collects the known-vendor accelerators of a DRM listing (see
/// `accelerators_outcome`), appending warnings.
pub fn discover_accelerators(listing: DrmListing, warnings: &mut Vec<String>) -> (r: Vec<AcceleratorSnapshot>)
    ensures
        accelerator_views(r@) == accelerators_outcome(listing).0,
        warning_views(final(warnings)@) == warning_views(old(warnings)@) + accelerators_outcome(
            listing,
        ).1,
{
    let ghost before = warning_views(warnings@);
    let entries = match listing {
        DrmListing::NotFound => {
            assert(before + Seq::<Seq<char>>::empty() =~= before);
            assert(accelerator_views(Seq::<AcceleratorSnapshot>::empty()) =~= Seq::<
                super::AcceleratorView,
            >::empty());
            return Vec::new();
        },
        DrmListing::Failed(e) => {
            let mut w = owned("could not inspect /sys/class/drm: ");
            push_str(&mut w, e.as_str());
            let ghost wv = w@;
            warn(warnings, w);
            assert(before.push(wv) =~= before + seq![wv]);
            assert(accelerator_views(Seq::<AcceleratorSnapshot>::empty()) =~= Seq::<
                super::AcceleratorView,
            >::empty());
            return Vec::new();
        },
        DrmListing::Entries(es) => es,
    };
    let ghost es = entries@;
    let mut accelerators: Vec<AcceleratorSnapshot> = Vec::new();
    let mut i: usize = 0;
    assert(es.take(0) =~= Seq::<DrmEntry>::empty());
    assert(before + Seq::<Seq<char>>::empty() =~= before);
    assert(accelerator_views(accelerators@) =~= Seq::<super::AcceleratorView>::empty());
    while i < entries.len()
        invariant
            i <= entries.len(),
            es == entries@,
            accelerator_views(accelerators@) == drm_outcome(es.take(i as int)).0,
            warning_views(warnings@) == before + drm_outcome(es.take(i as int)).1,
        decreases entries.len() - i,
    {
        assert(es.take(i + 1).drop_last() =~= es.take(i as int));
        assert(es.take(i + 1).last() == entries@[i as int]);
        let e = &entries[i];
        let ghost acc0 = accelerator_views(accelerators@);
        let ghost ws0 = warning_views(warnings@);
        if is_drm_card(e.name.as_str()) && e.vendor.is_some() && e.device.is_some() {
            let vendor = match &e.vendor {
                Some(v) => v.as_str(),
                None => "",
            };
            let device = match &e.device {
                Some(v) => v.as_str(),
                None => "",
            };
            let uevent = match &e.uevent {
                Some(v) => v.as_str(),
                None => "",
            };
            proof {
                if e.uevent is None {
                    reveal_strlit("");
                }
            }
            match parse_drm_accelerator(
                vendor,
                device,
                uevent,
                as_opt_str(&e.memory_total),
                as_opt_str(&e.memory_used),
            ) {
                Ok(Some(a)) => {
                    let ghost av = a@;
                    accelerators.push(a);
                    assert(accelerator_views(accelerators@) =~= acc0.push(av));
                },
                Ok(None) => {},
                Err(d) => {
                    let mut w = owned("ignored DRM ");
                    push_str(&mut w, e.name.as_str());
                    push_str(&mut w, ": ");
                    push_str(&mut w, d.as_str());
                    let ghost wv = w@;
                    warn(warnings, w);
                    assert(wv == "ignored DRM "@ + e.name@ + ": "@ + d@);
                },
            }
        }
        i = i + 1;
        assert(warning_views(warnings@) =~= before + drm_outcome(es.take(i as int)).1);
    }
    assert(es.take(entries.len() as int) =~= es);
    accelerators
}

} // verus!
