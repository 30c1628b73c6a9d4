//! `/proc/cpuinfo`: CPU model, topology and inference-relevant features.

use vstd::prelude::*;

use super::keyvalue::{
    field_get, field_value, fields_of, key_value_fields, non_empty, non_empty_field, pair_views,
};
use super::{opt_view, CpuQuota, CpuSnapshot};
use crate::text::{
    blocks, blocks_of, chars_eq, lowercase, owned, str_chars, to_lowercase, views, words, words_of,
};

verus! {

/// Whether `char::is_alphabetic` holds of `c` (the Unicode `Alphabetic` property).
pub uninterp spec fn alphabetic(c: char) -> bool;

/// Wraps `char::is_alphabetic`. The contract names the result
/// `alphabetic(c)` and states that among ASCII characters exactly the letters
/// are alphabetic; the Unicode table for other characters is left unsaid.
#[verifier::external_body]
fn is_alphabetic_char(c: char) -> (r: bool)
    ensures
        r == alphabetic(c),
        (c as u32) < 128 ==> (r <==> (('a' <= c && c <= 'z') || ('A' <= c && c <= 'Z'))),
{
    c.is_alphabetic()
}

/// Whether some character of `v` is alphabetic.
pub open spec fn has_alphabetic(v: Seq<char>) -> bool {
    exists|i: int| 0 <= i < v.len() && alphabetic(#[trigger] v[i])
}

/// Decides `has_alphabetic`.
fn any_alphabetic(v: &[char]) -> (r: bool)
    ensures
        r == has_alphabetic(v@),
{
    let mut i: usize = 0;
    while i < v.len()
        invariant
            i <= v.len(),
            forall|j: int| 0 <= j < i ==> !alphabetic(#[trigger] v@[j]),
        decreases v.len() - i,
    {
        if is_alphabetic_char(v[i]) {
            return true;
        }
        i = i + 1;
    }
    false
}

/// The instruction features that matter for inference, in ascending order.
pub open spec fn known_features() -> Seq<Seq<char>> {
    seq![
        "amx_bf16"@,
        "amx_int8"@,
        "asimd"@,
        "avx"@,
        "avx2"@,
        "avx512_vnni"@,
        "avx512f"@,
        "avx_vnni"@,
        "bf16"@,
        "dotprod"@,
        "f16c"@,
        "fma"@,
        "i8mm"@,
        "neon"@,
        "sse4_2"@,
        "sve"@,
        "sve2"@,
    ]
}

/// The `j`-th known feature.
fn feature_name(j: usize) -> (s: &'static str)
    requires
        j < 17,
    ensures
        s@ == known_features()[j as int],
{
    match j {
        0 => "amx_bf16",
        1 => "amx_int8",
        2 => "asimd",
        3 => "avx",
        4 => "avx2",
        5 => "avx512_vnni",
        6 => "avx512f",
        7 => "avx_vnni",
        8 => "bf16",
        9 => "dotprod",
        10 => "f16c",
        11 => "fma",
        12 => "i8mm",
        13 => "neon",
        14 => "sse4_2",
        15 => "sve",
        _ => "sve2",
    }
}

/// Whether a flag names an inference-relevant feature, in any ASCII case.
pub open spec fn inference_feature(v: Seq<char>) -> bool {
    known_features().contains(lowercase(v))
}

/// Decides whether `value` names one of the inference-relevant CPU features
/// (SSE4.2, FMA, F16C, AVX, AVX2, AVX-VNNI, AVX-512F, AVX-512 VNNI, AMX,
/// NEON/ASIMD, dot product, I8MM, BF16, SVE, SVE2), ignoring ASCII case.
pub fn is_inference_feature(value: &str) -> (r: bool)
    ensures
        r == inference_feature(value@),
{
    let chars = str_chars(value);
    let lower = to_lowercase(&chars);
    assert(lower@ == lowercase(value@));
    let mut j: usize = 0;
    while j < 17
        invariant
            j <= 17,
            known_features().len() == 17,
            lower@ == lowercase(value@),
            forall|k: int| 0 <= k < j ==> known_features()[k] != lower@,
        decreases 17 - j,
    {
        if chars_eq(&str_chars(feature_name(j)), &lower) {
            assert(known_features()[j as int] == lower@);
            assert(known_features().contains(lower@));
            return true;
        }
        j = j + 1;
    }
    false
}

/// What a CPU snapshot holds, with its texts as character sequences.
pub struct CpuView {
    pub model: Seq<char>,
    pub physical_cores: Option<nat>,
    pub logical_cpus: nat,
    pub available_parallelism: nat,
    pub cgroup_quota: Option<CpuQuota>,
    pub features: Seq<Seq<char>>,
    pub numa_nodes: Option<usize>,
}

/// The number an optional count holds.
pub open spec fn opt_nat(o: Option<usize>) -> Option<nat> {
    match o {
        Some(n) => Some(n as nat),
        None => None,
    }
}

/// The texts a list of strings holds.
pub open spec fn string_views(v: Seq<String>) -> Seq<Seq<char>> {
    v.map_values(|s: String| s@)
}

impl View for CpuSnapshot {
    type V = CpuView;

    open spec fn view(&self) -> CpuView {
        CpuView {
            model: self.model@,
            physical_cores: opt_nat(self.physical_cores),
            logical_cpus: self.logical_cpus as nat,
            available_parallelism: self.available_parallelism as nat,
            cgroup_quota: self.cgroup_quota,
            features: string_views(self.features@),
            numa_nodes: self.numa_nodes,
        }
    }
}

/// What the blocks of `/proc/cpuinfo` read so far have shown.
pub struct CpuScan {
    pub logical: nat,
    pub model_name: Option<Seq<char>>,
    pub hardware: Option<Seq<char>>,
    pub cpu_model: Option<Seq<char>>,
    pub descriptive: Option<Seq<char>>,
    pub cores: Set<(Seq<char>, Seq<char>)>,
    pub features: Set<Seq<char>>,
}

/// Membership in `s`, as a predicate.
pub open spec fn member_of(s: Set<Seq<char>>) -> spec_fn(Seq<char>) -> bool {
    |f: Seq<char>| s.contains(f)
}

/// `prev`, or else `next`.
pub open spec fn first_of(prev: Option<Seq<char>>, next: Option<Seq<char>>) -> Option<Seq<char>> {
    match prev {
        Some(v) => Some(v),
        None => next,
    }
}

/// The inference features (lower-cased) among some flags.
pub open spec fn word_features(ws: Seq<Seq<char>>) -> Set<Seq<char>>
    decreases ws.len(),
{
    if ws.len() == 0 {
        Set::empty()
    } else {
        let prev = word_features(ws.drop_last());
        if inference_feature(ws.last()) {
            prev.insert(lowercase(ws.last()))
        } else {
            prev
        }
    }
}

/// The inference features that an optional flags value lists.
pub open spec fn value_features(v: Option<Seq<char>>) -> Set<Seq<char>> {
    match v {
        Some(t) => word_features(words(t)),
        None => Set::empty(),
    }
}

/// A `processor` value that describes the CPU (holds a letter), if any.
pub open spec fn descriptive_of(fs: Seq<(Seq<char>, Seq<char>)>) -> Option<Seq<char>> {
    match non_empty(fs, "processor"@) {
        Some(v) => if has_alphabetic(v) {
            Some(v)
        } else {
            None
        },
        None => None,
    }
}

/// The package of a block: `physical id`, or else `package id`, or else `0`.
pub open spec fn package_of(fs: Seq<(Seq<char>, Seq<char>)>) -> Seq<char> {
    match first_of(field_get(fs, "physical id"@), field_get(fs, "package id"@)) {
        Some(p) => p,
        None => "0"@,
    }
}

/// The scan after one more block with fields `fs`: a `processor` field counts
/// a logical CPU; the first non-empty model names are kept; `core id` adds the
/// (package, core) pair; `flags` and `features` add inference features.
pub open spec fn scan_block(st: CpuScan, fs: Seq<(Seq<char>, Seq<char>)>) -> CpuScan {
    CpuScan {
        logical: if field_get(fs, "processor"@) is Some {
            st.logical + 1
        } else {
            st.logical
        },
        model_name: first_of(st.model_name, non_empty(fs, "model name"@)),
        hardware: first_of(st.hardware, non_empty(fs, "hardware"@)),
        cpu_model: first_of(st.cpu_model, non_empty(fs, "cpu model"@)),
        descriptive: first_of(st.descriptive, descriptive_of(fs)),
        cores: match field_get(fs, "core id"@) {
            Some(core) => st.cores.insert((package_of(fs), core)),
            None => st.cores,
        },
        features: st.features + value_features(field_get(fs, "flags"@)) + value_features(
            field_get(fs, "features"@),
        ),
    }
}

/// The scan before any block.
pub open spec fn empty_scan() -> CpuScan {
    CpuScan {
        logical: 0,
        model_name: None,
        hardware: None,
        cpu_model: None,
        descriptive: None,
        cores: Set::empty(),
        features: Set::empty(),
    }
}

/// The scan of the given blocks, in order.
pub open spec fn scan_blocks(bs: Seq<Seq<char>>) -> CpuScan
    decreases bs.len(),
{
    if bs.len() == 0 {
        empty_scan()
    } else {
        scan_block(scan_blocks(bs.drop_last()), fields_of(bs.last()))
    }
}

/// The CPU snapshot that `/proc/cpuinfo` text describes: blocks are separated
/// by blank lines; logical CPUs are the blocks with a `processor` field (or the
/// available parallelism when there are none); the model is the first
/// `model name`, else `Hardware`, else `cpu model`, else a descriptive
/// `processor`; physical cores are the distinct (package, core) pairs; features
/// are the known inference features that some `flags` or `Features` line lists.
pub open spec fn cpuinfo(
    input: Seq<char>,
    available_parallelism: usize,
    quota: Option<CpuQuota>,
    numa_nodes: Option<usize>,
) -> Result<CpuView, Seq<char>> {
    if available_parallelism == 0 {
        Err("available parallelism cannot be zero"@)
    } else {
        let st = scan_blocks(blocks(input));
        match first_of(first_of(first_of(st.model_name, st.hardware), st.cpu_model), st.descriptive) {
            None => Err("CPU model is missing"@),
            Some(model) => Ok(
                CpuView {
                    model,
                    physical_cores: if st.cores.len() == 0 {
                        None
                    } else {
                        Some(st.cores.len())
                    },
                    logical_cpus: if st.logical == 0 {
                        available_parallelism as nat
                    } else {
                        st.logical
                    },
                    available_parallelism: available_parallelism as nat,
                    cgroup_quota: quota,
                    features: known_features().filter(member_of(st.features)),
                    numa_nodes,
                },
            ),
        }
    }
}

/// The character sequences that a list of (package, core) pairs holds.
pub open spec fn pair_chars(v: Seq<(Vec<char>, Vec<char>)>) -> Seq<(Seq<char>, Seq<char>)> {
    v.map_values(|p: (Vec<char>, Vec<char>)| (p.0@, p.1@))
}

/// Adds a (package, core) pair unless it is already listed.
fn add_core(cores: &mut Vec<(Vec<char>, Vec<char>)>, package: Vec<char>, core: Vec<char>)
    requires
        pair_chars(old(cores)@).no_duplicates(),
    ensures
        pair_chars(final(cores)@).no_duplicates(),
        pair_chars(final(cores)@).to_set() == pair_chars(old(cores)@).to_set().insert(
            (package@, core@),
        ),
        final(cores)@.len() <= old(cores)@.len() + 1,
{
    let ghost pv = pair_chars(cores@);
    let ghost x = (package@, core@);
    let mut i: usize = 0;
    while i < cores.len()
        invariant
            i <= cores.len(),
            pv == pair_chars(cores@),
            pv.no_duplicates(),
            x == (package@, core@),
            forall|j: int| 0 <= j < i ==> pv[j] != x,
        decreases cores.len() - i,
    {
        assert(pv[i as int] == (cores@[i as int].0@, cores@[i as int].1@));
        if chars_eq(&cores[i].0, &package) && chars_eq(&cores[i].1, &core) {
            assert(pv[i as int] == x);
            assert(pv.to_set().insert(x) =~= pv.to_set());
            return ;
        }
        i = i + 1;
    }
    assert(!pv.contains(x));
    cores.push((package, core));
    assert(pair_chars(cores@) =~= pv.push(x));
    proof {
        pv.lemma_push_to_set_commute(x);
    }
}

/// Marks the known features that the words `ws` name.
fn mark_words(present: &mut Vec<bool>, ws: &Vec<Vec<char>>, Ghost(base): Ghost<Set<Seq<char>>>)
    requires
        old(present)@.len() == 17,
        forall|j: int| 0 <= j < 17 ==> old(present)@[j] == base.contains(known_features()[j]),
    ensures
        final(present)@.len() == 17,
        forall|j: int|
            0 <= j < 17 ==> final(present)@[j] == (base + word_features(views(ws@))).contains(
                known_features()[j],
            ),
{
    let ghost wv = views(ws@);
    let mut k: usize = 0;
    while k < ws.len()
        invariant
            k <= ws.len(),
            wv == views(ws@),
            present@.len() == 17,
            known_features().len() == 17,
            forall|j: int|
                0 <= j < 17 ==> present@[j] == (base + word_features(wv.take(k as int))).contains(
                    known_features()[j],
                ),
        decreases ws.len() - k,
    {
        assert(wv.take(k + 1).drop_last() =~= wv.take(k as int));
        assert(wv.take(k + 1).last() == ws@[k as int]@);
        let lower = to_lowercase(&ws[k]);
        let ghost before = present@;
        let mut next: Vec<bool> = Vec::new();
        let mut j: usize = 0;
        while j < 17
            invariant
                j <= 17,
                next@.len() == j,
                present@ == before,
                before.len() == 17,
                known_features().len() == 17,
                forall|t: int| 0 <= t < j ==> next@[t] == (before[t] || known_features()[t] == lower@),
            decreases 17 - j,
        {
            let name = str_chars(feature_name(j));
            let hit = chars_eq(&name, &lower);
            next.push(present[j] || hit);
            j = j + 1;
        }
        *present = next;
        let ghost prev = base + word_features(wv.take(k as int));
        let ghost w = ws@[k as int]@;
        assert(lower@ == lowercase(w));
        assert(wv.take(k + 1).last() == w);
        assert(word_features(wv.take(k + 1)) == (if inference_feature(w) {
            word_features(wv.take(k as int)).insert(lowercase(w))
        } else {
            word_features(wv.take(k as int))
        }));
        assert(forall|t: int| 0 <= t < 17 ==> #[trigger] before[t] == prev.contains(known_features()[t]));
        proof {
            if inference_feature(w) {
                assert forall|t: int| 0 <= t < 17 implies present@[t] == (base + word_features(
                    wv.take(k + 1),
                )).contains(known_features()[t]) by {
                    assert(present@[t] == (before[t] || known_features()[t] == lower@));
                    assert(before[t] == prev.contains(known_features()[t]));
                    assert(base + word_features(wv.take(k + 1)) =~= prev.insert(lowercase(w)));
                }
            } else {
                assert forall|t: int| 0 <= t < 17 implies present@[t] == (base + word_features(
                    wv.take(k + 1),
                )).contains(known_features()[t]) by {
                    assert(present@[t] == (before[t] || known_features()[t] == lower@));
                    assert(before[t] == prev.contains(known_features()[t]));
                    assert(base + word_features(wv.take(k + 1)) =~= prev);
                    if known_features()[t] == lower@ {
                        assert(known_features().contains(lower@));
                    }
                }
            }
        }
        k = k + 1;
    }
    assert(wv.take(ws.len() as int) =~= wv);
}

/// The texts of an optional string slice reference.
pub open spec fn opt_string_view(o: Option<&String>) -> Option<Seq<char>> {
    match o {
        Some(s) => Some(s@),
        None => None,
    }
}

/// Marks the known features that an optional flags value lists.
fn mark_value(present: &mut Vec<bool>, value: Option<&String>, Ghost(base): Ghost<Set<Seq<char>>>)
    requires
        old(present)@.len() == 17,
        forall|j: int| 0 <= j < 17 ==> old(present)@[j] == base.contains(known_features()[j]),
    ensures
        final(present)@.len() == 17,
        forall|j: int|
            0 <= j < 17 ==> final(present)@[j] == (base + value_features(
                opt_string_view(value),
            )).contains(known_features()[j]),
{
    match value {
        Some(v) => {
            let ws = words_of(&str_chars(v.as_str()));
            mark_words(present, &ws, Ghost(base));
        },
        None => {
            assert(base + Set::<Seq<char>>::empty() =~= base);
        },
    }
}

/// The view of a CPU snapshot result, with the error as characters.
pub open spec fn cpu_result_view(r: Result<CpuSnapshot, String>) -> Result<CpuView, Seq<char>> {
    match r {
        Ok(c) => Ok(c@),
        Err(e) => Err(e@),
    }
}

/// The first value among the fields `key` and, when it is missing, `other`.
fn value_or<'a>(fields: &'a [(String, String)], key: &str, other: &str) -> (r: Option<&'a String>)
    ensures
        opt_string_view(r) == first_of(
            field_get(pair_views(fields@), key@),
            field_get(pair_views(fields@), other@),
        ),
{
    match field_value(fields, key) {
        Some(v) => Some(v),
        None => field_value(fields, other),
    }
}

/// Reads `/proc/cpuinfo` (see `cpuinfo`): model, logical CPUs, physical cores
/// and inference features, with the given parallelism, quota and NUMA nodes.
pub fn parse_cpuinfo(
    input: &str,
    available_parallelism: usize,
    cgroup_quota: Option<CpuQuota>,
    numa_nodes: Option<usize>,
) -> (r: Result<CpuSnapshot, String>)
    ensures
        cpu_result_view(r) == cpuinfo(input@, available_parallelism, cgroup_quota, numa_nodes),
{
    if available_parallelism == 0 {
        return Err(owned("available parallelism cannot be zero"));
    }
    let chars = str_chars(input);
    let bs = blocks_of(&chars);
    let ghost bv = views(bs@);
    let mut logical: usize = 0;
    let mut model_name: Option<String> = None;
    let mut hardware: Option<String> = None;
    let mut cpu_model: Option<String> = None;
    let mut descriptive: Option<String> = None;
    let mut cores: Vec<(Vec<char>, Vec<char>)> = Vec::new();
    let mut present: Vec<bool> = Vec::new();
    let mut j: usize = 0;
    while j < 17
        invariant
            j <= 17,
            present@.len() == j,
            forall|t: int| 0 <= t < j ==> !present@[t],
        decreases 17 - j,
    {
        present.push(false);
        j = j + 1;
    }
    assert(bv.take(0) =~= Seq::<Seq<char>>::empty());
    assert(pair_chars(cores@) =~= Seq::<(Seq<char>, Seq<char>)>::empty());
    assert(pair_chars(cores@).to_set() =~= Set::<(Seq<char>, Seq<char>)>::empty());
    let mut i: usize = 0;
    while i < bs.len()
        invariant
            i <= bs.len(),
            bv == views(bs@),
            bv == blocks(input@),
            logical <= i,
            cores@.len() <= i,
            logical == scan_blocks(bv.take(i as int)).logical,
            opt_view(model_name) == scan_blocks(bv.take(i as int)).model_name,
            opt_view(hardware) == scan_blocks(bv.take(i as int)).hardware,
            opt_view(cpu_model) == scan_blocks(bv.take(i as int)).cpu_model,
            opt_view(descriptive) == scan_blocks(bv.take(i as int)).descriptive,
            pair_chars(cores@).no_duplicates(),
            pair_chars(cores@).to_set() == scan_blocks(bv.take(i as int)).cores,
            present@.len() == 17,
            known_features().len() == 17,
            forall|t: int|
                0 <= t < 17 ==> present@[t] == scan_blocks(bv.take(i as int)).features.contains(
                    known_features()[t],
                ),
        decreases bs.len() - i,
    {
        let ghost st = scan_blocks(bv.take(i as int));
        assert(bv.take(i + 1).drop_last() =~= bv.take(i as int));
        assert(bv.take(i + 1).last() == bs@[i as int]@);
        let fields = key_value_fields(&bs[i]);
        let ghost fs = pair_views(fields@);
        assert(fs == fields_of(bv[i as int]));
        if field_value(&fields, "processor").is_some() {
            logical = logical + 1;
        }
        if model_name.is_none() {
            model_name = non_empty_field(&fields, "model name");
        }
        if hardware.is_none() {
            hardware = non_empty_field(&fields, "hardware");
        }
        if cpu_model.is_none() {
            cpu_model = non_empty_field(&fields, "cpu model");
        }
        if descriptive.is_none() {
            match non_empty_field(&fields, "processor") {
                Some(v) => {
                    if any_alphabetic(&str_chars(v.as_str())) {
                        descriptive = Some(v);
                    }
                },
                None => {},
            }
        }
        match field_value(&fields, "core id") {
            Some(core) => {
                let package = match value_or(&fields, "physical id", "package id") {
                    Some(p) => str_chars(p.as_str()),
                    None => str_chars("0"),
                };
                assert(package@ == package_of(fs));
                add_core(&mut cores, package, str_chars(core.as_str()));
            },
            None => {},
        }
        let flags = field_value(&fields, "flags");
        mark_value(&mut present, flags, Ghost(st.features));
        let feats = field_value(&fields, "features");
        mark_value(
            &mut present,
            feats,
            Ghost(st.features + value_features(opt_string_view(flags))),
        );
        i = i + 1;
    }
    assert(bv.take(bs.len() as int) =~= bv);
    let ghost st = scan_blocks(bv);
    let logical_cpus = if logical == 0 {
        available_parallelism
    } else {
        logical
    };
    let model = match model_name {
        Some(m) => m,
        None => match hardware {
            Some(m) => m,
            None => match cpu_model {
                Some(m) => m,
                None => match descriptive {
                    Some(m) => m,
                    None => {
                        return Err(owned("CPU model is missing"));
                    },
                },
            },
        },
    };
    proof {
        pair_chars(cores@).unique_seq_to_set();
    }
    let physical_cores = if cores.len() == 0 {
        None
    } else {
        Some(cores.len())
    };
    let mut features: Vec<String> = Vec::new();
    let ghost pred = member_of(st.features);
    let mut j: usize = 0;
    assert(known_features().take(0) =~= Seq::<Seq<char>>::empty());
    proof {
        reveal_with_fuel(Seq::<_>::filter, 1);
    }
    while j < 17
        invariant
            j <= 17,
            present@.len() == 17,
            known_features().len() == 17,
            pred == member_of(st.features),
            forall|t: int| 0 <= t < 17 ==> present@[t] == st.features.contains(known_features()[t]),
            string_views(features@) == known_features().take(j as int).filter(pred),
        decreases 17 - j,
    {
        proof {
            reveal_with_fuel(Seq::<_>::filter, 1);
        }
        assert(known_features().take(j + 1).drop_last() =~= known_features().take(j as int));
        assert(known_features().take(j + 1).last() == known_features()[j as int]);
        let ghost before = string_views(features@);
        if present[j] {
            features.push(owned(feature_name(j)));
            assert(string_views(features@) =~= before.push(known_features()[j as int]));
        }
        j = j + 1;
    }
    assert(known_features().take(17) =~= known_features());
    Ok(
        CpuSnapshot {
            model,
            physical_cores,
            logical_cpus,
            available_parallelism,
            cgroup_quota,
            features,
            numa_nodes,
        },
    )
}

} // verus!
