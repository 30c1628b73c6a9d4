//! Control group (v2) CPU quota and memory limit.

use vstd::prelude::*;

use super::{CgroupMemory, CpuQuota};
use crate::text::{
    chars_eq, int_error_text, lines, lines_of, owned, parse_u64, parse_u64_chars, push_chars,
    push_str, str_chars, string_from_chars, strip_prefix, strip_prefix_chars, trim, trim_chars,
    views, words, words_of,
};

verus! {

/// What reading an optional file gave: its text, nothing because it does not
/// exist, or an error (its message).
#[derive(Debug, Clone, PartialEq, Eq)]
pub enum FileRead {
    Text(String),
    Missing,
    Failed(String),
}

/// A file of the control group directory and what reading it gave.
#[derive(Debug, Clone, PartialEq, Eq)]
pub struct CgroupFile {
    pub path: String,
    pub read: FileRead,
}

/// The two memory files of a control group: `memory.max` and `memory.current`.
#[derive(Debug, Clone, PartialEq, Eq)]
pub struct CgroupMemoryFiles {
    pub limit: CgroupFile,
    pub used: CgroupFile,
}

/// The quota that `cpu.max` text sets: `max` (no quota) or a quota, then a
/// period, both in microseconds; the period and a quota must be positive
/// decimal `u64`s, and nothing may follow them.
pub open spec fn cpu_quota(input: Seq<char>) -> Result<Option<CpuQuota>, Seq<char>> {
    let ws = words(input);
    if ws.len() == 0 {
        Err("cpu.max quota is missing"@)
    } else if ws.len() == 1 {
        Err("cpu.max period is missing"@)
    } else {
        match parse_u64(ws[1]) {
            Err(e) => Err("cpu.max period is invalid: "@ + int_error_text(e)),
            Ok(period) => if ws.len() > 2 {
                Err("cpu.max has extra fields"@)
            } else if period == 0 {
                Err("cpu.max period cannot be zero"@)
            } else if ws[0] == "max"@ {
                Ok(None)
            } else {
                match parse_u64(ws[0]) {
                    Err(e) => Err("cpu.max quota is invalid: "@ + int_error_text(e)),
                    Ok(quota) => if quota == 0 {
                        Err("cpu.max quota cannot be zero"@)
                    } else {
                        Ok(Some(CpuQuota { quota, period }))
                    },
                }
            },
        }
    }
}

/// `prefix` followed by the message of a `u64` parse error.
fn int_message(prefix: &str, e: crate::text::IntError) -> (s: String)
    ensures
        s@ == prefix@ + int_error_text(e),
{
    let mut s = owned(prefix);
    let m = e.message();
    push_str(&mut s, m.as_str());
    s
}

/// Parses the `cpu.max` file of a control group (see `cpu_quota`): `Ok(None)`
/// when the group has no quota.
pub fn parse_cpu_quota(input: &str) -> (r: Result<Option<CpuQuota>, String>)
    ensures
        match r {
            Ok(q) => cpu_quota(input@) == Ok::<Option<CpuQuota>, Seq<char>>(q),
            Err(e) => cpu_quota(input@) == Err::<Option<CpuQuota>, Seq<char>>(e@),
        },
{
    let ws = words_of(&str_chars(input));
    let ghost wv = views(ws@);
    if ws.len() == 0 {
        return Err(owned("cpu.max quota is missing"));
    }
    if ws.len() == 1 {
        return Err(owned("cpu.max period is missing"));
    }
    assert(wv[0] == ws@[0]@ && wv[1] == ws@[1]@);
    let period = match parse_u64_chars(&ws[1]) {
        Ok(p) => p,
        Err(e) => {
            return Err(int_message("cpu.max period is invalid: ", e));
        },
    };
    if ws.len() > 2 {
        return Err(owned("cpu.max has extra fields"));
    }
    if period == 0 {
        return Err(owned("cpu.max period cannot be zero"));
    }
    if chars_eq(&ws[0], &str_chars("max")) {
        return Ok(None);
    }
    let quota = match parse_u64_chars(&ws[0]) {
        Ok(q) => q,
        Err(e) => {
            return Err(int_message("cpu.max quota is invalid: ", e));
        },
    };
    if quota == 0 {
        return Err(owned("cpu.max quota cannot be zero"));
    }
    Ok(Some(CpuQuota { quota, period }))
}

/// `a`, then `b`, then `c`.
fn concat3(a: &str, b: &str, c: &str) -> (s: String)
    ensures
        s@ == a@ + b@ + c@,
{
    let mut s = owned(a);
    push_str(&mut s, b);
    push_str(&mut s, c);
    s
}

/// The warning for a file that could not be read.
pub open spec fn unreadable(path: Seq<char>, detail: Seq<char>) -> Seq<char> {
    "could not read "@ + path + ": "@ + detail
}

/// The warning for a file whose content was ignored.
pub open spec fn ignored(path: Seq<char>, detail: Seq<char>) -> Seq<char> {
    "ignored "@ + path + ": "@ + detail
}

/// The outcome of reading a control group file: the value and the warnings.
pub open spec fn quota_outcome(file: Option<(Seq<char>, FileRead)>) -> (Option<CpuQuota>, Seq<Seq<char>>) {
    match file {
        None => (None, Seq::empty()),
        Some((path, read)) => match read {
            FileRead::Missing => (None, Seq::empty()),
            FileRead::Failed(e) => (None, seq![unreadable(path, e@)]),
            FileRead::Text(t) => match cpu_quota(t@) {
                Ok(q) => (q, Seq::empty()),
                Err(d) => (None, seq![ignored(path, d)]),
            },
        },
    }
}

/// The path and read outcome of an optional control group file.
pub open spec fn file_view(f: Option<CgroupFile>) -> Option<(Seq<char>, FileRead)> {
    match f {
        Some(c) => Some((c.path@, c.read)),
        None => None,
    }
}

/// The texts a list of warnings holds.
pub open spec fn warning_views(v: Seq<String>) -> Seq<Seq<char>> {
    v.map_values(|s: String| s@)
}

/// Appends a warning.
pub fn warn(warnings: &mut Vec<String>, w: String)
    ensures
        warning_views(final(warnings)@) == warning_views(old(warnings)@).push(w@),
{
    let ghost before = warning_views(warnings@);
    warnings.push(w);
    assert(warning_views(warnings@) =~= before.push(w@));
}

/// Decides the CPU quota of the control group from its `cpu.max` file (absent
/// when there is no control group directory): a missing file means no quota; an
/// unreadable or malformed one means no quota and a warning.
pub fn read_cgroup_cpu_quota(file: Option<CgroupFile>, warnings: &mut Vec<String>) -> (r: Option<CpuQuota>)
    ensures
        r == quota_outcome(file_view(file)).0,
        warning_views(final(warnings)@) == warning_views(old(warnings)@) + quota_outcome(
            file_view(file),
        ).1,
{
    let ghost before = warning_views(warnings@);
    match file {
        None => {
            assert(before + Seq::<Seq<char>>::empty() =~= before);
            None
        },
        Some(f) => match f.read {
            FileRead::Missing => {
                assert(before + Seq::<Seq<char>>::empty() =~= before);
                None
            },
            FileRead::Failed(e) => {
                let mut w = concat3("could not read ", f.path.as_str(), ": ");
                push_str(&mut w, e.as_str());
                warn(warnings, w);
                assert(before.push(unreadable(f.path@, e@)) =~= before + seq![unreadable(f.path@, e@)]);
                None
            },
            FileRead::Text(t) => match parse_cpu_quota(t.as_str()) {
                Ok(q) => {
                    assert(before + Seq::<Seq<char>>::empty() =~= before);
                    q
                },
                Err(d) => {
                    let mut w = concat3("ignored ", f.path.as_str(), ": ");
                    push_str(&mut w, d.as_str());
                    warn(warnings, w);
                    assert(before.push(ignored(f.path@, d@)) =~= before + seq![ignored(f.path@, d@)]);
                    None
                },
            },
        },
    }
}

/// The value of a control group counter file: its trimmed text as a `u64`,
/// unless the file is missing, unreadable (a warning) or malformed (a warning).
pub open spec fn counter(path: Seq<char>, read: FileRead) -> (Option<u64>, Seq<Seq<char>>) {
    match read {
        FileRead::Missing => (None, Seq::empty()),
        FileRead::Failed(e) => (None, seq![unreadable(path, e@)]),
        FileRead::Text(t) => match parse_u64(trim(t@)) {
            Ok(v) => (Some(v), Seq::empty()),
            Err(e) => (None, seq![ignored(path, int_error_text(e))]),
        },
    }
}

/// The memory limit and usage of the control group and the warnings: no limit
/// (`max`) or a missing file means none; the usage is read only when the limit is known.
pub open spec fn memory_outcome(files: Option<(Seq<char>, FileRead, Seq<char>, FileRead)>) -> (Option<CgroupMemory>, Seq<Seq<char>>) {
    match files {
        None => (None, Seq::empty()),
        Some((limit_path, limit_read, used_path, used_read)) => {
            if limit_read matches FileRead::Text(t) && trim(t@) == "max"@ {
                (None, Seq::empty())
            } else {
                let (limit, w1) = counter(limit_path, limit_read);
                match limit {
                    None => (None, w1),
                    Some(l) => {
                        let (used, w2) = counter(used_path, used_read);
                        match used {
                            None => (None, w2),
                            Some(u) => (Some(CgroupMemory { limit_bytes: l, used_bytes: u }), w2),
                        }
                    },
                }
            }
        },
    }
}

/// The paths and read outcomes of the memory files.
pub open spec fn memory_files_view(f: Option<CgroupMemoryFiles>) -> Option<(Seq<char>, FileRead, Seq<char>, FileRead)> {
    match f {
        Some(m) => Some((m.limit.path@, m.limit.read, m.used.path@, m.used.read)),
        None => None,
    }
}

/// Reads a counter file (see `counter`), appending its warning.
fn read_counter(file: &CgroupFile, warnings: &mut Vec<String>) -> (r: Option<u64>)
    ensures
        r == counter(file.path@, file.read).0,
        warning_views(final(warnings)@) == warning_views(old(warnings)@) + counter(
            file.path@,
            file.read,
        ).1,
{
    let ghost before = warning_views(warnings@);
    match &file.read {
        FileRead::Missing => {
            assert(before + Seq::<Seq<char>>::empty() =~= before);
            None
        },
        FileRead::Failed(e) => {
            let mut w = concat3("could not read ", file.path.as_str(), ": ");
            push_str(&mut w, e.as_str());
            warn(warnings, w);
            assert(before.push(unreadable(file.path@, e@)) =~= before + seq![unreadable(file.path@, e@)]);
            None
        },
        FileRead::Text(t) => {
            let value = trim_chars(&str_chars(t.as_str()));
            match parse_u64_chars(&value) {
                Ok(v) => {
                    assert(before + Seq::<Seq<char>>::empty() =~= before);
                    Some(v)
                },
                Err(e) => {
                    let mut w = concat3("ignored ", file.path.as_str(), ": ");
                    let m = e.message();
                    push_str(&mut w, m.as_str());
                    warn(warnings, w);
                    assert(before.push(ignored(file.path@, int_error_text(e))) =~= before + seq![
                        ignored(file.path@, int_error_text(e)),
                    ]);
                    None
                },
            }
        },
    }
}

/// Decides the memory limit and usage of the control group from its
/// `memory.max` and `memory.current` files (see `memory_outcome`).
pub fn read_cgroup_memory(files: Option<CgroupMemoryFiles>, warnings: &mut Vec<String>) -> (r: Option<CgroupMemory>)
    ensures
        r == memory_outcome(memory_files_view(files)).0,
        warning_views(final(warnings)@) == warning_views(old(warnings)@) + memory_outcome(
            memory_files_view(files),
        ).1,
{
    let ghost before = warning_views(warnings@);
    match files {
        None => {
            assert(before + Seq::<Seq<char>>::empty() =~= before);
            None
        },
        Some(f) => {
            match &f.limit.read {
                FileRead::Text(t) => {
                    let value = trim_chars(&str_chars(t.as_str()));
                    if chars_eq(&value, &str_chars("max")) {
                        assert(before + Seq::<Seq<char>>::empty() =~= before);
                        return None;
                    }
                },
                _ => {},
            }
            let limit = match read_counter(&f.limit, warnings) {
                Some(l) => l,
                None => {
                    return None;
                },
            };
            let ghost mid = warning_views(warnings@);
            assert(mid == before);
            let used = match read_counter(&f.used, warnings) {
                Some(u) => u,
                None => {
                    return None;
                },
            };
            Some(CgroupMemory { limit_bytes: limit, used_bytes: used })
        },
    }
}

/// The control group directory that `/proc/self/cgroup` names: the path of the
/// first line of the unified hierarchy (`0::<path>`), under `/sys/fs/cgroup`.
pub open spec fn cgroup_directory(input: Seq<char>) -> Option<Seq<char>> {
    match unified_entry(lines(input)) {
        Some(rel) => Some("/sys/fs/cgroup/"@ + trim_leading_slashes(rel)),
        None => None,
    }
}

/// The path of the first unified-hierarchy line.
pub open spec fn unified_entry(ls: Seq<Seq<char>>) -> Option<Seq<char>>
    decreases ls.len(),
{
    if ls.len() == 0 {
        None
    } else {
        match strip_prefix(ls[0], "0::"@) {
            Some(p) => Some(p),
            None => unified_entry(ls.drop_first()),
        }
    }
}

/// `s` without its leading `/` characters.
pub open spec fn trim_leading_slashes(s: Seq<char>) -> Seq<char>
    decreases s.len(),
{
    if s.len() > 0 && s[0] == '/' {
        trim_leading_slashes(s.drop_first())
    } else {
        s
    }
}

/// Finds the control group directory named by `/proc/self/cgroup` text (see
/// `cgroup_directory`); whether it exists is for the caller to check.
pub fn cgroup_directory_candidate(input: &str) -> (r: Option<String>)
    ensures
        match r {
            Some(d) => cgroup_directory(input@) == Some(d@),
            None => cgroup_directory(input@) is None,
        },
{
    let ls = lines_of(&str_chars(input));
    let ghost lv = views(ls@);
    let prefix = str_chars("0::");
    let mut i: usize = 0;
    assert(lv.skip(0) =~= lv);
    while i < ls.len()
        invariant
            i <= ls.len(),
            lv == views(ls@),
            lv == lines(input@),
            prefix@ == "0::"@,
            unified_entry(lv) == unified_entry(lv.skip(i as int)),
        decreases ls.len() - i,
    {
        assert(lv.skip(i as int)[0] == ls@[i as int]@);
        assert(lv.skip(i as int).drop_first() =~= lv.skip(i + 1));
        match strip_prefix_chars(&ls[i], &prefix) {
            Some(rel) => {
                let mut k: usize = 0;
                assert(rel@.skip(0) =~= rel@);
                while k < rel.len() && rel[k] == '/'
                    invariant
                        k <= rel.len(),
                        trim_leading_slashes(rel@) == trim_leading_slashes(rel@.skip(k as int)),
                    decreases rel.len() - k,
                {
                    assert(rel@.skip(k as int).drop_first() =~= rel@.skip(k + 1));
                    k = k + 1;
                }
                assert(trim_leading_slashes(rel@.skip(k as int)) == rel@.skip(k as int));
                let tail = crate::text::copy_range(&rel, k, rel.len());
                assert(tail@ =~= rel@.skip(k as int));
                let mut d = owned("/sys/fs/cgroup/");
                push_chars(&mut d, &tail);
                return Some(d);
            },
            None => {},
        }
        i = i + 1;
    }
    assert(lv.skip(ls.len() as int) =~= Seq::<Seq<char>>::empty());
    None
}

} // verus!
