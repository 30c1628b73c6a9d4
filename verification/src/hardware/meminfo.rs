//! `/proc/meminfo` and the effective memory under a control group limit.

use vstd::prelude::*;

use super::keyvalue::{field_get, field_value, fields_of, key_value_fields, pair_views};
use super::{CgroupMemory, MemorySnapshot};
use crate::text::{
    chars_eq, int_error_text, lowercase, owned, parse_u64, parse_u64_chars, push_chars, push_str,
    str_chars, to_lowercase, words, words_of,
};

verus! {

/// A result whose error text is taken by its characters.
pub open spec fn text_result<T>(r: Result<T, String>) -> Result<T, Seq<char>> {
    match r {
        Ok(v) => Ok(v),
        Err(e) => Err(e@),
    }
}

/// An amount in KiB (`"<n> kB"`, the unit optional) as a number of bytes;
/// `field` names the value in error messages.
pub open spec fn kib_bytes(value: Seq<char>, field: Seq<char>) -> Result<u64, Seq<char>> {
    let ws = words(value);
    if ws.len() == 0 {
        Err(field + " is empty"@)
    } else {
        match parse_u64(ws[0]) {
            Err(e) => Err(field + " is not an integer: "@ + int_error_text(e)),
            Ok(amount) => if ws.len() >= 2 && lowercase(ws[1]) != "kb"@ {
                Err(field + " has unsupported unit "@ + ws[1])
            } else if amount * 1024 > u64::MAX {
                Err(field + " overflows bytes"@)
            } else {
                Ok((amount * 1024) as u64)
            },
        }
    }
}

/// `field` followed by `suffix`.
fn message(field: &str, suffix: &str) -> (s: String)
    ensures
        s@ == field@ + suffix@,
{
    let mut s = owned(field);
    push_str(&mut s, suffix);
    s
}

/// Parses an amount in KiB: the first word is a decimal `u64`; a second word,
/// if any, must be `kB` in any ASCII case; further words are ignored. The
/// result is the amount times 1024, which must fit in a `u64`.
pub fn parse_kib(value: &str, field: &str) -> (r: Result<u64, String>)
    ensures
        text_result(r) == kib_bytes(value@, field@),
{
    let chars = str_chars(value);
    let ws = words_of(&chars);
    if ws.len() == 0 {
        return Err(message(field, " is empty"));
    }
    let amount = match parse_u64_chars(&ws[0]) {
        Ok(v) => v,
        Err(e) => {
            let mut s = message(field, " is not an integer: ");
            let m = e.message();
            push_str(&mut s, m.as_str());
            return Err(s);
        },
    };
    if ws.len() >= 2 {
        let unit = to_lowercase(&ws[1]);
        let kb = str_chars("kb");
        if !chars_eq(&unit, &kb) {
            let mut s = message(field, " has unsupported unit ");
            push_chars(&mut s, &ws[1]);
            return Err(s);
        }
    }
    if amount > 18014398509481983 {
        return Err(message(field, " overflows bytes"));
    }
    Ok(amount * 1024)
}

/// The field `key` as an amount in KiB; a missing field is an error.
pub open spec fn kib_field(fs: Seq<(Seq<char>, Seq<char>)>, key: Seq<char>) -> Result<u64, Seq<char>> {
    match field_get(fs, key) {
        None => Err(key + " is missing"@),
        Some(v) => kib_bytes(v, key),
    }
}

/// Parses the field `key` of `values` as an amount in KiB (`parse_kib`, with
/// `key` naming it); a missing field is an error.
pub fn parse_kib_field(values: &[(String, String)], key: &str) -> (r: Result<u64, String>)
    ensures
        text_result(r) == kib_field(pair_views(values@), key@),
{
    match field_value(values, key) {
        None => Err(message(key, " is missing")),
        Some(v) => parse_kib(v.as_str(), key),
    }
}

/// An optional amount in KiB: 0 when the field is missing.
pub open spec fn kib_or_zero(fs: Seq<(Seq<char>, Seq<char>)>, key: Seq<char>, field: Seq<char>) -> Result<u64, Seq<char>> {
    match field_get(fs, key) {
        None => Ok(0),
        Some(v) => kib_bytes(v, field),
    }
}

/// The memory snapshot that `/proc/meminfo` text describes, under an optional
/// control group limit.
pub open spec fn meminfo(input: Seq<char>, cgroup: Option<CgroupMemory>) -> Result<MemorySnapshot, Seq<char>> {
    let fs = fields_of(input);
    match kib_field(fs, "memtotal"@) {
        Err(e) => Err(e),
        Ok(total) => {
            let avail_field = match field_get(fs, "memavailable"@) {
                Some(v) => Some(v),
                None => field_get(fs, "memfree"@),
            };
            match avail_field {
                None => Err("MemAvailable and MemFree are missing"@),
                Some(av) => match kib_bytes(av, "MemAvailable"@) {
                    Err(e) => Err(e),
                    Ok(available) => match kib_or_zero(fs, "swaptotal"@, "SwapTotal"@) {
                        Err(e) => Err(e),
                        Ok(swap_total) => match kib_or_zero(fs, "swapfree"@, "SwapFree"@) {
                            Err(e) => Err(e),
                            Ok(swap_free) => Ok(memory_snapshot(total, available, swap_total, swap_free, cgroup)),
                        },
                    },
                },
            }
        },
    }
}

/// The smaller of two amounts.
pub open spec fn min_u64(a: u64, b: u64) -> u64 {
    if a <= b {
        a
    } else {
        b
    }
}

/// Memory amounts with the effective totals that a control group allows:
/// the effective total is at most the limit, and the effective available
/// memory at most what the group has left (`limit - used`, or 0).
pub open spec fn memory_snapshot(total: u64, available: u64, swap_total: u64, swap_free: u64, cgroup: Option<CgroupMemory>) -> MemorySnapshot {
    match cgroup {
        Some(g) => MemorySnapshot {
            host_total_bytes: total,
            host_available_bytes: available,
            effective_total_bytes: min_u64(total, g.limit_bytes),
            effective_available_bytes: min_u64(
                available,
                if g.used_bytes <= g.limit_bytes {
                    (g.limit_bytes - g.used_bytes) as u64
                } else {
                    0
                },
            ),
            swap_total_bytes: swap_total,
            swap_available_bytes: swap_free,
            cgroup_limit_bytes: Some(g.limit_bytes),
            cgroup_used_bytes: Some(g.used_bytes),
        },
        None => MemorySnapshot {
            host_total_bytes: total,
            host_available_bytes: available,
            effective_total_bytes: total,
            effective_available_bytes: available,
            swap_total_bytes: swap_total,
            swap_available_bytes: swap_free,
            cgroup_limit_bytes: None,
            cgroup_used_bytes: None,
        },
    }
}

/// Parses `/proc/meminfo`: `MemTotal` is required; `MemAvailable`, or else
/// `MemFree`, is required; `SwapTotal` and `SwapFree` default to 0. With a
/// control group, the effective total is capped by its limit and the effective
/// available memory by its remaining room.
pub fn parse_meminfo(input: &str, cgroup: Option<CgroupMemory>) -> (r: Result<MemorySnapshot, String>)
    ensures
        text_result(r) == meminfo(input@, cgroup),
{
    let chars = str_chars(input);
    let values = key_value_fields(&chars);
    let total = parse_kib_field(&values, "memtotal")?;
    let avail_value = match field_value(&values, "memavailable") {
        Some(v) => Some(v),
        None => field_value(&values, "memfree"),
    };
    let available = match avail_value {
        None => {
            return Err(owned("MemAvailable and MemFree are missing"));
        },
        Some(v) => parse_kib(v.as_str(), "MemAvailable")?,
    };
    let swap_total = match field_value(&values, "swaptotal") {
        None => 0,
        Some(v) => parse_kib(v.as_str(), "SwapTotal")?,
    };
    let swap_free = match field_value(&values, "swapfree") {
        None => 0,
        Some(v) => parse_kib(v.as_str(), "SwapFree")?,
    };
    let snapshot = match cgroup {
        Some(g) => {
            let room = g.limit_bytes.saturating_sub(g.used_bytes);
            MemorySnapshot {
                host_total_bytes: total,
                host_available_bytes: available,
                effective_total_bytes: if total <= g.limit_bytes {
                    total
                } else {
                    g.limit_bytes
                },
                effective_available_bytes: if available <= room {
                    available
                } else {
                    room
                },
                swap_total_bytes: swap_total,
                swap_available_bytes: swap_free,
                cgroup_limit_bytes: Some(g.limit_bytes),
                cgroup_used_bytes: Some(g.used_bytes),
            }
        },
        None => MemorySnapshot {
            host_total_bytes: total,
            host_available_bytes: available,
            effective_total_bytes: total,
            effective_available_bytes: available,
            swap_total_bytes: swap_total,
            swap_available_bytes: swap_free,
            cgroup_limit_bytes: None,
            cgroup_used_bytes: None,
        },
    };
    Ok(snapshot)
}

} // verus!
