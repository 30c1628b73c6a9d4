//! `/etc/os-release`: the operating system's display name.

use vstd::prelude::*;

use super::keyvalue::{field_get, pair_views};
use crate::text::{
    copy_range, lines, lines_of, replace_pair, replace_pair_chars, split_once, split_once_char,
    str_chars, string_from_chars, trim, trim_chars, views,
};

verus! {

/// The value of an os-release assignment without its quotes: one pair of
/// matching double quotes, or else single quotes, is removed; then `\"`
/// becomes `"` and afterwards `\\` becomes `\`.
pub open spec fn unquoted(v: Seq<char>) -> Seq<char> {
    let inner = if v.len() >= 2 && v[0] == '"' && v.last() == '"' {
        v.subrange(1, v.len() - 1)
    } else if v.len() >= 2 && v[0] == '\'' && v.last() == '\'' {
        v.subrange(1, v.len() - 1)
    } else {
        v
    };
    replace_pair(replace_pair(inner, '\\', '"', '"'), '\\', '\\', '\\')
}

/// Removes the quotes of an os-release value (see `unquoted`).
pub fn unquote_os_release(value: &str) -> (r: String)
    ensures
        r@ == unquoted(value@),
{
    let chars = str_chars(value);
    let r = unquote_chars(&chars);
    string_from_chars(&r)
}

/// `unquote_os_release` on characters.
fn unquote_chars(v: &[char]) -> (r: Vec<char>)
    ensures
        r@ == unquoted(v@),
{
    let n = v.len();
    let inner = if n >= 2 && v[0] == '"' && v[n - 1] == '"' {
        copy_range(v, 1, n - 1)
    } else if n >= 2 && v[0] == '\'' && v[n - 1] == '\'' {
        copy_range(v, 1, n - 1)
    } else {
        copy_range(v, 0, n)
    };
    assert(v@.subrange(0, n as int) =~= v@);
    let once = replace_pair_chars(&inner, '\\', '"', '"');
    replace_pair_chars(&once, '\\', '\\', '\\')
}

/// The assignment one os-release line makes: blank lines and comments make
/// none, nor do lines without `=`; key and value are trimmed and the value unquoted.
pub open spec fn assignment(line: Seq<char>) -> Option<(Seq<char>, Seq<char>)> {
    let t = trim(line);
    if t.len() == 0 || t[0] == '#' {
        None
    } else {
        match split_once(t, '=') {
            Some((k, v)) => Some((trim(k), unquoted(trim(v)))),
            None => None,
        }
    }
}

/// The assignments of the given lines, in order.
pub open spec fn assignments(ls: Seq<Seq<char>>) -> Seq<(Seq<char>, Seq<char>)>
    decreases ls.len(),
{
    if ls.len() == 0 {
        Seq::empty()
    } else {
        let prev = assignments(ls.drop_last());
        match assignment(ls.last()) {
            Some(a) => prev.push(a),
            None => prev,
        }
    }
}

/// The name of the operating system: `PRETTY_NAME`, or else `NAME` (the last
/// assignment of each counts), unless that value is empty.
pub open spec fn os_name(input: Seq<char>) -> Option<Seq<char>> {
    let fs = assignments(lines(input));
    let v = match field_get(fs, "PRETTY_NAME"@) {
        Some(v) => Some(v),
        None => field_get(fs, "NAME"@),
    };
    match v {
        Some(v) => if v.len() > 0 {
            Some(v)
        } else {
            None
        },
        None => None,
    }
}

/// The assignment of one line.
fn assignment_of(line: &[char]) -> (r: Option<(String, String)>)
    ensures
        match r {
            Some(p) => assignment(line@) == Some((p.0@, p.1@)),
            None => assignment(line@) is None,
        },
{
    let t = trim_chars(line);
    if t.len() == 0 || t[0] == '#' {
        return None;
    }
    match split_once_char(&t, '=') {
        Some((k, v)) => {
            let key = trim_chars(&k);
            let value = unquote_chars(&trim_chars(&v));
            Some((string_from_chars(&key), string_from_chars(&value)))
        },
        None => None,
    }
}

/// Reads the operating system's name from os-release text (see `os_name`).
pub fn parse_os_release(input: &str) -> (r: Option<String>)
    ensures
        match r {
            Some(s) => os_name(input@) == Some(s@),
            None => os_name(input@) is None,
        },
{
    let chars = str_chars(input);
    let ls = lines_of(&chars);
    let ghost lv = views(ls@);
    let mut values: Vec<(String, String)> = Vec::new();
    let mut i: usize = 0;
    while i < ls.len()
        invariant
            i <= ls.len(),
            lv == views(ls@),
            pair_views(values@) == assignments(lv.take(i as int)),
        decreases ls.len() - i,
    {
        assert(lv.take(i + 1).drop_last() =~= lv.take(i as int));
        assert(lv.take(i + 1).last() == ls@[i as int]@);
        let ghost before = pair_views(values@);
        match assignment_of(&ls[i]) {
            Some(p) => {
                values.push(p);
                assert(pair_views(values@) =~= before.push((p.0@, p.1@)));
            },
            None => {},
        }
        i = i + 1;
    }
    assert(lv.take(ls.len() as int) =~= lv);
    let v = match super::keyvalue::field_value(&values, "PRETTY_NAME") {
        Some(v) => Some(v),
        None => super::keyvalue::field_value(&values, "NAME"),
    };
    match v {
        Some(v) => {
            let c = str_chars(v.as_str());
            if c.len() > 0 {
                Some(v.clone())
            } else {
                None
            }
        },
        None => None,
    }
}

} // verus!
