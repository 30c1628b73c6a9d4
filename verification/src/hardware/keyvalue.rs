//! `key: value` lines, as `/proc/meminfo` and `/proc/cpuinfo` write them.

use vstd::prelude::*;

use crate::text::{
    chars_eq, lines, lines_of, lowercase, split_once, split_once_char, str_chars, string_from_chars,
    to_lowercase, trim, trim_chars, views,
};

verus! {

/// The field that one line describes: the text before the first `:`, trimmed
/// and in ASCII lower case, and the trimmed text after it.
pub open spec fn line_field(l: Seq<char>) -> Option<(Seq<char>, Seq<char>)> {
    match split_once(l, ':') {
        Some((k, v)) => Some((lowercase(trim(k)), trim(v))),
        None => None,
    }
}

/// The fields of the given lines, in order; lines without `:` give none.
pub open spec fn fields_of_lines(ls: Seq<Seq<char>>) -> Seq<(Seq<char>, Seq<char>)>
    decreases ls.len(),
{
    if ls.len() == 0 {
        Seq::empty()
    } else {
        let prev = fields_of_lines(ls.drop_last());
        match line_field(ls.last()) {
            Some(f) => prev.push(f),
            None => prev,
        }
    }
}

/// The fields of a text.
pub open spec fn fields_of(s: Seq<char>) -> Seq<(Seq<char>, Seq<char>)> {
    fields_of_lines(lines(s))
}

/// The value of `key`: that of its last field, as a map filled in line order holds it.
pub open spec fn field_get(fs: Seq<(Seq<char>, Seq<char>)>, key: Seq<char>) -> Option<Seq<char>>
    decreases fs.len(),
{
    if fs.len() == 0 {
        None
    } else if fs.last().0 == key {
        Some(fs.last().1)
    } else {
        field_get(fs.drop_last(), key)
    }
}

/// The character sequences that a list of string pairs holds.
pub open spec fn pair_views(v: Seq<(String, String)>) -> Seq<(Seq<char>, Seq<char>)> {
    v.map_values(|p: (String, String)| (p.0@, p.1@))
}

/// The fields of one line.
fn field_of_line(l: &[char]) -> (r: Option<(String, String)>)
    ensures
        match r {
            Some(p) => line_field(l@) == Some((p.0@, p.1@)),
            None => line_field(l@) is None,
        },
{
    match split_once_char(l, ':') {
        Some((k, v)) => {
            let key = to_lowercase(&trim_chars(&k));
            let value = trim_chars(&v);
            Some((string_from_chars(&key), string_from_chars(&value)))
        },
        None => None,
    }
}

/// Parses `key: value` lines: each line with a `:` gives a field whose key is
/// the trimmed, lower-cased text before the first `:` and whose value is the
/// trimmed text after it. Fields are kept in line order; a later field with the
/// same key supersedes an earlier one (see `field_get`).
pub fn parse_key_value_lines(input: &str) -> (r: Vec<(String, String)>)
    ensures
        pair_views(r@) == fields_of(input@),
{
    let chars = str_chars(input);
    key_value_fields(&chars)
}

/// `parse_key_value_lines` on characters.
pub fn key_value_fields(chars: &[char]) -> (r: Vec<(String, String)>)
    ensures
        pair_views(r@) == fields_of(chars@),
{
    let ls = lines_of(chars);
    let ghost lv = views(ls@);
    let mut out: Vec<(String, String)> = Vec::new();
    let mut i: usize = 0;
    while i < ls.len()
        invariant
            i <= ls.len(),
            lv == views(ls@),
            lv == lines(chars@),
            pair_views(out@) == fields_of_lines(lv.take(i as int)),
        decreases ls.len() - i,
    {
        assert(lv.take(i + 1).drop_last() =~= lv.take(i as int));
        assert(lv.take(i + 1).last() == ls@[i as int]@);
        let ghost before = pair_views(out@);
        match field_of_line(&ls[i]) {
            Some(p) => {
                out.push(p);
                assert(pair_views(out@) =~= before.push((p.0@, p.1@)));
            },
            None => {},
        }
        i = i + 1;
    }
    assert(lv.take(ls.len() as int) =~= lv);
    out
}

/// The value of `key` among `fields`: that of the last field with this key.
pub fn field_value<'a>(fields: &'a [(String, String)], key: &str) -> (r: Option<&'a String>)
    ensures
        match r {
            Some(v) => field_get(pair_views(fields@), key@) == Some(v@),
            None => field_get(pair_views(fields@), key@) is None,
        },
{
    let key_chars = str_chars(key);
    let ghost fv = pair_views(fields@);
    let mut i: usize = fields.len();
    assert(fv.take(i as int) =~= fv);
    while i > 0
        invariant
            i <= fields.len(),
            fv == pair_views(fields@),
            key_chars@ == key@,
            field_get(fv, key@) == field_get(fv.take(i as int), key@),
        decreases i,
    {
        assert(fv.take(i as int).drop_last() =~= fv.take(i - 1));
        assert(fv.take(i as int).last() == fv[i - 1]);
        let k = str_chars(fields[i - 1].0.as_str());
        if chars_eq(&k, &key_chars) {
            return Some(&fields[i - 1].1);
        }
        i = i - 1;
    }
    None
}

/// The value of `key` among `fields` when it is not empty (`non_empty_field`).
pub open spec fn non_empty(fs: Seq<(Seq<char>, Seq<char>)>, key: Seq<char>) -> Option<Seq<char>> {
    match field_get(fs, key) {
        Some(v) => if v.len() > 0 {
            Some(v)
        } else {
            None
        },
        None => None,
    }
}

/// A copy of the value of `key` among `fields`, unless it is missing or empty.
pub fn non_empty_field(fields: &[(String, String)], key: &str) -> (r: Option<String>)
    ensures
        match r {
            Some(v) => non_empty(pair_views(fields@), key@) == Some(v@),
            None => non_empty(pair_views(fields@), key@) is None,
        },
{
    match field_value(fields, key) {
        Some(v) => {
            let chars = str_chars(v.as_str());
            if chars.len() > 0 {
                Some(v.clone())
            } else {
                None
            }
        },
        None => None,
    }
}

} // verus!
