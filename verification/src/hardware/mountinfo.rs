//! `/proc/self/mountinfo`: the mounted filesystem that holds a path.

use vstd::prelude::*;
use vstd::string::StringSliceAdditionalSpecFns;
use vstd::utf8::{
    char_is_scalar, char_u32_cast, decode_utf8, encode_scalar, encode_utf8, encode_utf8_decode_utf8,
    encode_utf8_valid_utf8, is_scalar, valid_utf8,
};

use super::path::{component_count, components, path_starts_with, starts_with_path};
use crate::text::{
    lines, lines_of, split_once_chars, split_once_seq, str_chars, string_from_chars, views, words,
    words_of,
};

verus! {

/// The text that `String::from_utf8_lossy` makes of `bytes`.
pub uninterp spec fn utf8_lossy_text(bytes: Seq<u8>) -> Seq<char>;

/// Decodes bytes as UTF-8, replacing invalid sequences.
///
/// Wraps `String::from_utf8_lossy`. The contract names the result
/// `utf8_lossy_text(bytes)` and states, as the function's documentation does,
/// that valid UTF-8 decodes to exactly the characters it encodes; how invalid
/// sequences are replaced is left unsaid.
#[verifier::external_body]
fn lossy_string(bytes: &[u8]) -> (s: String)
    ensures
        s@ == utf8_lossy_text(bytes@),
        valid_utf8(bytes@) ==> s@ == decode_utf8(bytes@),
{
    String::from_utf8_lossy(bytes).into_owned()
}

/// Whether `b` is an ASCII octal digit.
pub open spec fn is_octal(b: u8) -> bool {
    48 <= b <= 55
}

/// Whether `b[0..4]` is an escape `\ddd` of a byte: three octal digits with a
/// value below 256.
pub open spec fn octal_escape_at(b: Seq<u8>) -> bool {
    &&& b.len() >= 4
    &&& b[0] == 92
    &&& is_octal(b[1]) && is_octal(b[2]) && is_octal(b[3])
    &&& (b[1] - 48) * 64 + (b[2] - 48) * 8 + (b[3] - 48) < 256
}

/// The byte that an octal escape at the start of `b` stands for.
pub open spec fn octal_value(b: Seq<u8>) -> u8 {
    ((b[1] - 48) * 64 + (b[2] - 48) * 8 + (b[3] - 48)) as u8
}

/// Bytes with each escape `\ddd` replaced by the byte it stands for, read left to right.
pub open spec fn unescape_octal(b: Seq<u8>) -> Seq<u8>
    decreases b.len(),
{
    if b.len() == 0 {
        b
    } else if octal_escape_at(b) {
        seq![octal_value(b)] + unescape_octal(b.skip(4))
    } else {
        seq![b[0]] + unescape_octal(b.drop_first())
    }
}

/// The text that a mountinfo field encodes: its bytes with escapes decoded,
/// read as UTF-8; bytes that are not valid UTF-8 are read with replacements.
pub open spec fn mount_text(field: Seq<char>) -> Seq<char> {
    let b = unescape_octal(encode_utf8(field));
    if valid_utf8(b) {
        decode_utf8(b)
    } else {
        utf8_lossy_text(b)
    }
}

/// Computes `unescape_octal`.
fn unescape_bytes(b: &[u8]) -> (r: Vec<u8>)
    ensures
        r@ == unescape_octal(b@),
{
    let mut out: Vec<u8> = Vec::new();
    let mut i: usize = 0;
    assert(b@.skip(0) =~= b@);
    while i < b.len()
        invariant
            i <= b.len(),
            unescape_octal(b@) == out@ + unescape_octal(b@.skip(i as int)),
        decreases b.len() - i,
    {
        let ghost rest = b@.skip(i as int);
        if b.len() >= 4 && i < b.len() - 3 && b[i] == 92 && 48 <= b[i + 1] && b[i + 1] <= 51 && 48
            <= b[i + 2] && b[i + 2] <= 55 && 48 <= b[i + 3] && b[i + 3] <= 55 {
            let v = ((b[i + 1] - 48) as u32 * 64 + (b[i + 2] - 48) as u32 * 8 + (b[i + 3]
                - 48) as u32) as u8;
            assert(v == octal_value(rest));
            assert(octal_escape_at(rest));
            assert(rest.skip(4) =~= b@.skip(i + 4));
            out.push(v);
            i = i + 4;
        } else {
            proof {
                if octal_escape_at(rest) {
                    assert(rest[1] == b@[i + 1]);
                    assert(rest[2] == b@[i + 2]);
                    assert(rest[3] == b@[i + 3]);
                }
            }
            assert(rest.drop_first() =~= b@.skip(i + 1));
            out.push(b[i]);
            i = i + 1;
        }
    }
    assert(out@ + unescape_octal(b@.skip(b.len() as int)) =~= out@);
    out
}

/// Bytes without a backslash have no escape to decode.
proof fn lemma_unescape_plain(b: Seq<u8>)
    requires
        forall|i: int| 0 <= i < b.len() ==> b[i] != 92,
    ensures
        unescape_octal(b) == b,
    decreases b.len(),
{
    if b.len() > 0 {
        lemma_unescape_plain(b.drop_first());
        assert(seq![b[0]] + b.drop_first() =~= b);
    }
}

/// The UTF-8 encoding of a scalar other than `\` has no backslash byte: a
/// one-byte encoding is the scalar itself, and longer ones use bytes of 0x80
/// and above.
proof fn lemma_scalar_without_backslash(v: u32)
    requires
        is_scalar(v),
        v != 92,
    ensures
        forall|i: int| 0 <= i < encode_scalar(v).len() ==> encode_scalar(v)[i] != 92,
{
    assert(v <= 0x7F ==> (v & 0x7F) as u8 != 92) by (bit_vector)
        requires
            v != 92,
    ;
    assert(forall|x: u8| #[trigger] (0x80u8 | x) != 92u8) by (bit_vector);
    assert(forall|x: u8| #[trigger] (0xC0u8 | x) != 92u8) by (bit_vector);
    assert(forall|x: u8| #[trigger] (0xE0u8 | x) != 92u8) by (bit_vector);
    assert(forall|x: u8| #[trigger] (0xF0u8 | x) != 92u8) by (bit_vector);
}

/// Text without a backslash encodes to bytes without one.
proof fn lemma_encoding_without_backslash(chars: Seq<char>)
    requires
        !chars.contains('\\'),
    ensures
        forall|i: int| 0 <= i < encode_utf8(chars).len() ==> encode_utf8(chars)[i] != 92,
    decreases chars.len(),
{
    if chars.len() > 0 {
        let rest = chars.drop_first();
        assert(!rest.contains('\\')) by {
            if rest.contains('\\') {
                let k = choose|k: int| 0 <= k < rest.len() && rest[k] == '\\';
                assert(chars[k + 1] == '\\');
            }
        }
        lemma_encoding_without_backslash(rest);
        char_is_scalar(chars[0]);
        assert(chars[0] != '\\');
        if (chars[0] as u32) == 92 {
            char_u32_cast(chars[0], 92u32);
            char_u32_cast('\\', 92u32);
        }
        lemma_scalar_without_backslash(chars[0] as u32);
        let first = encode_scalar(chars[0] as u32);
        let all = encode_utf8(chars);
        assert(all == first + encode_utf8(rest));
        assert forall|i: int| 0 <= i < all.len() implies all[i] != 92 by {
            if i < first.len() {
                assert(all[i] == first[i]);
            } else {
                assert(all[i] == encode_utf8(rest)[i - first.len()]);
            }
        }
    }
}

/// Whether the kernel escapes `c` in a mountinfo field: space, tab, line feed
/// and backslash.
pub open spec fn kernel_escaped(c: char) -> bool {
    c == ' ' || c == '\t' || c == '\n' || c == '\\'
}

/// The escape the kernel writes for such a character: a backslash and its
/// three-digit octal code.
pub open spec fn octal_escape(c: char) -> Seq<char> {
    if c == ' ' {
        seq!['\\', '0', '4', '0']
    } else if c == '\t' {
        seq!['\\', '0', '1', '1']
    } else if c == '\n' {
        seq!['\\', '0', '1', '2']
    } else {
        seq!['\\', '1', '3', '4']
    }
}

/// A text as the kernel writes it in a mountinfo field.
pub open spec fn kernel_escape(s: Seq<char>) -> Seq<char>
    decreases s.len(),
{
    if s.len() == 0 {
        s
    } else {
        (if kernel_escaped(s[0]) {
            octal_escape(s[0])
        } else {
            seq![s[0]]
        }) + kernel_escape(s.drop_first())
    }
}

/// Encoding a concatenation encodes its parts.
proof fn lemma_encode_concat(a: Seq<char>, b: Seq<char>)
    ensures
        encode_utf8(a + b) == encode_utf8(a) + encode_utf8(b),
    decreases a.len(),
{
    if a.len() > 0 {
        assert((a + b).drop_first() =~= a.drop_first() + b);
        assert((a + b)[0] == a[0]);
        lemma_encode_concat(a.drop_first(), b);
        assert(encode_utf8(a + b) =~= encode_scalar(a[0] as u32) + (encode_utf8(a.drop_first())
            + encode_utf8(b)));
    } else {
        assert(a + b =~= b);
        assert(encode_utf8(a) =~= Seq::<u8>::empty());
    }
}

/// An ASCII character encodes to its own code.
proof fn lemma_encode_ascii(c: char)
    requires
        (c as u32) < 128,
    ensures
        encode_scalar(c as u32) == seq![(c as u32) as u8],
{
    let v = c as u32;
    assert((v & 0x7F) as u8 == v as u8) by (bit_vector)
        requires
            v < 128,
    ;
}

/// Bytes without a backslash pass through unescaping unchanged.
proof fn lemma_unescape_prefix(p: Seq<u8>, q: Seq<u8>)
    requires
        forall|i: int| 0 <= i < p.len() ==> p[i] != 92,
    ensures
        unescape_octal(p + q) == p + unescape_octal(q),
    decreases p.len(),
{
    if p.len() > 0 {
        let t = p + q;
        assert(t[0] == p[0]);
        assert(t.drop_first() =~= p.drop_first() + q);
        lemma_unescape_prefix(p.drop_first(), q);
        assert(seq![p[0]] + (p.drop_first() + unescape_octal(q)) =~= p + unescape_octal(q));
    } else {
        assert(p + q =~= q);
        assert(p + unescape_octal(q) =~= unescape_octal(q));
    }
}

/// The bytes of an octal escape the kernel writes.
proof fn lemma_escape_bytes(c: char)
    requires
        kernel_escaped(c),
    ensures
        encode_utf8(octal_escape(c)) == seq![92u8, octal_escape(c)[1] as u32 as u8, octal_escape(c)[2] as u32 as u8, octal_escape(c)[3] as u32 as u8],
        octal_escape_at(encode_utf8(octal_escape(c))),
        octal_value(encode_utf8(octal_escape(c))) == (c as u32) as u8,
        (c as u32) < 128,
{
    let e = octal_escape(c);
    reveal_with_fuel(encode_utf8, 5);
    lemma_encode_ascii(e[0]);
    lemma_encode_ascii(e[1]);
    lemma_encode_ascii(e[2]);
    lemma_encode_ascii(e[3]);
    assert(e.drop_first()[0] == e[1]);
    assert(e.drop_first().drop_first()[0] == e[2]);
    assert(e.drop_first().drop_first().drop_first()[0] == e[3]);
    assert(e.drop_first().drop_first().drop_first().drop_first() =~= Seq::<char>::empty());
    assert(encode_utf8(e) =~= seq![92u8, e[1] as u32 as u8, e[2] as u32 as u8, e[3] as u32 as u8]);
}

/// Unescaping the kernel's escaping of a text gives back the text's bytes.
proof fn lemma_escape_unescape(s: Seq<char>)
    ensures
        unescape_octal(encode_utf8(kernel_escape(s))) == encode_utf8(s),
    decreases s.len(),
{
    if s.len() > 0 {
        let c = s[0];
        let rest = s.drop_first();
        lemma_escape_unescape(rest);
        let k = encode_utf8(kernel_escape(rest));
        if kernel_escaped(c) {
            lemma_encode_concat(octal_escape(c), kernel_escape(rest));
            lemma_escape_bytes(c);
            let b = encode_utf8(octal_escape(c));
            let t = b + k;
            assert(t.subrange(0, 4) =~= b);
            assert(octal_escape_at(t));
            assert(octal_value(t) == octal_value(b));
            assert(t.skip(4) =~= k);
            lemma_encode_ascii(c);
            assert(unescape_octal(t) == seq![(c as u32) as u8] + unescape_octal(k));
        } else {
            lemma_encode_concat(seq![c], kernel_escape(rest));
            char_is_scalar(c);
            assert(seq![c].drop_first() =~= Seq::<char>::empty());
            assert(seq![c][0] == c);
            assert(encode_utf8(Seq::<char>::empty()) =~= Seq::<u8>::empty());
            assert(encode_utf8(seq![c]) =~= encode_scalar(c as u32) + encode_utf8(Seq::<char>::empty()));
            assert(encode_utf8(seq![c]) =~= encode_scalar(c as u32));
            if (c as u32) == 92 {
                char_u32_cast(c, 92u32);
                char_u32_cast('\\', 92u32);
            }
            lemma_scalar_without_backslash(c as u32);
            lemma_unescape_prefix(encode_scalar(c as u32), k);
        }
    }
}

/// Decoding undoes the kernel's escaping: for any text, the field the kernel
/// writes for it (space, tab, line feed and backslash as `\040`, `\011`,
/// `\012`, `\134`) unescapes to the text's UTF-8 bytes, which decode exactly
/// to the text.
pub proof fn lemma_kernel_escape_round_trip(s: Seq<char>)
    ensures
        unescape_octal(encode_utf8(kernel_escape(s))) == encode_utf8(s),
        valid_utf8(unescape_octal(encode_utf8(kernel_escape(s)))),
        decode_utf8(unescape_octal(encode_utf8(kernel_escape(s)))) == s,
{
    lemma_escape_unescape(s);
    encode_utf8_valid_utf8(s);
    encode_utf8_decode_utf8(s);
}

/// A mount field reads as the text the kernel escaped into it, and a field
/// without a backslash reads as itself.
pub proof fn lemma_mount_text_of_escaped(s: Seq<char>)
    ensures
        mount_text(kernel_escape(s)) == s,
        !s.contains('\\') ==> mount_text(s) == s,
{
    lemma_kernel_escape_round_trip(s);
    if !s.contains('\\') {
        lemma_encoding_without_backslash(s);
        lemma_unescape_plain(encode_utf8(s));
        encode_utf8_valid_utf8(s);
        encode_utf8_decode_utf8(s);
    }
}

/// Decodes a mountinfo field: escapes `\ddd` (octal, as the kernel writes
/// spaces, tabs and backslashes) become the bytes they stand for, and the
/// bytes are read as UTF-8 with invalid sequences replaced. Decoded bytes that
/// are valid UTF-8 give exactly the text they encode, so a field without a
/// backslash decodes to itself.
pub fn decode_mount_field(value: &str) -> (r: String)
    ensures
        r@ == utf8_lossy_text(unescape_octal(value.spec_bytes())),
        valid_utf8(unescape_octal(value.spec_bytes())) ==> r@ == decode_utf8(
            unescape_octal(value.spec_bytes()),
        ),
        !value@.contains('\\') ==> r@ == value@,
        forall|s: Seq<char>| #[trigger] kernel_escape(s) == value@ ==> r@ == s,
{
    let decoded = unescape_bytes(value.as_bytes());
    proof {
        if !value@.contains('\\') {
            lemma_encoding_without_backslash(value@);
            lemma_unescape_plain(value.spec_bytes());
            encode_utf8_valid_utf8(value@);
            encode_utf8_decode_utf8(value@);
        }
    }
    let r = lossy_string(&decoded);
    proof {
        assert forall|s: Seq<char>| #[trigger] kernel_escape(s) == value@ implies r@ == s by {
            lemma_kernel_escape_round_trip(s);
        }
    }
    r
}

/// `decode_mount_field` on characters.
fn decode_chars(field: &[char]) -> (r: String)
    ensures
        r@ == mount_text(field@),
{
    let s = string_from_chars(field);
    decode_mount_field(s.as_str())
}

/// A mounted filesystem.
#[derive(Debug, Clone, PartialEq, Eq)]
pub struct MountInfo {
    pub mount_point: String,
    pub major_minor: String,
    pub filesystem: String,
    pub device: String,
}

/// What a mount entry holds, as character sequences.
pub struct MountView {
    pub mount_point: Seq<char>,
    pub major_minor: Seq<char>,
    pub filesystem: Seq<char>,
    pub device: Seq<char>,
}

impl View for MountInfo {
    type V = MountView;

    open spec fn view(&self) -> MountView {
        MountView {
            mount_point: self.mount_point@,
            major_minor: self.major_minor@,
            filesystem: self.filesystem@,
            device: self.device@,
        }
    }
}

/// The mount that one mountinfo line describes, if it is well formed (at least
/// five fields before ` - ` and two after it) and its mount point holds `path`.
pub open spec fn mount_entry(path: Seq<char>, line: Seq<char>) -> Option<MountView> {
    match split_once_seq(line, " - "@) {
        None => None,
        Some((left, right)) => {
            let l = words(left);
            let r = words(right);
            if l.len() < 5 || r.len() < 2 {
                None
            } else {
                let mp = mount_text(l[4]);
                if !path_starts_with(path, mp) {
                    None
                } else {
                    Some(
                        MountView {
                            mount_point: mp,
                            major_minor: l[2],
                            filesystem: mount_text(r[0]),
                            device: mount_text(r[1]),
                        },
                    )
                }
            }
        },
    }
}

/// Among the mounts of the given lines that hold `path`, the one with the most
/// mount point components; of equally deep ones, the last.
pub open spec fn deepest_mount(path: Seq<char>, ls: Seq<Seq<char>>) -> Option<MountView>
    decreases ls.len(),
{
    if ls.len() == 0 {
        None
    } else {
        let prev = deepest_mount(path, ls.drop_last());
        match mount_entry(path, ls.last()) {
            None => prev,
            Some(m) => match prev {
                None => Some(m),
                Some(b) => if components(m.mount_point).len() >= components(b.mount_point).len() {
                    Some(m)
                } else {
                    Some(b)
                },
            },
        }
    }
}

/// The mount entry of one line (see `mount_entry`).
fn entry_of_line(path: &[char], line: &[char]) -> (r: Option<MountInfo>)
    ensures
        match r {
            Some(m) => mount_entry(path@, line@) == Some(m@),
            None => mount_entry(path@, line@) is None,
        },
{
    let sep = str_chars(" - ");
    proof {
        reveal_strlit(" - ");
    }
    match split_once_chars(line, &sep) {
        None => None,
        Some((left, right)) => {
            let l = words_of(&left);
            let r = words_of(&right);
            if l.len() < 5 || r.len() < 2 {
                return None;
            }
            assert(views(l@)[4] == l@[4]@);
            assert(views(l@)[2] == l@[2]@);
            assert(views(r@)[0] == r@[0]@);
            assert(views(r@)[1] == r@[1]@);
            let mount_point = decode_chars(&l[4]);
            let mp = str_chars(mount_point.as_str());
            if !starts_with_path(path, &mp) {
                return None;
            }
            Some(
                MountInfo {
                    mount_point,
                    major_minor: string_from_chars(&l[2]),
                    filesystem: decode_chars(&r[0]),
                    device: decode_chars(&r[1]),
                },
            )
        },
    }
}

/// Finds the mounted filesystem that holds `path`: the entry whose mount point
/// is a component-wise prefix of `path` with the most components (the last of
/// equally deep ones). See `deepest_mount`.
pub fn parse_mountinfo(path: &str, input: &str) -> (r: Option<MountInfo>)
    ensures
        match r {
            Some(m) => deepest_mount(path@, lines(input@)) == Some(m@),
            None => deepest_mount(path@, lines(input@)) is None,
        },
{
    let path_chars = str_chars(path);
    let chars = str_chars(input);
    let ls = lines_of(&chars);
    let ghost lv = views(ls@);
    let mut best: Option<MountInfo> = None;
    let mut best_depth: usize = 0;
    let mut i: usize = 0;
    while i < ls.len()
        invariant
            i <= ls.len(),
            lv == views(ls@),
            path_chars@ == path@,
            match best {
                Some(m) => deepest_mount(path@, lv.take(i as int)) == Some(m@) && best_depth
                    == components(m.mount_point@).len(),
                None => deepest_mount(path@, lv.take(i as int)) is None,
            },
        decreases ls.len() - i,
    {
        assert(lv.take(i + 1).drop_last() =~= lv.take(i as int));
        assert(lv.take(i + 1).last() == ls@[i as int]@);
        match entry_of_line(&path_chars, &ls[i]) {
            None => {},
            Some(m) => {
                let depth = component_count(&str_chars(m.mount_point.as_str()));
                match best {
                    None => {
                        best = Some(m);
                        best_depth = depth;
                    },
                    Some(b) => {
                        if depth >= best_depth {
                            best = Some(m);
                            best_depth = depth;
                        } else {
                            best = Some(b);
                        }
                    },
                }
            },
        }
        i = i + 1;
    }
    assert(lv.take(ls.len() as int) =~= lv);
    assert(lv == lines(input@));
    best
}

} // verus!
