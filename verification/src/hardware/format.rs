//! Human-readable byte counts in binary units.

use vstd::prelude::*;
use vstd::arithmetic::div_mod::{lemma_div_denominator, lemma_fundamental_div_mod};

use crate::text::{decimal, decimal_chars, digit_char, owned, push_chars, push_str};

verus! {

/// `2^n`.
pub open spec fn two_pow(n: nat) -> nat
    decreases n,
{
    if n == 0 {
        1
    } else {
        2 * two_pow((n - 1) as nat)
    }
}

/// `1024^k`.
pub open spec fn pow1024(k: nat) -> nat
    decreases k,
{
    if k == 0 {
        1
    } else {
        1024 * pow1024((k - 1) as nat)
    }
}

/// `2^53`: integers below it convert to `f64` exactly.
pub open spec fn exact_limit() -> nat {
    9007199254740992
}

/// How many low bits of `n` fall outside a 53-bit mantissa.
pub open spec fn dropped_bits(n: nat) -> nat
    decreases n,
{
    if n < exact_limit() {
        0
    } else {
        1 + dropped_bits(n / 2)
    }
}

/// `n / den` rounded to the nearest integer, ties to even.
pub open spec fn round_half_even(num: nat, den: nat) -> nat {
    let q = num / den;
    let r = num % den;
    if r * 2 > den || (r * 2 == den && q % 2 == 1) {
        q + 1
    } else {
        q
    }
}

/// The value of `n as f64`: `n` rounded to 53 significant bits, ties to even.
pub open spec fn as_double(n: nat) -> nat {
    let p = two_pow(dropped_bits(n));
    round_half_even(n, p) * p
}

/// The binary unit that a value of `x` bytes is shown in: the largest `k <= 5`
/// with `x >= 1024^k`, searched upwards from `k`.
pub open spec fn unit_from(x: nat, k: nat) -> nat
    decreases 5 - k,
{
    if k < 5 && x >= pow1024(k + 1) {
        unit_from(x, k + 1)
    } else {
        k
    }
}

/// The name of binary unit `k`.
pub open spec fn unit_name(k: nat) -> Seq<char> {
    if k == 0 {
        "B"@
    } else if k == 1 {
        "KiB"@
    } else if k == 2 {
        "MiB"@
    } else if k == 3 {
        "GiB"@
    } else if k == 4 {
        "TiB"@
    } else {
        "PiB"@
    }
}

/// A byte count for people: below 1024 the exact count in bytes; otherwise the
/// value of `bytes as f64` in the largest binary unit (up to PiB) that keeps it
/// at least 1, with one decimal rounded half to even.
pub open spec fn bytes_text(bytes: u64) -> Seq<char> {
    if bytes < 1024 {
        decimal(bytes as nat) + " B"@
    } else {
        let x = as_double(bytes as nat);
        let k = unit_from(x, 0);
        let tenths = round_half_even(x * 10, pow1024(k));
        decimal(tenths / 10) + seq!['.', digit_char(tenths % 10), ' '] + unit_name(k)
    }
}

/// Computes `round_half_even` on machine integers.
pub(crate) fn round_half_even_u128(num: u128, den: u128) -> (r: u128)
    requires
        0 < den < 0x1000_0000_0000_0000_0000_0000_0000_0000,
        num < 0x1000_0000_0000_0000_0000_0000_0000_0000,
    ensures
        r == round_half_even(num as nat, den as nat),
{
    let q = num / den;
    let r = num % den;
    if r * 2 > den || (r * 2 == den && q % 2 == 1) {
        q + 1
    } else {
        q
    }
}

/// `two_pow` grows with its exponent.
pub(crate) proof fn lemma_two_pow_mono(a: nat, b: nat)
    requires
        a <= b,
    ensures
        two_pow(a) <= two_pow(b),
        two_pow(a) >= 1,
    decreases b,
{
    if b > 0 {
        if a < b {
            lemma_two_pow_mono(a, (b - 1) as nat);
        } else {
            lemma_two_pow_mono((a - 1) as nat, (b - 1) as nat);
        }
    }
}

/// Computes `as_double`.
pub(crate) fn as_double_u128(n: u64) -> (x: u128)
    ensures
        x == as_double(n as nat),
        1 <= n ==> 1 <= x,
        1024 <= n ==> 1024 <= x,
        x <= 0x1_0000_0000_0000_0000,
{
    let mut q: u128 = n as u128;
    let mut p: u128 = 1;
    let ghost mut s: nat = 0;
    assert(two_pow(11) == 2048) by {
        reveal_with_fuel(two_pow, 12);
    }
    while q >= 9007199254740992
        invariant
            p == two_pow(s),
            1 <= p <= 2048,
            q == (n as nat) / (p as nat),
            dropped_bits(n as nat) == s + dropped_bits(q as nat),
            s <= 11,
            two_pow(11) == 2048,
            p > 1 ==> q * 2 >= 9007199254740992,
        decreases q,
    {
        proof {
            lemma_div_denominator(n as int, p as int, 2);
            lemma_fundamental_div_mod(n as int, p as int);
            assert((n as int) % (p as int) >= 0) by {
                vstd::arithmetic::div_mod::lemma_mod_pos_bound(n as int, p as int);
            }
            let qq = q as int;
            let pp = p as int;
            assert(pp * qq <= n);
            assert(pp * 9007199254740992 <= pp * qq) by (nonlinear_arith)
                requires
                    qq >= 9007199254740992,
                    pp >= 1,
            ;
            assert(pp < 2048);
            if s >= 11 {
                lemma_two_pow_mono(11, s);
            }
            lemma_two_pow_mono(s + 1, 11);
        }
        q = q / 2;
        p = p * 2;
        proof {
            s = s + 1;
        }
    }
    proof {
        lemma_fundamental_div_mod(n as int, p as int);
        vstd::arithmetic::div_mod::lemma_mod_pos_bound(n as int, p as int);
    }
    let r = n as u128 - q * p;
    assert(r == (n as nat) % (p as nat));
    let rounded = if r * 2 > p || (r * 2 == p && q % 2 == 1) {
        q + 1
    } else {
        q
    };
    assert(rounded == round_half_even(n as nat, p as nat));
    assert(rounded * p <= 0x1_0000_0000_0000_0000) by (nonlinear_arith)
        requires
            rounded <= 9007199254740992,
            p <= 2048,
    ;
    if 1024 <= n {
        if p == 1 {
            assert(rounded == n);
        } else {
            assert(rounded * p >= 1024) by (nonlinear_arith)
                requires
                    rounded >= q,
                    q * 2 >= 9007199254740992,
                    p >= 1,
            ;
        }
    }
    rounded * p
}

/// Formats a byte count with binary units (see `bytes_text`): `0 B`, `1023 B`,
/// `1.0 KiB`, `1.5 KiB`, and so on up to PiB.
pub fn format_bytes(bytes: u64) -> (s: String)
    ensures
        s@ == bytes_text(bytes),
{
    let mut s = String::new();
    if bytes < 1024 {
        let digits = decimal_chars(bytes as u128);
        push_chars(&mut s, &digits);
        push_str(&mut s, " B");
        return s;
    }
    let x = as_double_u128(bytes);
    assert(pow1024(1) == 1024 && pow1024(2) == 1048576 && pow1024(3) == 1073741824 && pow1024(4)
        == 1099511627776 && pow1024(5) == 1125899906842624) by {
        reveal_with_fuel(pow1024, 6);
    }
    let mut k: usize = 1;
    let mut d: u128 = 1024;
    while k < 5 && x >= d * 1024
        invariant
            1 <= k <= 5,
            d == pow1024(k as nat),
            pow1024(1) == 1024 && pow1024(2) == 1048576 && pow1024(3) == 1073741824 && pow1024(4)
                == 1099511627776 && pow1024(5) == 1125899906842624,
            unit_from(x as nat, 0) == unit_from(x as nat, k as nat),
            x <= 0x1_0000_0000_0000_0000,
        decreases 5 - k,
    {
        d = d * 1024;
        k = k + 1;
    }
    let tenths = round_half_even_u128(x * 10, d);
    assert(tenths <= 0x1000_0000_0000_0000) by {
        assert(((x * 10) as int) / (d as int) <= ((x * 10) as int) / 1024) by {
            vstd::arithmetic::div_mod::lemma_div_is_ordered_by_denominator(
                (x * 10) as int,
                1024,
                d as int,
            );
        }
    }
    let digits = decimal_chars(tenths / 10);
    push_chars(&mut s, &digits);
    push_char_of(&mut s, '.');
    push_char_of(&mut s, crate::text::digit_of((tenths % 10) as u8));
    push_char_of(&mut s, ' ');
    let name = if k == 1 {
        "KiB"
    } else if k == 2 {
        "MiB"
    } else if k == 3 {
        "GiB"
    } else if k == 4 {
        "TiB"
    } else {
        "PiB"
    };
    push_str(&mut s, name);
    assert(s@ =~= bytes_text(bytes));
    s
}

/// Appends one character.
fn push_char_of(s: &mut String, c: char)
    ensures
        final(s)@ == old(s)@.push(c),
{
    let one = [c];
    push_chars(s, &one);
    assert(old(s)@ + one@ =~= old(s)@.push(c));
}

} // verus!
