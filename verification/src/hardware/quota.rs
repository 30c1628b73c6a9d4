//! A control group CPU quota as a number of CPUs with two decimals, exactly as
//! `format!("{:.2}", quota as f64 / period as f64)` writes it.

use vstd::prelude::*;
use vstd::arithmetic::div_mod::{
    lemma_fundamental_div_mod, lemma_fundamental_div_mod_converse, lemma_mod_pos_bound,
};

use super::format::{as_double, as_double_u128, exact_limit, lemma_two_pow_mono, round_half_even, round_half_even_u128, two_pow};
use crate::text::{decimal, decimal_chars, digit_char, digit_of, owned, push_chars};

verus! {

/// Whether `x / y`, scaled by `2^128 / 2^e`, is below `2^53`: at exponent `e`
/// the quotient fits a double's 53-bit mantissa.
pub open spec fn mantissa_fits(x: nat, y: nat, e: nat) -> bool {
    x * two_pow(128) < exact_limit() * (y * two_pow(e))
}

/// The least exponent, from `e` up to 200, at which `x / y` fits a mantissa.
pub open spec fn quotient_exponent(x: nat, y: nat, e: nat) -> nat
    decreases 200 - e,
{
    if e >= 200 || mantissa_fits(x, y, e) {
        e
    } else {
        quotient_exponent(x, y, e + 1)
    }
}

/// The hundredths of `x / y` as a double: the quotient rounded to 53
/// significant bits, then to hundredths, both ties to even.
pub open spec fn hundredths(x: nat, y: nat) -> nat {
    let e = quotient_exponent(x, y, 0);
    let m = round_half_even(x * two_pow(128), y * two_pow(e));
    round_half_even(m * 100 * two_pow(e), two_pow(128))
}

/// `quota as f64 / period as f64` written with two decimals: `inf` for a zero
/// period (and `NaN` when the quota is zero too).
pub open spec fn quota_text(quota: u64, period: u64) -> Seq<char> {
    if period == 0 {
        if quota == 0 {
            "NaN"@
        } else {
            "inf"@
        }
    } else {
        let h = hundredths(as_double(quota as nat), as_double(period as nat));
        decimal(h / 100) + seq!['.', digit_char((h / 10) % 10), digit_char(h % 10)]
    }
}

/// Powers of two add their exponents when multiplied.
proof fn lemma_two_pow_add(a: nat, b: nat)
    ensures
        two_pow(a + b) == two_pow(a) * two_pow(b),
    decreases a,
{
    if a > 0 {
        let a1 = (a - 1) as nat;
        lemma_two_pow_add(a1, b);
        assert(((a + b - 1) as nat) == a1 + b);
        assert(two_pow(a + b) == 2 * two_pow(a1 + b));
        assert(two_pow(a) == 2 * two_pow(a1));
        let p = two_pow(a1);
        let q = two_pow(b);
        assert(2 * (p * q) == (2 * p) * q) by (nonlinear_arith);
        assert(two_pow(a + b) == two_pow(a) * two_pow(b));
    } else {
        assert(two_pow(0) == 1);
        assert(a + b == b);
    }
}

/// Scaling numerator and denominator alike does not change the rounding.
proof fn lemma_round_scaled(a: nat, b: nat, c: nat)
    requires
        b > 0,
        c > 0,
    ensures
        round_half_even(a * c, b * c) == round_half_even(a, b),
{
    let q = a / b;
    let r = a % b;
    lemma_fundamental_div_mod(a as int, b as int);
    lemma_mod_pos_bound(a as int, b as int);
    assert(a * c == q * (b * c) + r * c) by (nonlinear_arith)
        requires
            a == b * q + r,
    ;
    assert(0 <= r * c < b * c) by (nonlinear_arith)
        requires
            0 <= r < b,
            c > 0,
    ;
    lemma_fundamental_div_mod_converse((a * c) as int, (b * c) as int, q as int, (r * c) as int);
    assert((r * c * 2 > b * c) == (r * 2 > b)) by (nonlinear_arith)
        requires
            c > 0,
    ;
    assert((r * c * 2 == b * c) == (r * 2 == b)) by (nonlinear_arith)
        requires
            c > 0,
    ;
}

/// Rounding a whole number of units gives it back.
proof fn lemma_round_whole(n: nat)
    ensures
        round_half_even(n, 1) == n,
{
}

/// A quotient that fits at `e` fits at every larger exponent.
proof fn lemma_fits_grows(x: nat, y: nat, e: nat, f: nat)
    requires
        e <= f,
        mantissa_fits(x, y, e),
    ensures
        mantissa_fits(x, y, f),
{
    lemma_two_pow_mono(e, f);
    assert(exact_limit() * (y * two_pow(e)) <= exact_limit() * (y * two_pow(f))) by (nonlinear_arith)
        requires
            two_pow(e) <= two_pow(f),
    ;
}

/// The search finds the exponent at which the quotient first fits.
proof fn lemma_exponent_found(x: nat, y: nat, s: nat, e: nat)
    requires
        s <= e <= 200,
        mantissa_fits(x, y, e),
        e > 0 ==> !mantissa_fits(x, y, (e - 1) as nat),
    ensures
        quotient_exponent(x, y, s) == e,
    decreases e - s,
{
    if s < e {
        if mantissa_fits(x, y, s) {
            lemma_fits_grows(x, y, s, (e - 1) as nat);
        }
        lemma_exponent_found(x, y, s + 1, e);
    }
}

/// `2^128` and `2^117`, as numbers.
proof fn lemma_two_pow_values()
    ensures
        two_pow(117) == 0x20_0000_0000_0000_0000_0000_0000_0000,
        two_pow(128) == 0x1_0000_0000_0000_0000_0000_0000_0000_0000,
        two_pow(12) == 4096,
        two_pow(13) == 8192,
{
    reveal_with_fuel(two_pow, 14);
    assert(two_pow(13) == 8192);
    assert(two_pow(11) == 2048);
    lemma_two_pow_add(13, 13);
    assert(two_pow(26) == 0x400_0000);
    lemma_two_pow_add(26, 26);
    assert(two_pow(52) == 0x10_0000_0000_0000);
    lemma_two_pow_add(52, 52);
    assert(two_pow(104) == 0x100_0000_0000_0000_0000_0000_0000);
    lemma_two_pow_add(104, 13);
    assert(two_pow(117) == 0x20_0000_0000_0000_0000_0000_0000_0000);
    lemma_two_pow_add(117, 11);
    assert(two_pow(128) == 0x1_0000_0000_0000_0000_0000_0000_0000_0000);
}

/// When `2^52 <= a / b < 2^53` with `a = x·2^i` and `b = y·2^j` (one of `i`,
/// `j` zero), the quotient `x / y` first fits at exponent `128 + j - i`, and
/// its mantissa there is `a / b` rounded.
proof fn lemma_exponent(x: nat, y: nat, a: nat, b: nat, i: nat, j: nat)
    requires
        x >= 1,
        y >= 1,
        a == x * two_pow(i),
        b == y * two_pow(j),
        0x10_0000_0000_0000 * b <= a < 0x20_0000_0000_0000 * b,
        j > 0 ==> i == 0,
        i < 117,
        j <= 12,
    ensures
        ({
            let e = (128 + j - i) as nat;
            &&& e <= 200
            &&& mantissa_fits(x, y, e)
            &&& e > 0 ==> !mantissa_fits(x, y, (e - 1) as nat)
            &&& round_half_even(x * two_pow(128), y * two_pow(e)) == round_half_even(a, b)
        }),
{
    let e = (128 + j - i) as nat;
    let t = two_pow(128);
    lemma_two_pow_mono(0, 200);
    assert(exact_limit() == 0x20_0000_0000_0000);
    if j > 0 {
        let j1 = (j - 1) as nat;
        lemma_two_pow_add(128, j);
        lemma_two_pow_add(128, j1);
        assert(two_pow(i) == 1);
        assert(a == x) by (nonlinear_arith)
            requires
                a == x * two_pow(i),
                two_pow(i) == 1,
        ;
        assert(e == 128 + j && ((e - 1) as nat) == 128 + j1);
        let pj = two_pow(j);
        let pj1 = two_pow(j1);
        assert(pj == 2 * pj1);
        lemma_two_pow_mono(0, 128);
        assert(x * t < 0x20_0000_0000_0000 * (y * (t * pj))) by (nonlinear_arith)
            requires
                x < 0x20_0000_0000_0000 * (y * pj),
                t >= 1,
        ;
        assert(x * t >= 0x20_0000_0000_0000 * (y * (t * pj1))) by (nonlinear_arith)
            requires
                x >= 0x10_0000_0000_0000 * (y * pj),
                pj == 2 * pj1,
                t >= 1,
        ;
        assert(y * (t * pj) == b * t) by (nonlinear_arith)
            requires
                b == y * pj,
        ;
        lemma_round_scaled(a, b, t);
    } else {
        let d = two_pow((128 - i) as nat);
        let d1 = two_pow((127 - i) as nat);
        lemma_two_pow_add(i, (128 - i) as nat);
        assert(i + ((128 - i) as nat) == 128);
        assert(d == 2 * d1);
        let pi = two_pow(i);
        assert(two_pow(j) == 1);
        assert(b == y) by (nonlinear_arith)
            requires
                b == y * two_pow(j),
                two_pow(j) == 1,
        ;
        lemma_two_pow_mono(0, (127 - i) as nat);
        assert(x * t == a * d) by (nonlinear_arith)
            requires
                t == pi * d,
                a == x * pi,
        ;
        assert(a * d < 0x20_0000_0000_0000 * (y * d)) by (nonlinear_arith)
            requires
                a < 0x20_0000_0000_0000 * y,
                d >= 1,
        ;
        assert(a * d >= 0x20_0000_0000_0000 * (y * d1)) by (nonlinear_arith)
            requires
                a >= 0x10_0000_0000_0000 * y,
                d == 2 * d1,
                d1 >= 1,
        ;
        assert(e == 128 - i && ((e - 1) as nat) == (127 - i) as nat);
        lemma_round_scaled(a, b, d);
    }
}

/// At an exponent of `128 + j`, the hundredths of mantissa `m` are whole.
proof fn lemma_hundredths_whole(m: nat, j: nat)
    ensures
        round_half_even(m * 100 * two_pow(128 + j), two_pow(128)) == m * 100 * two_pow(j),
{
    lemma_two_pow_add(128, j);
    lemma_two_pow_mono(0, 128);
    let t = two_pow(128);
    let pj = two_pow(j);
    let p = two_pow(128 + j);
    let n = m * 100 * pj;
    assert(m * 100 * p == n * t) by (nonlinear_arith)
        requires
            p == t * pj,
            n == m * 100 * pj,
    ;
    lemma_round_scaled(n, 1, two_pow(128));
    lemma_round_whole(n);
}

/// At an exponent of `128 - i`, the hundredths of mantissa `m` are rounded at `2^i`.
proof fn lemma_hundredths_fraction(m: nat, i: nat)
    requires
        i <= 128,
    ensures
        round_half_even(m * 100 * two_pow((128 - i) as nat), two_pow(128)) == round_half_even(
            m * 100,
            two_pow(i),
        ),
{
    let d = two_pow((128 - i) as nat);
    lemma_two_pow_add(i, (128 - i) as nat);
    assert(i + ((128 - i) as nat) == 128);
    lemma_two_pow_mono(0, i);
    lemma_two_pow_mono(0, (128 - i) as nat);
    lemma_round_scaled(m * 100, two_pow(i), d);
}

/// Computes `hundredths` for `1 <= x, y <= 2^64`.
fn quotient_hundredths(x: u128, y: u128) -> (h: u128)
    requires
        1 <= x <= 0x1_0000_0000_0000_0000,
        1 <= y <= 0x1_0000_0000_0000_0000,
    ensures
        h == hundredths(x as nat, y as nat),
{
    let limit: u128 = 0x20_0000_0000_0000;
    let half: u128 = 0x10_0000_0000_0000;
    assert(exact_limit() == limit);
    proof {
        lemma_two_pow_values();
    }
    // Halve the quotient until it is below 2^53 ...
    let mut b: u128 = y;
    let mut pj: u128 = 1;
    let ghost mut j: nat = 0;
    while x >= limit * b
        invariant
            1 <= x <= 0x1_0000_0000_0000_0000,
            1 <= y,
            limit == 0x20_0000_0000_0000,
            half == 0x10_0000_0000_0000,
            pj == two_pow(j),
            b == y * pj,
            1 <= pj <= b <= 0x1_0000_0000_0000_0000,
            pj <= 4096,
            j > 0 ==> x >= half * b,
        decreases x - b,
    {
        assert(b <= 2048) by (nonlinear_arith)
            requires
                x >= 0x20_0000_0000_0000 * b,
                x <= 0x1_0000_0000_0000_0000,
        ;
        assert(y * (pj * 2) == (y * pj) * 2) by (nonlinear_arith);
        assert(pj <= y * pj) by (nonlinear_arith)
            requires
                y >= 1,
        ;
        b = b * 2;
        pj = pj * 2;
        proof {
            j = j + 1;
        }
    }
    // ... then double it until it is at least 2^52.
    let mut a: u128 = x;
    let mut pi: u128 = 1;
    let ghost mut i: nat = 0;
    while a < half * b
        invariant
            1 <= x,
            limit == 0x20_0000_0000_0000,
            half == 0x10_0000_0000_0000,
            pi == two_pow(i),
            a == x * pi,
            1 <= pi <= a,
            a < limit * b,
            b <= 0x1_0000_0000_0000_0000,
            i == 0 ==> a == x,
            j > 0 ==> i == 0,
            j > 0 ==> x >= half * b,
        decreases limit * b - a,
    {
        assert(x * (pi * 2) == (x * pi) * 2) by (nonlinear_arith);
        a = a * 2;
        pi = pi * 2;
        proof {
            i = i + 1;
        }
    }
    let ghost e: nat = (128 + j - i) as nat;
    proof {
        // The exponent is in range.
        if i >= 117 {
            lemma_two_pow_mono(117, i);
        }
        assert(i < 117);
        assert(j <= 12) by {
            if j > 12 {
                lemma_two_pow_mono(13, j);
            }
        }
        lemma_exponent(x as nat, y as nat, a as nat, b as nat, i, j);
        lemma_exponent_found(x as nat, y as nat, 0, e);
    }
    let m = round_half_even_u128(a, b);
    assert(m <= limit) by {
        assert(a / b < limit) by (nonlinear_arith)
            requires
                a < limit * b,
                b > 0,
        ;
    }
    proof {
        if j > 0 {
            lemma_two_pow_mono(1, j);
            assert(two_pow(1) == 2);
        }
    }
    if pj > 1 {
        assert(m * 100 * pj <= 0x20_0000_0000_0000 * 100 * 4096) by (nonlinear_arith)
            requires
                m <= 0x20_0000_0000_0000,
                pj <= 4096,
        ;
        let h = m * 100 * pj;
        proof {
            lemma_hundredths_whole(m as nat, j);
        }
        h
    } else {
        proof {
            lemma_hundredths_fraction(m as nat, i);
        }
        round_half_even_u128(m * 100, pi)
    }
}

/// Writes a control group CPU quota as a number of CPUs with two decimals (see
/// `quota_text`): `150000` per `100000` gives `1.50`.
pub fn quota_cpus_text(quota: u64, period: u64) -> (s: String)
    ensures
        s@ == quota_text(quota, period),
{
    if period == 0 {
        return if quota == 0 {
            owned("NaN")
        } else {
            owned("inf")
        };
    }
    let y = as_double_u128(period);
    let h: u128 = if quota == 0 {
        proof {
            assert(as_double(0) == 0) by {
                assert(super::format::dropped_bits(0) == 0);
                assert(two_pow(0) == 1);
                assert(round_half_even(0, 1) == 0);
            }
            lemma_two_pow_mono(0, 128);
            assert(mantissa_fits(0, y as nat, 0)) by {
                assert(two_pow(0) == 1);
            }
            assert(quotient_exponent(0, y as nat, 0) == 0);
            let t = two_pow(128);
            assert(0 * t == 0);
            assert(round_half_even(0, (y as nat) * two_pow(0)) == 0) by {
                assert((y as nat) * two_pow(0) == y);
                assert(0nat / (y as nat) == 0) by (nonlinear_arith)
                    requires
                        y >= 1,
                ;
                assert(0nat % (y as nat) == 0) by (nonlinear_arith)
                    requires
                        y >= 1,
                ;
            }
            assert(round_half_even(0, t) == 0) by {
                assert(0nat / t == 0) by (nonlinear_arith)
                    requires
                        t >= 1,
                ;
                assert(0nat % t == 0) by (nonlinear_arith)
                    requires
                        t >= 1,
                ;
            }
            assert(0 * 100 * two_pow(0) == 0);
            assert(hundredths(0, y as nat) == 0);
        }
        0
    } else {
        let x = as_double_u128(quota);
        quotient_hundredths(x, y)
    };
    assert(h == hundredths(as_double(quota as nat), as_double(period as nat)));
    let mut s = String::new();
    push_chars(&mut s, &decimal_chars(h / 100));
    let tail = ['.', digit_of(((h / 10) % 10) as u8), digit_of((h % 10) as u8)];
    push_chars(&mut s, &tail);
    assert(s@ =~= quota_text(quota, period));
    s
}

} // verus!
