//! File-size labels in bytes, kilobytes and megabytes.
//!
//! Sizes of a megabyte and more are shown with one decimal, computed from the
//! size converted to a 64-bit float; the conversion and the decimal rounding
//! are carried out here in exact integer arithmetic.

use vstd::prelude::*;
use crate::text::{decimal, digit_char, u64_to_decimal};

verus! {

pub const KIB: u64 = 1024;
pub const MIB: u64 = 1048576;

/// `2` to the power `e`.
pub open spec fn two_pow(e: nat) -> nat
    decreases e,
{
    if e == 0 { 1 } else { 2 * two_pow((e - 1) as nat) }
}

/// Number of binary digits of `x` (0 for 0).
pub open spec fn bit_length(x: nat) -> nat
    decreases x,
{
    if x == 0 { 0 } else { 1 + bit_length(x / 2) }
}

/// `n / d` rounded to the nearest integer, ties to the even one.
pub open spec fn round_half_even(n: nat, d: nat) -> nat
    recommends
        d > 0,
{
    let q = n / d;
    let r = n % d;
    if 2 * r > d || (2 * r == d && q % 2 == 1) { q + 1 } else { q }
}

/// The value of the 64-bit float nearest to `x` (ties to even), i.e. `x as f64`.
/// Below 2^53 every integer is exact; above, the value is rounded to
/// 53 significant bits.
pub open spec fn f64_of(x: nat) -> nat {
    if x < two_pow(53) {
        x
    } else {
        let s: nat = if bit_length(x) > 53 { (bit_length(x) - 53) as nat } else { 0 };
        round_half_even(x, two_pow(s)) * two_pow(s)
    }
}

/// `n / d` rounded up.
pub open spec fn ceil_div(n: nat, d: nat) -> nat {
    if n % d == 0 { n / d } else { n / d + 1 }
}

/// The label of a size of `bytes` bytes:
/// under 1024 bytes the exact count in bytes; under 1 MiB the number of
/// kilobytes rounded up; from 1 MiB on the number of megabytes with one decimal.
pub open spec fn size_label(bytes: nat) -> Seq<char> {
    if bytes < KIB {
        decimal(bytes) + seq![' ', 'Б']
    } else if bytes < MIB {
        decimal(ceil_div(bytes, KIB as nat)) + seq![' ', 'К', 'Б']
    } else {
        let tenths = round_half_even(f64_of(bytes) * 10, MIB as nat);
        decimal(tenths / 10) + seq!['.', digit_char(tenths % 10), ' ', 'М', 'Б']
    }
}

proof fn lemma_two_pow_64()
    ensures
        two_pow(64) == 0x1_0000_0000_0000_0000,
{
    reveal_with_fuel(two_pow, 65);
}

proof fn lemma_two_pow_53()
    ensures
        two_pow(53) == 0x20_0000_0000_0000,
{
    reveal_with_fuel(two_pow, 54);
}

proof fn lemma_bit_length_bound(x: nat, k: nat)
    requires
        x < two_pow(k),
    ensures
        bit_length(x) <= k,
    decreases k,
{
    if x > 0 {
        assert(k > 0);
        lemma_bit_length_bound(x / 2, (k - 1) as nat);
    }
}

fn bit_length_u64(x: u64) -> (l: u32)
    ensures
        l == bit_length(x as nat),
        l <= 64,
{
    proof {
        lemma_two_pow_64();
        lemma_bit_length_bound(x as nat, 64);
    }
    let mut tmp = x;
    let mut l: u32 = 0;
    while tmp > 0
        invariant
            l + bit_length(tmp as nat) == bit_length(x as nat),
            bit_length(x as nat) <= 64,
        decreases tmp,
    {
        tmp = tmp / 2;
        l = l + 1;
    }
    l
}

fn two_pow_u64(e: u32) -> (p: u64)
    requires
        e <= 16,
    ensures
        p == two_pow(e as nat),
        p <= 65536,
{
    proof {
        reveal_with_fuel(two_pow, 17);
        lemma_two_pow_monotone(0, 16);
    }
    let mut p: u64 = 1;
    let mut i: u32 = 0;
    while i < e
        invariant
            i <= e <= 16,
            p == two_pow(i as nat),
            p <= two_pow(16),
            two_pow(16) == 65536,
        decreases e - i,
    {
        proof {
            reveal_with_fuel(two_pow, 17);
            lemma_two_pow_monotone((i + 1) as nat, 16);
        }
        p = p * 2;
        i = i + 1;
    }
    proof {
        reveal_with_fuel(two_pow, 17);
    }
    p
}

proof fn lemma_two_pow_monotone(a: nat, b: nat)
    requires
        a <= b,
    ensures
        two_pow(a) <= two_pow(b),
        two_pow(a) > 0,
    decreases b,
{
    if a < b {
        lemma_two_pow_monotone(a, (b - 1) as nat);
    } else if a > 0 {
        lemma_two_pow_monotone((a - 1) as nat, (a - 1) as nat);
    }
}

fn round_half_even_u128(n: u128, d: u128) -> (r: u128)
    requires
        d > 0,
        n / d < u128::MAX,
    ensures
        r == round_half_even(n as nat, d as nat),
{
    let q = n / d;
    let rem = n % d;
    if rem > d - rem || (rem == d - rem && q % 2 == 1) {
        q + 1
    } else {
        q
    }
}

/// `bytes as f64`, as an exact integer.
fn f64_of_u64(x: u64) -> (f: u128)
    ensures
        f == f64_of(x as nat),
        f <= x as nat + 65536,
{
    proof {
        lemma_two_pow_53();
    }
    if x < 0x20_0000_0000_0000 {
        x as u128
    } else {
        let l = bit_length_u64(x);
        let s: u32 = if l > 53 { l - 53 } else { 0 };
        let d = two_pow_u64(s);
        proof {
            lemma_two_pow_monotone(s as nat, s as nat);
        }
        let m = round_half_even_u128(x as u128, d as u128);
        proof {
            let q = (x as nat) / (d as nat);
            assert(x as int == (d as int) * (q as int) + (x as nat) % (d as nat)) by {
                vstd::arithmetic::div_mod::lemma_fundamental_div_mod(x as int, d as int);
            }
            assert(m <= q + 1);
            assert((m as int) * (d as int) <= (q as int + 1) * (d as int)) by (nonlinear_arith)
                requires
                    m <= q + 1,
                    d > 0,
            ;
            assert((q as int + 1) * (d as int) == (d as int) * (q as int) + d as int) by (nonlinear_arith);
        }
        m * (d as u128)
    }
}

/// The size label shown for a file of `bytes` bytes ("0 Б", "2 КБ", "1.0 МБ").
pub fn format_size(bytes: u64) -> (s: String)
    ensures
        s@ == size_label(bytes as nat),
{
    proof {
        reveal_strlit(" Б");
        reveal_strlit(" КБ");
        reveal_strlit(" МБ");
        reveal_strlit(".");
    }
    if bytes < KIB {
        let mut s = u64_to_decimal(bytes);
        s.append(" Б");
        s
    } else if bytes < MIB {
        let kb = if bytes % KIB == 0 { bytes / KIB } else { bytes / KIB + 1 };
        let mut s = u64_to_decimal(kb);
        s.append(" КБ");
        s
    } else {
        let f = f64_of_u64(bytes);
        let tenths = round_half_even_u128(f * 10, MIB as u128);
        let whole = (tenths / 10) as u64;
        let frac = (tenths % 10) as u64;
        let mut s = u64_to_decimal(whole);
        s.append(".");
        s.append(crate::text::digit_str(frac));
        s.append(" МБ");
        s
    }
}

} // verus!
