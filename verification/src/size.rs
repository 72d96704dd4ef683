//! Drive sizes in gibibytes with one decimal, computed exactly in integers.
//!
//! A size of `b` bytes is shown as the number `b as f64 / 2^30` written with
//! one decimal. Both steps are modelled exactly: the conversion to `f64`
//! keeps 53 significant bits, rounding to nearest with ties to even, and
//! dividing by `2^30` is exact; writing one decimal rounds the exact binary
//! value to the nearest tenth, ties to even.
use vstd::prelude::*;
use vstd::string::*;
use crate::text::{dec, push_char, push_decimal};

verus! {

broadcast use vstd::string::group_string_axioms;

/// `2^k`.
pub open spec fn two_to(k: nat) -> nat
    decreases k,
{
    if k == 0 {
        1
    } else {
        2 * two_to((k - 1) as nat)
    }
}

/// `2^53`: the first integer above the 53-bit significand of an `f64`.
pub open spec fn significand_limit() -> nat {
    0x20_0000_0000_0000
}

/// `2^30` bytes: one gibibyte.
pub open spec fn gib() -> nat {
    0x4000_0000
}

/// The least `e >= k` for which `b / 2^e` fits in 53 bits (capped at 64).
pub open spec fn f64_shift_from(b: nat, k: nat) -> nat
    decreases 64 - k,
{
    if k >= 64 || b / two_to(k) < significand_limit() {
        k
    } else {
        f64_shift_from(b, k + 1)
    }
}

/// `n / d` rounded to the nearest integer, ties to the even one.
pub open spec fn round_half_even(n: nat, d: nat) -> nat {
    let q: nat = n / d;
    let r: nat = n % d;
    if 2 * r > d || (2 * r == d && q % 2 == 1) {
        q + 1
    } else {
        q
    }
}

/// The integer value of `b as f64`.
pub open spec fn as_f64(b: nat) -> nat {
    let e: nat = f64_shift_from(b, 0);
    round_half_even(b, two_to(e)) * two_to(e)
}

/// `b as f64 / 2^30`, rounded to tenths: the number that `{:.1}` writes, times ten.
pub open spec fn gib_tenths(b: nat) -> nat {
    round_half_even(as_f64(b) * 10, gib())
}

/// A number of tenths written with one decimal.
pub open spec fn tenths_text(t: nat) -> Seq<char> {
    dec(t / 10) + seq!['.'] + dec(t % 10)
}

/// `{:.1} GB` of `b as f64 / 2^30`.
pub open spec fn gb_text(b: nat) -> Seq<char> {
    tenths_text(gib_tenths(b)) + " GB"@
}

/// The size column of the selector: `? GB` when the size is unknown or zero.
pub open spec fn size_text(bytes: Option<u64>) -> Seq<char> {
    match bytes {
        Some(b) if b > 0 => gb_text(b as nat),
        _ => "? GB"@,
    }
}

/// Below `2^53` bytes the conversion to `f64` is exact, so the shown size is
/// the byte count in gibibytes rounded to the nearest tenth, ties to even.
pub proof fn law_exact_below_two_to_53(b: nat)
    requires
        b < significand_limit(),
    ensures
        as_f64(b) == b,
        gib_tenths(b) == round_half_even(b * 10, gib()),
{
    assert(two_to(0) == 1);
    assert(b / 1 == b) by (nonlinear_arith);
    assert(f64_shift_from(b, 0) == 0);
    assert(b % 1 == 0) by (nonlinear_arith);
}

/// A whole number of gibibytes (below 8 PiB) shows as that number with `.0`.
pub proof fn law_whole_gibibytes(k: nat)
    requires
        k * gib() < significand_limit(),
    ensures
        gb_text(k * gib()) == dec(k) + ".0 GB"@,
{
    law_exact_below_two_to_53(k * gib());
    let n: nat = k * gib() * 10;
    assert(n / gib() == 10 * k && n % gib() == 0) by (nonlinear_arith)
        requires
            n == k * 0x4000_0000 * 10,
    {
        vstd::arithmetic::div_mod::lemma_fundamental_div_mod_converse(n as int, 0x4000_0000, (10 * k) as int, 0);
    }
    assert(gib_tenths(k * gib()) == 10 * k);
    assert((10 * k) / 10 == k && (10 * k) % 10 == 0) by (nonlinear_arith);
    reveal_strlit(" GB");
    reveal_strlit(".0 GB");
    assert(dec(0) == seq!['0']);
    assert(gb_text(k * gib()) =~= dec(k) + ".0 GB"@);
}

/// Rounding picks the nearest multiple: `r * d` is at most half a step from
/// `n`, and when it is exactly half a step away, `r` is even.
pub proof fn law_round_half_even(n: nat, d: nat)
    requires
        d > 0,
    ensures
        ({
            let r = round_half_even(n, d);
            let diff = n - r * d;
            &&& 2 * diff <= d
            &&& -2 * diff <= d
            &&& (2 * diff == d || -2 * diff == d) ==> r % 2 == 0
        }),
{
    let q = n / d;
    let rem = n % d;
    assert(n == q * d + rem && 0 <= rem < d) by (nonlinear_arith)
        requires
            d > 0,
            q == n / d,
            rem == n % d,
    ;
    assert((q + 1) * d == q * d + d) by (nonlinear_arith);
}

proof fn lemma_two_to_step(k: nat)
    ensures
        two_to(k + 1) == 2 * two_to(k),
        two_to(k) >= 1,
    decreases k,
{
    if k > 0 {
        lemma_two_to_step((k - 1) as nat);
    }
}

proof fn lemma_shift_exit(b: nat, k: nat)
    requires
        k < 64,
        b / two_to(k) < significand_limit(),
    ensures
        f64_shift_from(b, k) == k,
{
}

/// `b / p >= 2^53` with `b < 2^64` leaves `p < 2^11`.
proof fn lemma_small_divisor(b: nat, p: nat)
    requires
        b < 0x1_0000_0000_0000_0000,
        p >= 1,
        b / p >= 0x20_0000_0000_0000,
    ensures
        p < 0x800,
{
    assert(p < 0x800) by (nonlinear_arith)
        requires
            b < 0x1_0000_0000_0000_0000,
            p >= 1,
            b / p >= 0x20_0000_0000_0000,
    {
        if p >= 0x800 {
            assert(b / p * p <= b);
            assert(b / p * p >= 0x20_0000_0000_0000 * 0x800);
        }
    }
}

/// `n / d` rounded to the nearest integer, ties to the even one.
fn round_div_even(n: u128, d: u128) -> (r: u128)
    requires
        d > 0,
    ensures
        r == round_half_even(n as nat, d as nat),
{
    let q: u128 = n / d;
    let rem: u128 = n % d;
    if rem > d - rem || (rem == d - rem && q % 2 == 1) {
        assert(q < n / d + 1);
        assert(q + 1 <= u128::MAX) by (nonlinear_arith)
            requires
                q == n / d,
                d > 0,
                rem == n % d,
                rem > 0,
        {
            assert(q * d + rem == n);
        }
        q + 1
    } else {
        q
    }
}

/// Tenths of a gibibyte in `b as f64 / 2^30`, rounded as `{:.1}` rounds.
pub fn tenths_of_gib(b: u64) -> (t: u128)
    ensures
        t == gib_tenths(b as nat),
{
    let mut p: u128 = 1;
    let mut k: u64 = 0;
    proof {
        reveal_with_fuel(two_to, 1);
    }
    while (b as u128) / p >= 0x20_0000_0000_0000
        invariant
            1 <= p <= 0x800,
            p == two_to(k as nat),
            k <= 11,
            f64_shift_from(b as nat, 0) == f64_shift_from(b as nat, k as nat),
        decreases 0x800 - p,
    {
        proof {
            lemma_small_divisor(b as nat, p as nat);
            lemma_two_to_step(k as nat);
            assert(p < 0x800);
            if k >= 11 {
                assert(two_to(11) == 0x800) by {
                    reveal_with_fuel(two_to, 12);
                }
                assert(two_to(k as nat) >= two_to(11)) by {
                    lemma_two_to_mono(11, k as nat);
                }
            }
        }
        p = p * 2;
        k = k + 1;
    }
    proof {
        lemma_shift_exit(b as nat, k as nat);
    }
    let m: u128 = round_div_even(b as u128, p);
    assert(m <= 0x20_0000_0000_0000) by (nonlinear_arith)
        requires
            m == round_half_even(b as nat, p as nat),
            (b as nat) / (p as nat) < 0x20_0000_0000_0000,
            p >= 1,
    ;
    assert(m * p <= 0x20_0000_0000_0000 * 0x800) by (nonlinear_arith)
        requires
            m <= 0x20_0000_0000_0000,
            p <= 0x800,
    ;
    let v: u128 = m * p;
    round_div_even(v * 10, 0x4000_0000)
}

proof fn lemma_two_to_mono(a: nat, b: nat)
    requires
        a <= b,
    ensures
        two_to(a) <= two_to(b),
    decreases b,
{
    if a < b {
        lemma_two_to_mono(a, (b - 1) as nat);
        lemma_two_to_step((b - 1) as nat);
    }
}

/// Appends a number of tenths with one decimal.
fn push_tenths(out: &mut String, t: u128)
    ensures
        final(out)@ == old(out)@ + tenths_text(t as nat),
{
    push_decimal(out, t / 10);
    push_char(out, '.');
    let ghost mid = out@;
    push_decimal(out, t % 10);
    assert(out@ =~= old(out)@ + tenths_text(t as nat));
}

/// Appends `{:.1} GB` of `b as f64 / 2^30`.
pub fn push_gb(out: &mut String, b: u64)
    ensures
        final(out)@ == old(out)@ + gb_text(b as nat),
{
    let t: u128 = tenths_of_gib(b);
    push_tenths(out, t);
    out.append(" GB");
    assert(out@ =~= old(out)@ + gb_text(b as nat));
}

/// The size column text: `{:.1} GB` of the size in gibibytes, or `? GB` when the
/// size is unknown or zero.
pub fn format_size(bytes: Option<u64>) -> (s: String)
    ensures
        s@ == size_text(bytes),
{
    match bytes {
        Some(b) if b > 0 => {
            let mut s = String::new();
            push_gb(&mut s, b);
            assert(s@ =~= gb_text(b as nat));
            s
        },
        _ => String::from_str("? GB"),
    }
}

} // verus!
