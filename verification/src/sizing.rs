//! The sizing model: how many bits the filter's array needs and how many
//! probes each operation makes, given an expected item count and a desired
//! false-positive rate in parts per million.
//!
//! The analytical results are `bits = ceil(-n * ln(p) / ln(2)^2)` and
//! `probes = ceil((bits / n) * ln(2))`. Since `-ln(p) / ln(2)^2 ==
//! log2(1/p) / ln(2)`, both are computed here in binary fixed point: a
//! 32-fractional-bit logarithm obtained by the classic shift-and-square
//! method, combined with fixed-point constants for `1/ln(2)` and `ln(2)`.
//! Rounding is always upward, so the filter is never under-provisioned.

use vstd::arithmetic::div_mod::{
    lemma_div_by_self, lemma_div_is_ordered, lemma_div_multiples_vanish_fancy,
    lemma_multiply_divide_lt,
};
use vstd::arithmetic::mul::lemma_mul_inequality;
use vstd::arithmetic::power2::{
    lemma2_to64, lemma_pow2_strictly_increases, lemma_pow2_unfold, pow2,
};
use vstd::prelude::*;

verus! {

/// `1/ln(2)` scaled by `2^32`, rounded to the nearest integer.
pub const RECIP_LN2_Q32: u64 = 6196328019;

/// `ln(2)` scaled by `2^32`, rounded to the nearest integer.
pub const LN2_Q32: u64 = 2977044472;

/// A false-positive rate of 1.0, i.e. one million parts per million.
pub const PPM_WHOLE: u32 = 1000000;

/// `floor(log2(num / den))` for `1 <= den <= num`, found by doubling the
/// denominator until it can double no further without passing `num`.
pub open spec fn ilog2_floor(num: nat, den: nat) -> nat
    recommends
        1 <= den <= num,
    decreases num - den,
{
    if den < 1 || num < 2 * den {
        0
    } else {
        1 + ilog2_floor(num, 2 * den)
    }
}

/// The denominator after the doubling of `ilog2_floor` has finished:
/// `den * 2^ilog2_floor(num, den)`.
pub open spec fn scaled_den(num: nat, den: nat) -> nat
    recommends
        1 <= den <= num,
    decreases num - den,
{
    if den < 1 || num < 2 * den {
        den
    } else {
        scaled_den(num, 2 * den)
    }
}

/// The mantissa of `1/p` normalized to `[1, 2)` and scaled by `2^63`,
/// where `p = ppm / 10^6`.
pub open spec fn lg_norm(ppm: nat) -> nat {
    (1000000 * 9223372036854775808) / scaled_den(1000000, ppm)
}

/// One step of the shift-and-square binary logarithm: square the mantissa,
/// and emit bit 1 (renormalizing) exactly when the square reaches 2.
pub open spec fn lg_step(u: nat) -> (nat, nat) {
    let s = (u * u) / 9223372036854775808;
    if s >= 18446744073709551616 {
        (1, s / 2)
    } else {
        (0, s)
    }
}

/// The fractional log2 bits accumulated after `j` shift-and-square steps
/// from the mantissa `u0`, together with the mantissa those steps leave.
pub open spec fn lg_bits(u0: nat, j: nat) -> (nat, nat)
    decreases j,
{
    if j == 0 {
        (0, u0)
    } else {
        let prev = lg_bits(u0, (j - 1) as nat);
        let st = lg_step(prev.1);
        (2 * prev.0 + st.0, st.1)
    }
}

/// `log2(10^6 / ppm)` in fixed point with 32 fractional bits: the integer
/// part from `ilog2_floor`, the fraction from 32 shift-and-square steps.
pub open spec fn log2_recip_q32(ppm: nat) -> nat {
    ilog2_floor(1000000, ppm) * 4294967296 + lg_bits(lg_norm(ppm), 32).0
}

/// The optimal bit count `ceil(n * log2(1/p) / ln(2))`, evaluated as a
/// ceiling division of the `2^64`-scaled fixed-point product.
pub open spec fn bits_needed_spec(n: nat, ppm: nat) -> nat {
    ((n * (log2_recip_q32(ppm) * RECIP_LN2_Q32) + 18446744073709551615)
        / 18446744073709551616) as nat
}

/// The optimal probe count `ceil((bits / n) * ln(2))`, evaluated as a
/// ceiling division of the `2^32`-scaled fixed-point product.
pub open spec fn probes_needed_spec(n: nat, ppm: nat) -> nat
    recommends
        n >= 1,
{
    (((bits_needed_spec(n, ppm) * LN2_Q32 + n * 4294967296) - 1) / (n * 4294967296) as int) as nat
}

/// `log2(10^6 / fp_ppm)` in Q32 fixed point, by normalize-then-square.
fn log2_recip_fixed(fp_ppm: u32) -> (b: u64)
    requires
        1 <= fp_ppm <= PPM_WHOLE,
    ensures
        b == log2_recip_q32(fp_ppm as nat),
        b < 137438953472,
{
    let mut e: u32 = 0;
    let mut d: u64 = fp_ppm as u64;
    proof {
        lemma2_to64();
    }
    while 2 * d <= 1000000
        invariant
            1 <= d <= 1000000,
            d >= pow2(e as nat),
            e <= 19,
            ilog2_floor(1000000, fp_ppm as nat) == e + ilog2_floor(1000000, d as nat),
            scaled_den(1000000, fp_ppm as nat) == scaled_den(1000000, d as nat),
        decreases 1000000 - d,
    {
        proof {
            lemma2_to64();
            lemma_pow2_unfold((e + 1) as nat);
            if e >= 19 {
                assert(d >= pow2(19));
                assert(false);
            }
        }
        d = 2 * d;
        e = e + 1;
    }
    proof {
        assert(ilog2_floor(1000000, d as nat) == 0);
        assert(scaled_den(1000000, d as nat) == d);
        // 10^6 * 2^63 < d * 2^64 because 10^6 < 2 * d
        assert((1000000 * 9223372036854775808) < (d as nat) * 18446744073709551616)
            by (nonlinear_arith)
            requires
                2 * d > 1000000,
        ;
        lemma_multiply_divide_lt(
            (1000000 * 9223372036854775808) as int,
            d as int,
            18446744073709551616,
        );
    }
    let mut u: u128 = 9223372036854775808000000u128 / (d as u128);
    assert(9223372036854775808000000 == 1000000 * 9223372036854775808);
    assert(u == lg_norm(fp_ppm as nat));
    let mut frac: u64 = 0;
    let mut j: u32 = 0;
    while j < 32
        invariant
            j <= 32,
            u < 18446744073709551616,
            frac < pow2(j as nat),
            (frac as nat, u as nat) == lg_bits(lg_norm(fp_ppm as nat), j as nat),
        decreases 32 - j,
    {
        proof {
            lemma2_to64();
            lemma_pow2_unfold((j + 1) as nat);
            assert((u as nat) * (u as nat) <= 18446744073709551615 * 18446744073709551615)
                by (nonlinear_arith)
                requires
                    u <= 18446744073709551615,
            ;
            lemma_div_is_ordered(
                ((u as nat) * (u as nat)) as int,
                (18446744073709551615 * 18446744073709551615) as int,
                9223372036854775808,
            );
            assert(18446744073709551615 * 18446744073709551615 / 9223372036854775808
                < 36893488147419103232);
        }
        let s: u128 = (u * u) / 9223372036854775808;
        if s >= 18446744073709551616 {
            u = s / 2;
            frac = 2 * frac + 1;
        } else {
            u = s;
            frac = 2 * frac;
        }
        j = j + 1;
    }
    proof {
        lemma2_to64();
        assert(frac < 4294967296);
    }
    let b: u64 = (e as u64) * 4294967296 + frac;
    b
}

/// Computes the optimal number of bits a Bloom filter needs to hold
/// `num_items` items at the false-positive rate `fp_ppm` (in parts per
/// million): `ceil(-n * ln(p) / ln(2)^2)`, rounded up so the filter is
/// never under-provisioned. `num_items == 0` yields 0.
pub fn optimal_bits_needed(num_items: u32, fp_ppm: u32) -> (r: u32)
    requires
        1 <= fp_ppm <= PPM_WHOLE,
        bits_needed_spec(num_items as nat, fp_ppm as nat) <= u32::MAX,
    ensures
        r == bits_needed_spec(num_items as nat, fp_ppm as nat),
{
    let b = log2_recip_fixed(fp_ppm);
    let m: u128 = (b as u128) * 6196328019;
    proof {
        assert((num_items as nat) * (m as nat) <= 4294967295 * (137438953472 * 6196328019))
            by (nonlinear_arith)
            requires
                num_items <= 4294967295,
                m <= 137438953472 * 6196328019,
        ;
    }
    let prod: u128 = (num_items as u128) * m;
    let r128: u128 = (prod + 18446744073709551615) / 18446744073709551616;
    r128 as u32
}

/// Computes the optimal number of hash probes for a Bloom filter holding
/// `num_items` items at the false-positive rate `fp_ppm` (in parts per
/// million): `ceil((bits / n) * ln(2))`, rounded up. Requires a positive
/// item count, since the formula divides by it.
pub fn optimal_num_hash_fns(num_items: u32, fp_ppm: u32) -> (r: u32)
    requires
        num_items >= 1,
        1 <= fp_ppm <= PPM_WHOLE,
        bits_needed_spec(num_items as nat, fp_ppm as nat) <= u32::MAX,
    ensures
        r == probes_needed_spec(num_items as nat, fp_ppm as nat),
{
    let bits = optimal_bits_needed(num_items, fp_ppm);
    let den: u128 = (num_items as u128) * 4294967296;
    proof {
        lemma_mul_inequality(1, num_items as int, 4294967296);
        lemma_mul_inequality(bits as int, 4294967295, 2977044472);
        assert((den as nat) * 4294967296 >= (den as nat) + 18446744069414584320)
            by (nonlinear_arith)
            requires
                den >= 4294967296,
        ;
        lemma_multiply_divide_lt(
            ((bits as nat) * 2977044472 + den - 1) as int,
            den as int,
            4294967296,
        );
    }
    let num: u128 = (bits as u128) * 2977044472 + den - 1;
    let k: u128 = num / den;
    k as u32
}

/// With a false-positive rate no laxer than one half, the optimal bit
/// count is at least the item count: the filter's array then holds at
/// least one bit per expected item, which is what lets the item count
/// serve as the index modulus.
pub proof fn lemma_bits_at_least_items(n: nat, ppm: nat)
    requires
        1 <= ppm <= 500000,
    ensures
        bits_needed_spec(n, ppm) >= n,
{
    assert(ilog2_floor(1000000, ppm) >= 1);
    let lg = log2_recip_q32(ppm);
    assert(lg >= 4294967296) by {
        lemma_mul_inequality(1, ilog2_floor(1000000, ppm) as int, 4294967296);
    }
    let m = lg * RECIP_LN2_Q32;
    assert(m >= 18446744073709551616) by {
        lemma_mul_inequality(4294967296, lg as int, 6196328019);
        assert(4294967296 * 6196328019 >= 18446744073709551616);
    }
    assert(n * m >= n * 18446744073709551616) by (nonlinear_arith)
        requires
            m >= 18446744073709551616,
    ;
    lemma_div_is_ordered(
        (n * 18446744073709551616 + 18446744073709551615) as int,
        (n * m + 18446744073709551615) as int,
        18446744073709551616,
    );
    lemma_div_multiples_vanish_fancy(n as int, 18446744073709551615, 18446744073709551616);
}

/// At least one probe is always prescribed: the probe-count formula is a
/// ceiling of a positive quantity whenever any bits are needed at all.
pub proof fn lemma_probes_at_least_one(n: nat, ppm: nat)
    requires
        n >= 1,
        bits_needed_spec(n, ppm) >= 1,
    ensures
        probes_needed_spec(n, ppm) >= 1,
{
    let m = bits_needed_spec(n, ppm);
    let den = n * 4294967296;
    assert(den >= 4294967296) by {
        lemma_mul_inequality(1, n as int, 4294967296);
    }
    assert(m * LN2_Q32 >= 2977044472) by {
        lemma_mul_inequality(1, m as int, 2977044472);
    }
    lemma_div_is_ordered(den as int, (m * LN2_Q32 + den - 1) as int, den as int);
    lemma_div_by_self(den as int);
}

/// The doubling that defines `ilog2_floor` never passes `num`: the
/// denominator scaled by the found power of two still fits below it.
proof fn lemma_ilog2_floor_scaled(num: nat, den: nat)
    requires
        1 <= den <= num,
    ensures
        den * pow2(ilog2_floor(num, den)) <= num,
    decreases num - den,
{
    let e = ilog2_floor(num, den);
    if num < 2 * den {
        lemma2_to64();
        assert(e == 0);
        assert(den * pow2(0) <= num) by (nonlinear_arith)
            requires
                pow2(0) == 1,
                den <= num,
        ;
    } else {
        lemma_ilog2_floor_scaled(num, 2 * den);
        assert(e == 1 + ilog2_floor(num, 2 * den));
        assert((2 * den) * pow2((e - 1) as nat) <= num);
        lemma_pow2_unfold(e);
        assert(den * pow2(e) <= num) by (nonlinear_arith)
            requires
                e >= 1,
                pow2(e) == 2 * pow2((e - 1) as nat),
                (2 * den) * pow2((e - 1) as nat) <= num,
        ;
    }
}

/// The fractional part of the shift-and-square logarithm is always below
/// `2^j` after `j` steps.
proof fn lemma_lg_bits_bound(u0: nat, j: nat)
    ensures
        lg_bits(u0, j).0 < pow2(j),
    decreases j,
{
    lemma2_to64();
    if j > 0 {
        lemma_lg_bits_bound(u0, (j - 1) as nat);
        lemma_pow2_unfold(j);
    }
}

/// The optimal bit count grows at most linearly in the item count: never
/// more than 29 bits per expected item, for any rate down to one part per
/// million. This is how a caller discharges the `u32` bound that the
/// sizing functions require: for up to a hundred million items the bit
/// count always fits.
pub proof fn lemma_bits_linear_bound(n: nat, ppm: nat)
    requires
        1 <= ppm <= 1000000,
    ensures
        bits_needed_spec(n, ppm) <= 29 * n,
{
    let e = ilog2_floor(1000000, ppm);
    lemma_ilog2_floor_scaled(1000000, ppm);
    assert(pow2(e) <= 1000000) by (nonlinear_arith)
        requires
            ppm >= 1,
            ppm * pow2(e) <= 1000000,
    ;
    lemma2_to64();
    if e >= 20 {
        if e > 20 {
            lemma_pow2_strictly_increases(20, e);
        }
        assert(false);
    }
    lemma_lg_bits_bound(lg_norm(ppm), 32);
    let lg = log2_recip_q32(ppm);
    assert(lg <= 19 * 4294967296 + 4294967295) by {
        lemma_mul_inequality(e as int, 19, 4294967296);
    }
    let m = lg * RECIP_LN2_Q32;
    assert(m <= 85899345919 * 6196328019) by {
        lemma_mul_inequality(lg as int, 85899345919, 6196328019);
    }
    assert(n * m <= n * (29 * 18446744073709551616)) by (nonlinear_arith)
        requires
            m <= 85899345919 * 6196328019,
    ;
    lemma_div_is_ordered(
        (n * m + 18446744073709551615) as int,
        (n * (29 * 18446744073709551616) + 18446744073709551615) as int,
        18446744073709551616,
    );
    lemma_div_multiples_vanish_fancy((29 * n) as int, 18446744073709551615, 18446744073709551616);
    assert(n * (29 * 18446744073709551616) == 18446744073709551616 * (29 * n))
        by (nonlinear_arith);
}

} // verus!
