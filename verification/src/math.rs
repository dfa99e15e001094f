//! Fixed-point arithmetic: flooring division and a scaled natural logarithm.
//!
//! Dimensionless fixed-point quantities (series terms, logarithms) are held
//! at micro scale: the integer 1_000_000 stands for 1.0.

use vstd::prelude::*;
use vstd::arithmetic::div_mod::{
    lemma_div_is_ordered, lemma_div_multiples_vanish_fancy, lemma_fundamental_div_mod,
    lemma_mod_division_less_than_divisor,
};
use vstd::arithmetic::mul::lemma_mul_is_distributive_add;
use vstd::arithmetic::power2::{lemma_pow2_strictly_increases, lemma2_to64, pow2};

verus! {

/// ln(2) at micro scale.
pub const LN2_MICRO: i64 = 693_147;

/// Flooring division on integers: `-((b + d - 1) / d)` is `(-b) / d`
/// rounded toward negative infinity.
proof fn lemma_neg_div_is_neg_ceil(b: int, d: int)
    requires
        b > 0,
        d > 0,
    ensures
        -((b + d - 1) / d) == (-b) / d,
{
    let q = b / d;
    let r0 = b % d;
    lemma_fundamental_div_mod(b, d);
    lemma_mod_division_less_than_divisor(b, d);
    lemma_mul_is_distributive_add(d, q, 1);
    if r0 == 0 {
        assert(b + d - 1 == d * q + (d - 1));
        lemma_div_multiples_vanish_fancy(q, d - 1, d);
        assert((b + d - 1) / d == q);
        assert(-b == d * (-q) + 0) by {
            assert(d * (-q) == -(d * q)) by (nonlinear_arith);
        }
        lemma_div_multiples_vanish_fancy(-q, 0, d);
    } else {
        assert(b + d - 1 == d * (q + 1) + (r0 - 1));
        lemma_div_multiples_vanish_fancy(q + 1, r0 - 1, d);
        assert((b + d - 1) / d == q + 1);
        assert(-b == d * (-(q + 1)) + (d - r0)) by {
            assert(d * (-(q + 1)) == -(d * (q + 1))) by (nonlinear_arith);
        }
        lemma_div_multiples_vanish_fancy(-(q + 1), d - r0, d);
    }
}

/// Division rounding toward negative infinity, as `/` does on the
/// mathematical integers.
pub fn div_floor_i64(a: i64, d: i64) -> (r: i64)
    requires
        1 <= d <= 0x1000_0000_0000_0000,
        -0x6000_0000_0000_0000 <= a <= 0x6000_0000_0000_0000,
    ensures
        r == a as int / d as int,
        a >= 0 ==> 0 <= r <= a,
        a < 0 ==> a <= r <= 0,
{
    if a >= 0 {
        let q = (a as u64) / (d as u64);
        proof {
            vstd::arithmetic::div_mod::lemma_div_pos_is_pos(a as int, d as int);
            vstd::arithmetic::div_mod::lemma_div_nonincreasing(a as int, d as int);
        }
        q as i64
    } else {
        let b = (-a) as u64;
        let q = (b + (d as u64 - 1)) / (d as u64);
        proof {
            lemma_neg_div_is_neg_ceil(-(a as int), d as int);
            lemma_div_is_ordered(b as int + d - 1, 0x7000_0000_0000_0000, d as int);
            lemma_neg_floor_bounds(-(a as int), d as int);
        }
        -(q as i64)
    }
}

/// The flooring quotient of a negative dividend stays between the
/// dividend and zero.
proof fn lemma_neg_floor_bounds(b: int, d: int)
    requires
        b > 0,
        d > 0,
    ensures
        1 <= (b + d - 1) / d <= b,
{
    assert(b + d - 1 <= b * d) by (nonlinear_arith)
        requires
            b >= 1,
            d >= 1,
    ;
    lemma_div_is_ordered(b + d - 1, b * d, d);
    vstd::arithmetic::div_mod::lemma_div_multiples_vanish(b, d);
    assert(b * d == d * b) by (nonlinear_arith);
    assert(d * 1 + (d - 1) == b + d - 1 || d <= b + d - 1);
    lemma_div_is_ordered(d, b + d - 1, d);
    vstd::arithmetic::div_mod::lemma_div_by_self(d);
}

/// Division rounding toward negative infinity, for wide intermediates.
pub fn div_floor_i128(a: i128, d: i128) -> (r: i128)
    requires
        1 <= d <= 0x1000_0000_0000_0000_0000_0000_0000_0000,
        -0x6000_0000_0000_0000_0000_0000_0000_0000 <= a
            <= 0x6000_0000_0000_0000_0000_0000_0000_0000,
    ensures
        r == a as int / d as int,
        a >= 0 ==> 0 <= r <= a,
        a < 0 ==> a <= r <= 0,
{
    if a >= 0 {
        let q = (a as u128) / (d as u128);
        proof {
            vstd::arithmetic::div_mod::lemma_div_pos_is_pos(a as int, d as int);
            vstd::arithmetic::div_mod::lemma_div_nonincreasing(a as int, d as int);
        }
        q as i128
    } else {
        let b = (-a) as u128;
        let q = (b + (d as u128 - 1)) / (d as u128);
        proof {
            lemma_neg_div_is_neg_ceil(-(a as int), d as int);
            lemma_div_is_ordered(
                b as int + d - 1,
                0x7000_0000_0000_0000_0000_0000_0000_0000,
                d as int,
            );
            lemma_neg_floor_bounds(-(a as int), d as int);
        }
        -(q as i128)
    }
}

/// A dividend within `d * b` of zero divides to within `b` of zero.
pub proof fn lemma_div_bounded(a: int, d: int, b: int)
    requires
        d >= 1,
        b >= 0,
        -(d * b) <= a <= d * b,
    ensures
        -b <= a / d <= b,
{
    lemma_div_is_ordered(a, d * b, d);
    vstd::arithmetic::div_mod::lemma_div_multiples_vanish(b, d);
    assert(a / d <= b);
    lemma_div_is_ordered(-(d * b), a, d);
    vstd::arithmetic::div_mod::lemma_div_multiples_vanish(-b, d);
    assert(d * (-b) == -(d * b)) by (nonlinear_arith);
    assert(-b <= a / d);
}

/// One evaluation of the arctanh series for `ln(v / 100000)` with
/// `v` in (50000, 100000]: `ln x = -2 (z + z^3/3 + z^5/5 + z^7/7)` where
/// `z = (1 - x) / (1 + x)`.
pub open spec fn spec_ln_series_micro(v: int) -> int {
    let z = (100_000 - v) * 1_000_000 / (100_000 + v);
    let z2 = z * z / 1_000_000;
    let z3 = z2 * z / 1_000_000;
    let z5 = z3 * z2 / 1_000_000;
    let z7 = z5 * z2 / 1_000_000;
    -2 * (z + z3 / 3 + z5 / 5 + z7 / 7)
}

/// `ln(rh / 100000)` at micro scale for ratios at most one, by doubling
/// `rh` into (50000, 100000] and subtracting ln 2 once for each doubling.
pub open spec fn spec_ln_ratio_below(rh: int) -> int
    decreases 100_000 - rh,
    when 1 <= rh <= 100_000
{
    if rh > 50_000 {
        spec_ln_series_micro(rh)
    } else {
        spec_ln_ratio_below(2 * rh) - LN2_MICRO
    }
}

/// `ln(rh / 100000)` at micro scale for ratios above one, by halving `rh`
/// into range and adding ln 2 once for each halving.
pub open spec fn spec_ln_ratio_above(rh: int) -> int
    decreases rh,
    when rh >= 1
{
    if rh <= 100_000 {
        spec_ln_ratio_below(rh)
    } else {
        spec_ln_ratio_above(rh / 2) + LN2_MICRO
    }
}

/// `ln(rh / 100000)` at micro scale, for any positive ratio.
pub open spec fn spec_ln_ratio_micro(rh: int) -> int {
    if rh <= 100_000 {
        spec_ln_ratio_below(rh)
    } else {
        spec_ln_ratio_above(rh)
    }
}

/// The series value is never positive on its domain.
proof fn lemma_ln_series_nonpos(v: int)
    requires
        50_000 < v <= 100_000,
    ensures
        spec_ln_series_micro(v) <= 0,
        v == 100_000 ==> spec_ln_series_micro(v) == 0,
{
    let z = (100_000 - v) * 1_000_000 / (100_000 + v);
    vstd::arithmetic::div_mod::lemma_div_pos_is_pos((100_000 - v) * 1_000_000, 100_000 + v);
    assert((100_000 - v) * 1_000_000 >= 0) by (nonlinear_arith)
        requires v <= 100_000;
    let z2 = z * z / 1_000_000;
    assert(z * z >= 0) by (nonlinear_arith);
    vstd::arithmetic::div_mod::lemma_div_pos_is_pos(z * z, 1_000_000);
    let z3 = z2 * z / 1_000_000;
    assert(z2 * z >= 0) by (nonlinear_arith)
        requires z >= 0, z2 >= 0;
    vstd::arithmetic::div_mod::lemma_div_pos_is_pos(z2 * z, 1_000_000);
    let z5 = z3 * z2 / 1_000_000;
    assert(z3 * z2 >= 0) by (nonlinear_arith)
        requires z3 >= 0, z2 >= 0;
    vstd::arithmetic::div_mod::lemma_div_pos_is_pos(z3 * z2, 1_000_000);
    let z7 = z5 * z2 / 1_000_000;
    assert(z5 * z2 >= 0) by (nonlinear_arith)
        requires z5 >= 0, z2 >= 0;
    vstd::arithmetic::div_mod::lemma_div_pos_is_pos(z5 * z2, 1_000_000);
    vstd::arithmetic::div_mod::lemma_div_pos_is_pos(z3, 3);
    vstd::arithmetic::div_mod::lemma_div_pos_is_pos(z5, 5);
    vstd::arithmetic::div_mod::lemma_div_pos_is_pos(z7, 7);
    assert(-2 * (z + z3 / 3 + z5 / 5 + z7 / 7) <= 0) by (nonlinear_arith)
        requires z >= 0, z3 / 3 >= 0, z5 / 5 >= 0, z7 / 7 >= 0;
    if v == 100_000 {
        assert(z == 0) by {
            assert((100_000 - v) * 1_000_000 == 0) by (nonlinear_arith)
                requires v == 100_000;
            vstd::arithmetic::div_mod::lemma_div_of0(100_000 + v);
        }
        assert(z * z == 0) by (nonlinear_arith)
            requires z == 0;
        vstd::arithmetic::div_mod::lemma_div_of0(1_000_000);
        assert(z2 == 0);
        assert(z2 * z == 0) by (nonlinear_arith)
            requires z2 == 0;
        assert(z3 == 0);
        assert(z3 * z2 == 0) by (nonlinear_arith)
            requires z3 == 0;
        assert(z5 == 0);
        assert(z5 * z2 == 0) by (nonlinear_arith)
            requires z5 == 0;
        assert(z7 == 0);
        assert(spec_ln_series_micro(v) == 0);
    }
}

/// The scaled logarithm of a ratio at most one is never positive, and is
/// zero exactly at one.
pub proof fn lemma_ln_ratio_nonpos(rh: int)
    requires
        1 <= rh <= 100_000,
    ensures
        spec_ln_ratio_micro(rh) <= 0,
        spec_ln_ratio_below(rh) <= 0,
        rh == 100_000 ==> spec_ln_ratio_micro(rh) == 0,
    decreases 100_000 - rh,
{
    if rh > 50_000 {
        lemma_ln_series_nonpos(rh);
    } else {
        lemma_ln_ratio_nonpos(2 * rh);
    }
}

/// Computes `spec_ln_ratio_below(rh)`.
fn ln_ratio_le_one(rh: i64) -> (r: i64)
    requires
        1 <= rh <= 100_000,
    ensures
        r == spec_ln_ratio_below(rh as int),
        -20_000_000 <= r <= 0,
{
    let mut v: i64 = rh;
    let mut acc: i64 = 0;
    let ghost mut k: nat = 0;
    proof {
        lemma2_to64();
        assert(rh * pow2(0) == rh) by (nonlinear_arith)
            requires pow2(0) == 1;
    }
    while v <= 50_000
        invariant
            1 <= v <= 100_000,
            v == rh * pow2(k),
            acc == LN2_MICRO * k,
            0 <= acc <= LN2_MICRO * 17,
            spec_ln_ratio_below(rh as int) == spec_ln_ratio_below(v as int) - acc,
            1 <= rh <= 100_000,
        decreases 100_000 - v,
    {
        proof {
            assert(pow2(k) <= v) by (nonlinear_arith)
                requires v == rh * pow2(k), rh >= 1, pow2(k) >= 0;
            lemma2_to64();
            if k >= 17 {
                if k > 17 {
                    lemma_pow2_strictly_increases(17, k);
                }
                assert(pow2(k) >= 131072);
                assert(false);
            }
            assert(rh * pow2(k + 1) == 2 * (rh * pow2(k))) by (nonlinear_arith)
                requires pow2(k + 1) == 2 * pow2(k);
            assert(LN2_MICRO * ((k + 1) as int) == LN2_MICRO * (k as int) + LN2_MICRO)
                by (nonlinear_arith);
            k = k + 1;
        }
        v = v * 2;
        acc = acc + LN2_MICRO;
    }
    // v is now in (50000, 100000]; evaluate the series
    let num: i64 = (100_000 - v) * 1_000_000;
    let den: i64 = 100_000 + v;
    let z: i64 = num / den;
    proof {
        assert(0 <= num <= 50_000_000_000) by (nonlinear_arith)
            requires 50_000 < v <= 100_000, num == (100_000 - v) * 1_000_000;
        vstd::arithmetic::div_mod::lemma_div_pos_is_pos(num as int, den as int);
        lemma_div_is_ordered(num as int, den as int * 1_000_000, den as int);
        vstd::arithmetic::div_mod::lemma_div_multiples_vanish(1_000_000, den as int);
        assert(z as int <= 1_000_000);
    }
    proof {
        lemma_series_term_bounds(z as int);
    }
    let z2: i64 = z * z / 1_000_000;
    let z3: i64 = z2 * z / 1_000_000;
    let z5: i64 = z3 * z2 / 1_000_000;
    let z7: i64 = z5 * z2 / 1_000_000;
    proof {
        vstd::arithmetic::div_mod::lemma_div_pos_is_pos(z3 as int, 3);
        vstd::arithmetic::div_mod::lemma_div_pos_is_pos(z5 as int, 5);
        vstd::arithmetic::div_mod::lemma_div_pos_is_pos(z7 as int, 7);
        lemma_div_is_ordered(z3 as int, 1_000_000, 3);
        lemma_div_is_ordered(z5 as int, 1_000_000, 5);
        lemma_div_is_ordered(z7 as int, 1_000_000, 7);
    }
    let series: i64 = z + z3 / 3 + z5 / 5 + z7 / 7;
    let r = -2 * series - acc;
    proof {
        lemma_ln_series_nonpos(v as int);
        assert(r == spec_ln_ratio_below(v as int) - acc);
    }
    r
}

/// Computes `spec_ln_ratio_micro(rh)`: the scaled logarithm of any
/// positive saturation ratio up to one thousand.
pub fn ln_ratio_micro(rh: i64) -> (r: i64)
    requires
        1 <= rh <= 100_000_000,
    ensures
        r == spec_ln_ratio_micro(rh as int),
        -20_000_000 <= r <= 7_000_000,
        rh <= 100_000 ==> r <= 0,
        rh == 100_000 ==> r == 0,
{
    if rh <= 100_000 {
        let r = ln_ratio_le_one(rh);
        proof {
            if rh == 100_000 {
                lemma_ln_ratio_nonpos(rh as int);
            }
        }
        return r;
    }
    let mut v: i64 = rh;
    let mut acc: i64 = 0;
    let ghost mut k: nat = 0;
    proof {
        lemma2_to64();
        vstd::arithmetic::div_mod::lemma_div_basics_1(rh as int);
        assert(rh as int / pow2(0) as int == rh as int);
    }
    while v > 100_000
        invariant
            1 <= v <= 100_000_000,
            v == rh as int / pow2(k) as int,
            acc == LN2_MICRO * k,
            0 <= acc <= LN2_MICRO * 10,
            spec_ln_ratio_above(rh as int) == spec_ln_ratio_above(v as int) + acc,
            1 <= rh <= 100_000_000,
        decreases v,
    {
        proof {
            vstd::arithmetic::power2::lemma_pow2_pos(k);
            lemma_fundamental_div_mod(rh as int, pow2(k) as int);
            lemma_mod_division_less_than_divisor(rh as int, pow2(k) as int);
            assert(pow2(k) as int * 100_001 <= pow2(k) as int * v) by (nonlinear_arith)
                requires
                    v >= 100_001,
                    pow2(k) >= 1,
            ;
            assert(pow2(k) as int * v <= rh);
            lemma2_to64();
            if k >= 10 {
                if k > 10 {
                    lemma_pow2_strictly_increases(10, k);
                }
                assert(pow2(k) >= 1024);
                assert(pow2(k) as int * 100_001 >= 1024 * 100_001) by (nonlinear_arith)
                    requires pow2(k) as int >= 1024;
                assert(false);
            }
            vstd::arithmetic::div_mod::lemma_div_denominator(rh as int, pow2(k) as int, 2);
            assert(pow2(k + 1) == 2 * pow2(k)) by {
                vstd::arithmetic::power2::lemma_pow2_unfold((k + 1) as nat);
            }
            assert(pow2(k) as int * 2 == pow2(k + 1) as int) by (nonlinear_arith)
                requires pow2(k + 1) == 2 * pow2(k);
            vstd::arithmetic::div_mod::lemma_div_pos_is_pos(v as int, 2);
            assert(LN2_MICRO * ((k + 1) as int) == LN2_MICRO * (k as int) + LN2_MICRO)
                by (nonlinear_arith);
            k = k + 1;
        }
        v = v / 2;
        acc = acc + LN2_MICRO;
    }
    let base = ln_ratio_le_one(v);
    base + acc
}

/// Bounds of the series terms for `z` below one at micro scale.
proof fn lemma_series_term_bounds(z: int)
    requires
        0 <= z <= 1_000_000,
    ensures
        0 <= z * z <= 1_000_000_000_000,
        0 <= (z * z / 1_000_000) * z <= 1_000_000_000_000,
        0 <= ((z * z / 1_000_000) * z / 1_000_000) * (z * z / 1_000_000)
            <= 1_000_000_000_000,
        0 <= (((z * z / 1_000_000) * z / 1_000_000) * (z * z / 1_000_000) / 1_000_000) * (z * z
            / 1_000_000) <= 1_000_000_000_000,
        0 <= z * z / 1_000_000 <= 1_000_000,
        0 <= (z * z / 1_000_000) * z / 1_000_000 <= 1_000_000,
        0 <= ((z * z / 1_000_000) * z / 1_000_000) * (z * z / 1_000_000) / 1_000_000
            <= 1_000_000,
        0 <= (((z * z / 1_000_000) * z / 1_000_000) * (z * z / 1_000_000) / 1_000_000) * (z * z
            / 1_000_000) / 1_000_000 <= 1_000_000,
{
    let z2 = z * z / 1_000_000;
    assert(0 <= z * z <= 1_000_000_000_000) by (nonlinear_arith)
        requires 0 <= z <= 1_000_000;
    vstd::arithmetic::div_mod::lemma_div_pos_is_pos(z * z, 1_000_000);
    lemma_div_is_ordered(z * z, 1_000_000_000_000, 1_000_000);
    lemma_div_exact_million();
    let z3 = z2 * z / 1_000_000;
    assert(0 <= z2 * z <= 1_000_000_000_000) by (nonlinear_arith)
        requires 0 <= z2 <= 1_000_000, 0 <= z <= 1_000_000;
    vstd::arithmetic::div_mod::lemma_div_pos_is_pos(z2 * z, 1_000_000);
    lemma_div_is_ordered(z2 * z, 1_000_000_000_000, 1_000_000);
    let z5 = z3 * z2 / 1_000_000;
    assert(0 <= z3 * z2 <= 1_000_000_000_000) by (nonlinear_arith)
        requires 0 <= z3 <= 1_000_000, 0 <= z2 <= 1_000_000;
    vstd::arithmetic::div_mod::lemma_div_pos_is_pos(z3 * z2, 1_000_000);
    lemma_div_is_ordered(z3 * z2, 1_000_000_000_000, 1_000_000);
    let z7 = z5 * z2 / 1_000_000;
    assert(0 <= z5 * z2 <= 1_000_000_000_000) by (nonlinear_arith)
        requires 0 <= z5 <= 1_000_000, 0 <= z2 <= 1_000_000;
    vstd::arithmetic::div_mod::lemma_div_pos_is_pos(z5 * z2, 1_000_000);
    lemma_div_is_ordered(z5 * z2, 1_000_000_000_000, 1_000_000);
}

/// One trillion divided by one million is one million.
proof fn lemma_div_exact_million()
    ensures
        1_000_000_000_000int / 1_000_000int == 1_000_000int,
{
    vstd::arithmetic::div_mod::lemma_div_multiples_vanish(1_000_000int, 1_000_000int);
}

} // verus!
