//! Fixed-point arithmetic for actuarial rates and amounts.
//!
//! Every rate, discount factor and monetary amount in this crate is an
//! integer count of billionths: the value `FX_ONE` stands for 1.0.  All
//! operations round toward zero on non-negative operands, and every
//! executable operation is proved equal to its specification-level
//! counterpart, so projections are deterministic by construction.

use vstd::arithmetic::div_mod::{
    lemma_div_is_ordered, lemma_div_multiples_vanish, lemma_div_pos_is_pos,
};
use vstd::arithmetic::mul::{lemma_mul_inequality, lemma_mul_nonnegative};
use vstd::arithmetic::power::{lemma_pow_positive, lemma_square_is_pow2, pow};
use vstd::prelude::*;

verus! {

/// One unit (1.0) in the fixed-point scale: one billion billionths.
pub const FX_ONE: i64 = 1_000_000_000;

/// Fixed-point product, rounded down: `a * b / FX_ONE`.
pub open spec fn fx_mul_v(a: int, b: int) -> int {
    (a * b) / (FX_ONE as int)
}

/// Fixed-point quotient, rounded down: `a * FX_ONE / b`.
pub open spec fn fx_div_v(a: int, b: int) -> int {
    (a * (FX_ONE as int)) / b
}

/// Fixed-point power: `b` multiplied into 1.0 `e` times, rounding at each step.
pub open spec fn fx_pow_v(b: int, e: nat) -> int
    decreases e,
{
    if e == 0 {
        FX_ONE as int
    } else {
        fx_mul_v(fx_pow_v(b, (e - 1) as nat), b)
    }
}

/// Whether every intermediate value of `fx_pow_v(b, 0..=e)` fits in an `i64`.
pub open spec fn fx_pow_fits(b: int, e: nat) -> bool
    decreases e,
{
    if e == 0 {
        true
    } else {
        fx_pow_fits(b, (e - 1) as nat) && fx_pow_v(b, e) <= i64::MAX
    }
}

/// `r` is the floor of the `k`-th root of `x`.
pub open spec fn is_floor_root(r: int, x: int, k: nat) -> bool {
    0 <= r && pow(r, k) <= x && x < pow(r + 1, k)
}

/// The floor of the `k`-th root of `x`.
pub open spec fn floor_root(x: int, k: nat) -> int {
    choose|r: int| is_floor_root(r, x, k)
}

/// Fixed-point square root: the floor root of `x` carried to the scale.
pub open spec fn fx_sqrt_v(x: int) -> int {
    floor_root(x * (FX_ONE as int), 2)
}

/// Fixed-point cube root: the floor root of `x` carried to the scale.
pub open spec fn fx_cbrt_v(x: int) -> int {
    floor_root(x * (FX_ONE as int) * (FX_ONE as int), 3)
}

/// Fixed-point twelfth root, as a cube root followed by two square roots.
pub open spec fn fx_root12_v(x: int) -> int {
    fx_sqrt_v(fx_sqrt_v(fx_cbrt_v(x)))
}

pub proof fn lemma_fx_mul_nonneg(a: int, b: int)
    requires
        0 <= a,
        0 <= b,
    ensures
        0 <= fx_mul_v(a, b),
{
    lemma_mul_nonnegative(a, b);
    lemma_div_pos_is_pos(a * b, FX_ONE as int);
}

pub proof fn lemma_fx_mul_le_left(a: int, b: int)
    requires
        0 <= a,
        0 <= b <= FX_ONE,
    ensures
        fx_mul_v(a, b) <= a,
{
    lemma_mul_inequality(b, FX_ONE as int, a);
    assert(a * b == b * a) by (nonlinear_arith);
    assert(a * (FX_ONE as int) == (FX_ONE as int) * a) by (nonlinear_arith);
    lemma_div_is_ordered(a * b, a * (FX_ONE as int), FX_ONE as int);
    lemma_div_multiples_vanish(a, FX_ONE as int);
}

pub proof fn lemma_fx_mul_unit(a: int, b: int)
    requires
        0 <= a <= FX_ONE,
        0 <= b <= FX_ONE,
    ensures
        0 <= fx_mul_v(a, b) <= FX_ONE,
{
    lemma_fx_mul_nonneg(a, b);
    lemma_fx_mul_le_left(a, b);
}

pub proof fn lemma_fx_div_nonneg(a: int, b: int)
    requires
        0 <= a,
        0 < b,
    ensures
        0 <= fx_div_v(a, b),
{
    lemma_mul_nonnegative(a, FX_ONE as int);
    lemma_div_pos_is_pos(a * (FX_ONE as int), b);
}

pub proof fn lemma_fx_div_le_one(a: int, b: int)
    requires
        0 <= a <= b,
        0 < b,
    ensures
        fx_div_v(a, b) <= FX_ONE,
{
    lemma_mul_inequality(a, b, FX_ONE as int);
    assert(a * (FX_ONE as int) == (FX_ONE as int) * a) by (nonlinear_arith);
    assert(b * (FX_ONE as int) == (FX_ONE as int) * b) by (nonlinear_arith);
    lemma_div_is_ordered(a * (FX_ONE as int), b * (FX_ONE as int), b);
    lemma_div_multiples_vanish(FX_ONE as int, b);
}

pub proof fn lemma_fx_pow_nonneg(b: int, e: nat)
    requires
        0 <= b,
    ensures
        0 <= fx_pow_v(b, e),
    decreases e,
{
    if e > 0 {
        lemma_fx_pow_nonneg(b, (e - 1) as nat);
        lemma_fx_mul_nonneg(fx_pow_v(b, (e - 1) as nat), b);
    }
}

/// A base at most 1.0 keeps every power within [0, 1.0], so such powers
/// always fit in an `i64`.
pub proof fn lemma_fx_pow_unit(b: int, e: nat)
    requires
        0 <= b <= FX_ONE,
    ensures
        0 <= fx_pow_v(b, e) <= FX_ONE,
        fx_pow_fits(b, e),
    decreases e,
{
    if e > 0 {
        lemma_fx_pow_unit(b, (e - 1) as nat);
        lemma_fx_mul_unit(fx_pow_v(b, (e - 1) as nat), b);
    }
}

pub proof fn lemma_fx_pow_fits_monotone(b: int, e1: nat, e2: nat)
    requires
        e1 <= e2,
        fx_pow_fits(b, e2),
    ensures
        fx_pow_fits(b, e1),
    decreases e2,
{
    if e1 < e2 {
        lemma_fx_pow_fits_monotone(b, e1, (e2 - 1) as nat);
    }
}

/// A power of a non-negative base is non-negative.
pub proof fn lemma_pow_nonneg(a: int, k: nat)
    requires
        0 <= a,
    ensures
        0 <= pow(a, k),
    decreases k,
{
    reveal(pow);
    if k > 0 {
        lemma_pow_nonneg(a, (k - 1) as nat);
        vstd::arithmetic::mul::lemma_mul_nonnegative(a, pow(a, (k - 1) as nat));
    }
}

/// Raising the base cannot lower any power of it.
pub proof fn lemma_pow_base_le(a: int, b: int, k: nat)
    requires
        0 <= a <= b,
    ensures
        pow(a, k) <= pow(b, k),
    decreases k,
{
    reveal(pow);
    if k > 0 {
        if b == 0 {
            assert(a == 0);
        } else {
            lemma_pow_base_le(a, b, (k - 1) as nat);
            lemma_pow_positive(b, (k - 1) as nat);
            lemma_pow_nonneg(a, (k - 1) as nat);
            assert(pow(a, k) == a * pow(a, (k - 1) as nat));
            assert(pow(b, k) == b * pow(b, (k - 1) as nat));
            assert(a * pow(a, (k - 1) as nat) <= b * pow(b, (k - 1) as nat))
                by (nonlinear_arith)
                requires
                    0 <= a <= b,
                    0 <= pow(a, (k - 1) as nat) <= pow(b, (k - 1) as nat),
            ;
        }
    }
}

pub proof fn lemma_floor_root_upper(r: int, x: int, c: int, k: nat)
    requires
        is_floor_root(r, x, k),
        x < pow(c, k),
        0 <= c,
    ensures
        r < c,
{
    if r >= c {
        lemma_pow_base_le(c, r, k);
    }
}

pub proof fn lemma_floor_root_lower(r: int, x: int, c: int, k: nat)
    requires
        is_floor_root(r, x, k),
        pow(c, k) <= x,
        0 <= c,
    ensures
        c <= r,
{
    if r < c {
        lemma_pow_base_le(r + 1, c, k);
    }
}

/// Floor roots are unique, so any witness equals `floor_root`.
pub proof fn lemma_floor_root_agrees(r: int, x: int, k: nat)
    requires
        is_floor_root(r, x, k),
    ensures
        floor_root(x, k) == r,
{
    assert(is_floor_root(floor_root(x, k), x, k)) by {
        assert(exists|q: int| is_floor_root(q, x, k));
    }
    let s = floor_root(x, k);
    if s < r {
        lemma_pow_base_le(s + 1, r, k);
    }
    if r < s {
        lemma_pow_base_le(r + 1, s, k);
    }
}

pub proof fn lemma_cube_is_pow3(x: int)
    ensures
        pow(x, 3) == x * x * x,
{
    reveal_with_fuel(pow, 4);
    assert(pow(x, 3) == x * (x * (x * 1)));
    assert(x * (x * (x * 1)) == x * x * x) by (nonlinear_arith);
}

/// Fixed-point multiply of non-negative operands known not to overflow.
pub fn fx_mul(a: i64, b: i64) -> (r: i64)
    requires
        0 <= a,
        0 <= b,
        fx_mul_v(a as int, b as int) <= i64::MAX,
    ensures
        r == fx_mul_v(a as int, b as int),
        0 <= r,
{
    proof {
        assert((a as int) * (b as int) <= 0xffff_ffff_ffff_ffff_ffff_ffff_ffff_ffff)
            by (nonlinear_arith)
            requires
                0 <= a <= i64::MAX,
                0 <= b <= i64::MAX,
        ;
        lemma_fx_mul_nonneg(a as int, b as int);
    }
    let p: u128 = (a as u128) * (b as u128);
    let q: u128 = p / (FX_ONE as u128);
    q as i64
}

/// Fixed-point multiply of non-negative operands, `None` on overflow.
pub fn fx_mul_checked(a: i64, b: i64) -> (r: Option<i64>)
    requires
        0 <= a,
        0 <= b,
    ensures
        r matches Some(v) ==> v == fx_mul_v(a as int, b as int) && 0 <= v,
        r is None <==> fx_mul_v(a as int, b as int) > i64::MAX,
{
    proof {
        assert((a as int) * (b as int) <= 0xffff_ffff_ffff_ffff_ffff_ffff_ffff_ffff)
            by (nonlinear_arith)
            requires
                0 <= a <= i64::MAX,
                0 <= b <= i64::MAX,
        ;
        lemma_fx_mul_nonneg(a as int, b as int);
    }
    let p: u128 = (a as u128) * (b as u128);
    let q: u128 = p / (FX_ONE as u128);
    if q <= i64::MAX as u128 {
        Some(q as i64)
    } else {
        None
    }
}

/// Fixed-point divide of a non-negative numerator by a positive denominator,
/// known not to overflow.
pub fn fx_div(a: i64, b: i64) -> (r: i64)
    requires
        0 <= a,
        0 < b,
        fx_div_v(a as int, b as int) <= i64::MAX,
    ensures
        r == fx_div_v(a as int, b as int),
        0 <= r,
{
    proof {
        assert((a as int) * (FX_ONE as int) <= 0xffff_ffff_ffff_ffff_ffff_ffff_ffff_ffff)
            by (nonlinear_arith)
            requires
                0 <= a <= i64::MAX,
        ;
        lemma_fx_div_nonneg(a as int, b as int);
    }
    let p: u128 = (a as u128) * (FX_ONE as u128);
    let q: u128 = p / (b as u128);
    q as i64
}

/// Fixed-point divide, `None` on overflow.
pub fn fx_div_checked(a: i64, b: i64) -> (r: Option<i64>)
    requires
        0 <= a,
        0 < b,
    ensures
        r matches Some(v) ==> v == fx_div_v(a as int, b as int) && 0 <= v,
        r is None <==> fx_div_v(a as int, b as int) > i64::MAX,
{
    proof {
        assert((a as int) * (FX_ONE as int) <= 0xffff_ffff_ffff_ffff_ffff_ffff_ffff_ffff)
            by (nonlinear_arith)
            requires
                0 <= a <= i64::MAX,
        ;
        lemma_fx_div_nonneg(a as int, b as int);
    }
    let p: u128 = (a as u128) * (FX_ONE as u128);
    let q: u128 = p / (b as u128);
    if q <= i64::MAX as u128 {
        Some(q as i64)
    } else {
        None
    }
}

/// Fixed-point power, `None` as soon as an intermediate value overflows.
pub fn fx_pow(b: i64, e: usize) -> (r: Option<i64>)
    requires
        0 <= b,
    ensures
        r matches Some(v) ==> v == fx_pow_v(b as int, e as nat) && fx_pow_fits(b as int, e as nat)
            && 0 <= v,
        r is None <==> !fx_pow_fits(b as int, e as nat),
{
    let mut acc: i64 = FX_ONE;
    let mut k: usize = 0;
    while k < e
        invariant
            0 <= b,
            k <= e,
            acc == fx_pow_v(b as int, k as nat),
            fx_pow_fits(b as int, k as nat),
            0 <= acc,
        decreases e - k,
    {
        match fx_mul_checked(acc, b) {
            Some(v) => {
                proof {
                    lemma_fx_pow_nonneg(b as int, (k + 1) as nat);
                }
                acc = v;
            },
            None => {
                proof {
                    lemma_fx_pow_fits_monotone_contra(b as int, (k + 1) as nat, e as nat);
                }
                return None;
            },
        }
        k += 1;
    }
    Some(acc)
}

proof fn lemma_fx_pow_fits_monotone_contra(b: int, e1: nat, e2: nat)
    requires
        e1 <= e2,
        !fx_pow_fits(b, e1),
    ensures
        !fx_pow_fits(b, e2),
{
    if fx_pow_fits(b, e2) {
        lemma_fx_pow_fits_monotone(b, e1, e2);
    }
}

/// Fixed-point power of a base at most 1.0, which can never overflow.
pub fn fx_pow_small(b: i64, e: usize) -> (r: i64)
    requires
        0 <= b <= FX_ONE,
    ensures
        r == fx_pow_v(b as int, e as nat),
        0 <= r <= FX_ONE,
{
    proof {
        lemma_fx_pow_unit(b as int, e as nat);
    }
    match fx_pow(b, e) {
        Some(v) => v,
        None => {
            proof {
                assert(false);
            }
            FX_ONE
        },
    }
}

const SQRT_HI: u128 = 0x1_0000_0000_0000_0000;

/// Floor square root by binary search.
fn sqrt_u128(x: u128) -> (r: u128)
    ensures
        is_floor_root(r as int, x as int, 2),
        r < SQRT_HI,
{
    let mut lo: u128 = 0;
    let mut hi: u128 = SQRT_HI;
    proof {
        lemma_square_is_pow2(0);
        lemma_square_is_pow2(SQRT_HI as int);
        assert((SQRT_HI as int) * (SQRT_HI as int) > x as int) by (nonlinear_arith)
            requires
                x < 0x1_0000_0000_0000_0000_0000_0000_0000_0000,
        ;
    }
    while lo + 1 < hi
        invariant
            lo < hi <= SQRT_HI,
            pow(lo as int, 2) <= x as int,
            (x as int) < pow(hi as int, 2),
        decreases hi - lo,
    {
        let mid = lo + (hi - lo) / 2;
        proof {
            lemma_square_is_pow2(mid as int);
            assert((mid as int) * (mid as int)
                <= 0xffff_ffff_ffff_ffff_ffff_ffff_ffff_ffff)
                by (nonlinear_arith)
                requires
                    mid < 0x1_0000_0000_0000_0000,
            ;
        }
        if mid * mid <= x {
            lo = mid;
        } else {
            hi = mid;
        }
    }
    lo
}

const CBRT_HI: u128 = 0x400_0000_0000;

/// Floor cube root by binary search, for arguments below `CBRT_HI` cubed.
fn cbrt_u128(x: u128) -> (r: u128)
    requires
        (x as int) < pow(CBRT_HI as int, 3),
    ensures
        is_floor_root(r as int, x as int, 3),
        r < CBRT_HI,
{
    let mut lo: u128 = 0;
    let mut hi: u128 = CBRT_HI;
    proof {
        lemma_cube_is_pow3(0);
    }
    while lo + 1 < hi
        invariant
            lo < hi <= CBRT_HI,
            pow(lo as int, 3) <= x as int,
            (x as int) < pow(hi as int, 3),
        decreases hi - lo,
    {
        let mid = lo + (hi - lo) / 2;
        proof {
            lemma_cube_is_pow3(mid as int);
            assert((mid as int) * (mid as int) <= 0x10_0000_0000_0000_0000_0000)
                by (nonlinear_arith)
                requires
                    mid <= 0x400_0000_0000,
            ;
            assert((mid as int) * (mid as int) * (mid as int)
                <= 0xffff_ffff_ffff_ffff_ffff_ffff_ffff_ffff)
                by (nonlinear_arith)
                requires
                    mid <= 0x400_0000_0000,
            ;
        }
        if mid * mid * mid <= x {
            lo = mid;
        } else {
            hi = mid;
        }
    }
    lo
}

/// Fixed-point square root of a non-negative value.
pub fn fx_sqrt(x: i64) -> (r: i64)
    requires
        0 <= x,
    ensures
        r == fx_sqrt_v(x as int),
        0 <= r,
{
    proof {
        assert((x as int) * (FX_ONE as int) < 19_807_040_628_566_084_398_385_987_584)
            by (nonlinear_arith)
            requires
                0 <= x <= i64::MAX,
                FX_ONE == 1_000_000_000,
        ;
    }
    let p: u128 = (x as u128) * (FX_ONE as u128);
    let r = sqrt_u128(p);
    proof {
        lemma_floor_root_agrees(r as int, p as int, 2);
        lemma_square_is_pow2(0x8000_0000_0000);
        assert(0x8000_0000_0000 * 0x8000_0000_0000 == 19_807_040_628_566_084_398_385_987_584int)
            by (nonlinear_arith);
        lemma_floor_root_upper(r as int, p as int, 0x8000_0000_0000, 2);
    }
    r as i64
}

/// Fixed-point cube root of a non-negative value.
pub fn fx_cbrt(x: i64) -> (r: i64)
    requires
        0 <= x,
    ensures
        r == fx_cbrt_v(x as int),
        0 <= r,
{
    proof {
        lemma_cube_is_pow3(CBRT_HI as int);
        assert((x as int) * (FX_ONE as int) * (FX_ONE as int)
            < (CBRT_HI as int) * (CBRT_HI as int) * (CBRT_HI as int))
            by (nonlinear_arith)
            requires
                0 <= x <= i64::MAX,
                FX_ONE == 1_000_000_000,
                CBRT_HI == 0x400_0000_0000,
        ;
        assert((CBRT_HI as int) * (CBRT_HI as int) * (CBRT_HI as int)
            <= 340_282_366_920_938_463_463_374_607_431_768_211_455int)
            by (nonlinear_arith)
            requires
                CBRT_HI == 0x400_0000_0000,
        ;
    }
    let p: u128 = (x as u128) * (FX_ONE as u128) * (FX_ONE as u128);
    let r = cbrt_u128(p);
    proof {
        lemma_floor_root_agrees(r as int, p as int, 3);
        lemma_square_is_pow2(r as int);
    }
    r as i64
}

/// Fixed-point twelfth root of a non-negative value.
pub fn fx_root12(x: i64) -> (r: i64)
    requires
        0 <= x,
    ensures
        r == fx_root12_v(x as int),
        0 <= r,
{
    let c = fx_cbrt(x);
    let s1 = fx_sqrt(c);
    fx_sqrt(s1)
}

/// The twelfth root of a value in [0, 1.0] stays in [0, 1.0].
pub proof fn lemma_fx_root12_unit(x: int)
    requires
        0 <= x <= FX_ONE,
    ensures
        0 <= fx_root12_v(x) <= FX_ONE,
{
    let s = FX_ONE as int;
    lemma_root_step_unit_cube(x);
    lemma_root_step_unit_square(fx_cbrt_v(x));
    lemma_root_step_unit_square(fx_sqrt_v(fx_cbrt_v(x)));
}

proof fn lemma_root_step_unit_square(x: int)
    requires
        0 <= x <= FX_ONE,
    ensures
        0 <= fx_sqrt_v(x) <= FX_ONE,
{
    let s = FX_ONE as int;
    let p = x * s;
    lemma_floor_root_exists(p, 2);
    let r = floor_root(p, 2);
    assert(is_floor_root(r, p, 2)) by {
        assert(exists|q: int| is_floor_root(q, p, 2));
    }
    lemma_square_is_pow2(s + 1);
    assert(p < (s + 1) * (s + 1)) by (nonlinear_arith)
        requires
            0 <= x <= s,
            s == 1_000_000_000,
            p == x * s,
    ;
    lemma_floor_root_upper(r, p, s + 1, 2);
}

proof fn lemma_root_step_unit_cube(x: int)
    requires
        0 <= x <= FX_ONE,
    ensures
        0 <= fx_cbrt_v(x) <= FX_ONE,
{
    let s = FX_ONE as int;
    let p = x * s * s;
    assert(p >= 0) by (nonlinear_arith)
        requires
            0 <= x,
            s > 0,
            p == x * s * s,
    ;
    lemma_floor_root_exists(p, 3);
    let r = floor_root(p, 3);
    assert(is_floor_root(r, p, 3)) by {
        assert(exists|q: int| is_floor_root(q, p, 3));
    }
    lemma_cube_is_pow3(s + 1);
    assert(p < (s + 1) * (s + 1) * (s + 1)) by (nonlinear_arith)
        requires
            0 <= x <= s,
            s == 1_000_000_000,
            p == x * s * s,
    ;
    lemma_floor_root_upper(r, p, s + 1, 3);
}

/// The twelfth root of a value at least 1.0 is at least 1.0.
pub proof fn lemma_fx_root12_ge_one(x: int)
    requires
        FX_ONE <= x,
    ensures
        FX_ONE <= fx_root12_v(x),
{
    lemma_root_step_ge_one_cube(x);
    lemma_root_step_ge_one_square(fx_cbrt_v(x));
    lemma_root_step_ge_one_square(fx_sqrt_v(fx_cbrt_v(x)));
}

proof fn lemma_root_step_ge_one_square(x: int)
    requires
        FX_ONE <= x,
    ensures
        FX_ONE <= fx_sqrt_v(x),
{
    let s = FX_ONE as int;
    let p = x * s;
    lemma_floor_root_exists(p, 2);
    let r = floor_root(p, 2);
    assert(is_floor_root(r, p, 2)) by {
        assert(exists|q: int| is_floor_root(q, p, 2));
    }
    lemma_square_is_pow2(s);
    assert(s * s <= p) by (nonlinear_arith)
        requires
            s <= x,
            s == 1_000_000_000,
            p == x * s,
    ;
    lemma_floor_root_lower(r, p, s, 2);
}

proof fn lemma_root_step_ge_one_cube(x: int)
    requires
        FX_ONE <= x,
    ensures
        FX_ONE <= fx_cbrt_v(x),
{
    let s = FX_ONE as int;
    let p = x * s * s;
    assert(p >= 0) by (nonlinear_arith)
        requires
            0 <= x,
            s > 0,
            p == x * s * s,
    ;
    lemma_floor_root_exists(p, 3);
    let r = floor_root(p, 3);
    assert(is_floor_root(r, p, 3)) by {
        assert(exists|q: int| is_floor_root(q, p, 3));
    }
    lemma_cube_is_pow3(s);
    assert(s * s * s <= p) by (nonlinear_arith)
        requires
            s <= x,
            s == 1_000_000_000,
            p == x * s * s,
    ;
    lemma_floor_root_lower(r, p, s, 3);
}

/// For a non-negative argument, `floor_root` denotes a genuine floor
/// root, so its defining inequalities are available.
pub proof fn lemma_floor_root_props(x: int, k: nat)
    requires
        0 <= x,
        1 <= k,
    ensures
        is_floor_root(floor_root(x, k), x, k),
{
    lemma_floor_root_exists(x, k);
    assert(exists|q: int| is_floor_root(q, x, k));
}

/// The twelfth root of a non-negative value is non-negative.
pub proof fn lemma_fx_root12_nonneg(x: int)
    requires
        0 <= x,
    ensures
        0 <= fx_root12_v(x),
        0 <= fx_cbrt_v(x),
        0 <= fx_sqrt_v(fx_cbrt_v(x)),
{
    let s = FX_ONE as int;
    assert(0 <= x * s * s) by (nonlinear_arith)
        requires
            0 <= x,
            s == 1_000_000_000,
    ;
    lemma_floor_root_props(x * s * s, 3);
    let c = fx_cbrt_v(x);
    assert(0 <= c * s) by (nonlinear_arith)
        requires
            0 <= c,
            s == 1_000_000_000,
    ;
    lemma_floor_root_props(c * s, 2);
    let q = fx_sqrt_v(c);
    assert(0 <= q * s) by (nonlinear_arith)
        requires
            0 <= q,
            s == 1_000_000_000,
    ;
    lemma_floor_root_props(q * s, 2);
}

/// Every non-negative integer has a floor `k`-th root for `k >= 1`.
pub proof fn lemma_floor_root_exists(x: int, k: nat)
    requires
        0 <= x,
        1 <= k,
    ensures
        exists|r: int| is_floor_root(r, x, k),
    decreases x,
{
    if x == 0 {
        vstd::arithmetic::power::lemma0_pow(k);
        vstd::arithmetic::power::lemma1_pow(k);
        assert(is_floor_root(0, 0, k));
    } else {
        lemma_floor_root_exists(x - 1, k);
        let y = x - 1;
        let r = choose|r: int| is_floor_root(r, y, k);
        if pow(r + 1, k) <= x {
            assert(pow(r + 1, k) == x);
            lemma_pow_base_le(r + 1, r + 2, k);
            assert(pow(r + 2, k) > x) by {
                lemma_pow_strict_base(r + 1, r + 2, k);
            }
            assert(is_floor_root(r + 1, x, k));
        } else {
            assert(is_floor_root(r, x, k));
        }
    }
}

/// A strictly larger non-negative base gives a strictly larger power, for
/// any positive exponent.
pub proof fn lemma_pow_strict_base(a: int, b: int, k: nat)
    requires
        0 <= a < b,
        1 <= k,
    ensures
        pow(a, k) < pow(b, k),
    decreases k,
{
    reveal(pow);
    if k == 1 {
        assert(pow(a, 1) == a * pow(a, 0));
        assert(pow(b, 1) == b * pow(b, 0));
    } else {
        lemma_pow_strict_base(a, b, (k - 1) as nat);
        lemma_pow_positive(b, (k - 1) as nat);
        lemma_pow_nonneg(a, (k - 1) as nat);
        assert(pow(a, k) == a * pow(a, (k - 1) as nat));
        assert(pow(b, k) == b * pow(b, (k - 1) as nat));
        assert(a * pow(a, (k - 1) as nat) < b * pow(b, (k - 1) as nat))
            by (nonlinear_arith)
            requires
                0 <= a < b,
                0 <= pow(a, (k - 1) as nat) < pow(b, (k - 1) as nat),
                0 < pow(b, (k - 1) as nat),
        ;
    }
}

} // verus!
