//! Fixed-point scalars and planar vectors.
//!
//! A scalar `v: i64` stands for the real number `v / SCALE`. Division
//! helpers below make the rounding mode of every executable division
//! explicit: `div_trunc` rounds toward zero, `div_floor` rounds down,
//! and `div_ceil_mag` rounds away from zero.

use vstd::prelude::*;

verus! {

/// Number of fixed-point units per whole unit.
pub const SCALE: i64 = 1000;

/// Largest coordinate magnitude the simulation accepts.
pub const POS_LIMIT: i64 = 1_000_000_000;

/// Largest speed (and speed-bound configuration value) magnitude.
pub const SPEED_LIMIT: i64 = 1_000_000;

/// Largest rule-weight configuration value.
pub const WEIGHT_LIMIT: i64 = 1_000_000;

/// Cap applied to each velocity component before the speed clamp,
/// chosen so that the sum of two squared components fits in `i64`.
pub const VEL_CAP: i64 = 2_000_000_000;

/// A point or displacement of the plane, both components fixed-point.
#[derive(Clone, Copy, PartialEq, Eq, Structural, Debug)]
pub struct Vec2i {
    pub x: i64,
    pub y: i64,
}

/// Both components within the world coordinate range.
pub open spec fn pos_in_range(v: Vec2i) -> bool {
    -POS_LIMIT <= v.x <= POS_LIMIT && -POS_LIMIT <= v.y <= POS_LIMIT
}

/// Both components within the velocity range kept between ticks.
pub open spec fn vel_in_range(v: Vec2i) -> bool {
    -SPEED_LIMIT <= v.x <= SPEED_LIMIT && -SPEED_LIMIT <= v.y <= SPEED_LIMIT
}

/// Absolute value.
pub open spec fn abs_s(a: int) -> int {
    if a >= 0 {
        a
    } else {
        -a
    }
}

/// Division rounding toward zero (the rounding of `/` in executable
/// Rust), defined for a positive divisor.
pub open spec fn tdiv(a: int, b: int) -> int
    recommends
        b > 0,
{
    if a >= 0 {
        a / b
    } else {
        -((-a) / b)
    }
}

/// Squared Euclidean distance between two points.
pub open spec fn dist_sq(p: Vec2i, q: Vec2i) -> int {
    let dx = p.x - q.x;
    let dy = p.y - q.y;
    dx * dx + dy * dy
}

/// Squared magnitude of a vector.
pub open spec fn norm_sq(v: Vec2i) -> int {
    v.x * v.x + v.y * v.y
}

/// `r` is the integer square root of `n`.
pub open spec fn is_sqrt(r: int, n: int) -> bool {
    0 <= r && r * r <= n && n < (r + 1) * (r + 1)
}

/// The integer square root (floor of the real square root).
pub open spec fn sqrt_i(n: int) -> int {
    choose|r: int| #[trigger] is_sqrt(r, n)
}

/// Every nonnegative integer has an integer square root.
pub proof fn lemma_sqrt_exists(n: int)
    requires
        n >= 0,
    ensures
        exists|r: int| is_sqrt(r, n),
    decreases n,
{
    if n == 0 {
        assert(is_sqrt(0, 0)) by (nonlinear_arith);
    } else {
        lemma_sqrt_exists(n - 1);
        let r = choose|r: int| #[trigger] is_sqrt(r, n - 1);
        if n < (r + 1) * (r + 1) {
            assert(is_sqrt(r, n));
        } else {
            assert(n == (r + 1) * (r + 1)) by (nonlinear_arith)
                requires
                    is_sqrt(r, n - 1) && n >= (r + 1) * (r + 1),
            ;
            assert(is_sqrt(r + 1, n)) by (nonlinear_arith)
                requires
                    n == (r + 1) * (r + 1) && r >= 0,
            ;
        }
    }
}

/// The integer square root is unique.
pub proof fn lemma_sqrt_unique(r1: int, r2: int, n: int)
    requires
        is_sqrt(r1, n),
        is_sqrt(r2, n),
    ensures
        r1 == r2,
{
    assert(r1 == r2) by (nonlinear_arith)
        requires
            is_sqrt(r1, n) && is_sqrt(r2, n),
    ;
}

/// `sqrt_i(n)` satisfies the square-root bounds for nonnegative `n`.
pub proof fn lemma_sqrt_i(n: int)
    requires
        n >= 0,
    ensures
        is_sqrt(sqrt_i(n), n),
{
    lemma_sqrt_exists(n);
}

/// A component of a vector is bounded by the integer square root of
/// the squared magnitude.
pub proof fn lemma_component_le_sqrt(x: int, y: int, s: int)
    requires
        is_sqrt(s, x * x + y * y),
    ensures
        abs_s(x) <= s,
        abs_s(y) <= s,
{
    assert(abs_s(x) <= s && abs_s(y) <= s) by (nonlinear_arith)
        requires
            is_sqrt(s, x * x + y * y),
    ;
}

/// Dividing a bounded value by a positive divisor keeps the bound.
pub proof fn lemma_div_bounds(a: int, b: int, l: int)
    requires
        b >= 1,
        l >= 0,
        -l <= a <= l,
    ensures
        -l <= a / b <= l,
{
    let q = a / b;
    let r = a % b;
    vstd::arithmetic::div_mod::lemma_fundamental_div_mod(a, b);
    assert(-l <= q <= l) by (nonlinear_arith)
        requires
            b >= 1 && l >= 0 && -l <= a <= l && a == b * q + r && 0 <= r < b,
    ;
}

/// Magnitude bound carried through a truncating division.
pub proof fn lemma_tdiv_bound(a: int, b: int, l: int)
    requires
        b >= 1,
        l >= 0,
        abs_s(a) <= b * l,
    ensures
        abs_s(tdiv(a, b)) <= l,
{
    let u = abs_s(a);
    let q = u / b;
    vstd::arithmetic::div_mod::lemma_fundamental_div_mod(u, b);
    assert(0 <= q <= l) by (nonlinear_arith)
        requires
            b >= 1 && l >= 0 && 0 <= u <= b * l && u == b * q + u % b && 0 <= u % b < b,
    ;
}

/// Absolute value, defined away from the unrepresentable minimum.
pub fn abs_i64(a: i64) -> (r: i64)
    requires
        a > i64::MIN,
    ensures
        r == abs_s(a as int),
{
    if a >= 0 {
        a
    } else {
        -a
    }
}

/// Division rounding toward zero, for a positive divisor.
pub fn div_trunc(a: i64, b: i64) -> (q: i64)
    requires
        b > 0,
        a > i64::MIN,
    ensures
        q == tdiv(a as int, b as int),
{
    if a >= 0 {
        let q0: u64 = (a as u64) / (b as u64);
        q0 as i64
    } else {
        let ua: u64 = (-a) as u64;
        let q0: u64 = ua / (b as u64);
        assert(q0 <= ua);
        -(q0 as i64)
    }
}

/// Division rounding down (toward negative infinity), for a positive
/// divisor; agrees with mathematical integer division.
pub fn div_floor(a: i64, b: i64) -> (q: i64)
    requires
        0 < b <= 1_000_000_000_000,
        -4_000_000_000_000_000_000 <= a <= 4_000_000_000_000_000_000,
    ensures
        q == a as int / b as int,
{
    if a >= 0 {
        let q0: u64 = (a as u64) / (b as u64);
        q0 as i64
    } else {
        let ua: u64 = (-a) as u64;
        let ub: u64 = b as u64;
        let q0: u64 = (ua + ub - 1) / ub;
        proof {
            lemma_neg_ceil_is_floor(a as int, b as int, ua as int, q0 as int);
        }
        -(q0 as i64)
    }
}

/// Rounding the magnitude of `-ua / b` up equals rounding `a / b` down.
proof fn lemma_neg_ceil_is_floor(a: int, b: int, ua: int, q0: int)
    requires
        b > 0,
        a < 0,
        ua == -a,
        q0 == (ua + b - 1) / b,
    ensures
        -q0 == a / b,
{
    let q = ua / b;
    let r = ua % b;
    vstd::arithmetic::div_mod::lemma_fundamental_div_mod(ua, b);
    vstd::arithmetic::div_mod::lemma_fundamental_div_mod(ua + b - 1, b);
    if r == 0 {
        assert(q0 == q) by (nonlinear_arith)
            requires
                b > 0 && ua == b * q && q0 == (ua + b - 1) / b && ua + b - 1 == b * ((ua + b - 1)
                    / b) + ((ua + b - 1) % b) && 0 <= (ua + b - 1) % b < b,
        ;
        assert(a == b * (-q) + 0) by (nonlinear_arith)
            requires
                a == -ua && ua == b * q,
        ;
        vstd::arithmetic::div_mod::lemma_fundamental_div_mod_converse(a, b, -q, 0);
    } else {
        assert(q0 == q + 1) by (nonlinear_arith)
            requires
                b > 0 && ua == b * q + r && 0 < r < b && ua + b - 1 == b * q0 + ((ua + b - 1) % b)
                    && 0 <= (ua + b - 1) % b < b,
        ;
        assert(a == b * (-(q + 1)) + (b - r) && 0 <= b - r < b) by (nonlinear_arith)
            requires
                a == -ua && ua == b * q + r && 0 < r < b,
        ;
        vstd::arithmetic::div_mod::lemma_fundamental_div_mod_converse(a, b, -(q + 1), b - r);
    }
}

/// Division rounding the magnitude up (away from zero), for a
/// positive divisor.
pub open spec fn cdiv_mag(a: int, b: int) -> int
    recommends
        b > 0,
{
    if a >= 0 {
        (a + b - 1) / b
    } else {
        -((-a + b - 1) / b)
    }
}

/// Division rounding the magnitude up, for a positive divisor.
pub fn div_ceil_mag(a: i64, b: i64) -> (q: i64)
    requires
        0 < b <= 1_000_000_000_000,
        -4_000_000_000_000_000_000 <= a <= 4_000_000_000_000_000_000,
    ensures
        q == cdiv_mag(a as int, b as int),
{
    if a >= 0 {
        let q0: u64 = ((a as u64) + (b as u64) - 1) / (b as u64);
        proof {
            lemma_div_bounds(a as int + b as int - 1, b as int, 5_000_000_000_000_000_000);
        }
        q0 as i64
    } else {
        let q0: u64 = (((-a) as u64) + (b as u64) - 1) / (b as u64);
        proof {
            lemma_div_bounds(-(a as int) + b as int - 1, b as int, 5_000_000_000_000_000_000);
        }
        -(q0 as i64)
    }
}

/// Truncating division shrinks the magnitude: `|a/b| * b <= |a|`.
pub proof fn lemma_tdiv_mul_le(a: int, b: int)
    requires
        b >= 1,
    ensures
        abs_s(tdiv(a, b)) * b <= abs_s(a),
        (abs_s(tdiv(a, b)) + 1) * b > abs_s(a),
        abs_s(tdiv(a, b)) >= 0,
{
    let u = abs_s(a);
    vstd::arithmetic::div_mod::lemma_fundamental_div_mod(u, b);
    assert((u / b) * b <= u && (u / b + 1) * b > u && u / b >= 0) by (nonlinear_arith)
        requires
            b >= 1 && u >= 0 && u == b * (u / b) + u % b && 0 <= u % b < b,
    ;
}

/// Magnitude-ceiling division does not shrink: `|cdiv(a,b)| * b >= |a|`,
/// and it overshoots by less than one divisor.
pub proof fn lemma_cdiv_mul_ge(a: int, b: int)
    requires
        b >= 1,
    ensures
        abs_s(cdiv_mag(a, b)) * b >= abs_s(a),
        abs_s(cdiv_mag(a, b)) * b < abs_s(a) + b,
        abs_s(cdiv_mag(a, b)) >= 0,
{
    let u = abs_s(a);
    let q = (u + b - 1) / b;
    vstd::arithmetic::div_mod::lemma_fundamental_div_mod(u + b - 1, b);
    assert(q * b >= u && q * b < u + b && q >= 0) by (nonlinear_arith)
        requires
            b >= 1 && u >= 0 && u + b - 1 == b * q + (u + b - 1) % b && 0 <= (u + b - 1) % b < b,
    ;
}

/// Integer square root by binary search.
pub fn isqrt_u64(n: u64) -> (r: u64)
    ensures
        is_sqrt(r as int, n as int),
        r as int == sqrt_i(n as int),
{
    let mut lo: u64 = 0;
    let mut hi: u64 = 4_294_967_296;
    assert((hi as int) * (hi as int) > n as int) by (nonlinear_arith)
        requires
            hi == 4_294_967_296 && n <= u64::MAX,
    ;
    while lo + 1 < hi
        invariant
            lo < hi,
            hi <= 4_294_967_296,
            (lo as int) * (lo as int) <= n as int,
            (n as int) < (hi as int) * (hi as int),
        decreases hi - lo,
    {
        let mid: u64 = lo + (hi - lo) / 2;
        assert((mid as int) * (mid as int) <= 0x1_0000_0000_0000_0000) by (nonlinear_arith)
            requires
                mid <= 4_294_967_296,
        ;
        let sq: u128 = (mid as u128) * (mid as u128);
        if sq <= n as u128 {
            lo = mid;
        } else {
            hi = mid;
        }
    }
    proof {
        lemma_sqrt_exists(n as int);
        let w = choose|r: int| #[trigger] is_sqrt(r, n as int);
        lemma_sqrt_unique(lo as int, w, n as int);
    }
    lo
}

} // verus!
