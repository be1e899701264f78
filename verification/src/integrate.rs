//! Per-agent integration: target seeking, boundary turning, the speed
//! clamp, and position advance.
//!
//! All arithmetic is fixed-point. The speed clamp rescales a velocity
//! whose magnitude left `[min_speed, max_speed]`; because components
//! are integers the rescaled magnitude can miss the commanded bound by
//! a few fixed-point thousandths, and the clamp lemmas state exactly
//! how far.

use vstd::prelude::*;

use crate::config::BOUNDS_X;
use crate::config::BOUNDS_Y;
use crate::config::BoidsValues;
use crate::config::DT_LIMIT;
use crate::config::clamp_i64;
use crate::config::clamp_s;
use crate::config::valid_values;
use crate::fixed::POS_LIMIT;
use crate::fixed::SPEED_LIMIT;
use crate::fixed::VEL_CAP;
use crate::fixed::Vec2i;
use crate::fixed::abs_s;
use crate::fixed::cdiv_mag;
use crate::fixed::div_ceil_mag;
use crate::fixed::div_trunc;
use crate::fixed::is_sqrt;
use crate::fixed::isqrt_u64;
use crate::fixed::lemma_cdiv_mul_ge;
use crate::fixed::lemma_component_le_sqrt;
use crate::fixed::lemma_sqrt_i;
use crate::fixed::lemma_tdiv_mul_le;
use crate::fixed::pos_in_range;
use crate::fixed::sqrt_i;
use crate::fixed::tdiv;
use crate::fixed::vel_in_range;
use crate::flock::Boid;
use crate::fixed::lemma_tdiv_bound;

verus! {

/// The speed clamp on mathematical integers: rescale up to `min` when
/// too slow, then down to `max` when too fast; a zero velocity stays
/// zero.
pub open spec fn clamp_vel(vx: int, vy: int, min: int, max: int) -> (int, int) {
    let n = vx * vx + vy * vy;
    let s = sqrt_i(n);
    if s == 0 {
        (vx, vy)
    } else {
        let wx = if s < min {
            cdiv_mag(vx * min, s)
        } else {
            vx
        };
        let wy = if s < min {
            cdiv_mag(vy * min, s)
        } else {
            vy
        };
        let s2 = sqrt_i(wx * wx + wy * wy);
        if s2 > max {
            (tdiv(wx * max, s2), tdiv(wy * max, s2))
        } else {
            (wx, wy)
        }
    }
}

/// Scaling a vector down to `max` by its integer magnitude lands the
/// squared magnitude within one unit's rounding of `max`.
proof fn lemma_scale_down(wx: int, wy: int, s2: int, max: int)
    requires
        is_sqrt(s2, wx * wx + wy * wy),
        s2 > max,
        max >= 0,
    ensures
        ({
            let ux = tdiv(wx * max, s2);
            let uy = tdiv(wy * max, s2);
            &&& ux * ux + uy * uy <= max * max + 2 * max
            &&& ux * ux + uy * uy >= max * max - 4 * max - 2
            &&& abs_s(ux) <= max
            &&& abs_s(uy) <= max
        }),
{
    let n2 = wx * wx + wy * wy;
    let ux = tdiv(wx * max, s2);
    let uy = tdiv(wy * max, s2);
    let ax = abs_s(wx);
    let ay = abs_s(wy);
    let px = abs_s(ux);
    let py = abs_s(uy);
    lemma_tdiv_mul_le(wx * max, s2);
    lemma_tdiv_mul_le(wy * max, s2);
    assert(abs_s(wx * max) == ax * max && abs_s(wy * max) == ay * max) by (nonlinear_arith)
        requires
            max >= 0 && ax == abs_s(wx) && ay == abs_s(wy),
    ;
    // Upper bound.
    assert(px * px * (s2 * s2) <= ax * ax * (max * max) && py * py * (s2 * s2) <= ay * ay * (max
        * max)) by (nonlinear_arith)
        requires
            px >= 0 && py >= 0 && s2 > 0 && max >= 0 && px * s2 <= ax * max && py * s2 <= ay * max
                && ax >= 0 && ay >= 0,
    ;
    assert((px * px + py * py) * (s2 * s2) <= n2 * (max * max)) by (nonlinear_arith)
        requires
            px * px * (s2 * s2) <= ax * ax * (max * max) && py * py * (s2 * s2) <= ay * ay * (max
                * max) && n2 == wx * wx + wy * wy && ax == abs_s(wx) && ay == abs_s(wy),
    ;
    assert(n2 * (max * max) <= (s2 * s2) * (max * max + 2 * max)) by (nonlinear_arith)
        requires
            n2 < (s2 + 1) * (s2 + 1) && s2 >= max >= 0,
    ;
    assert(px * px + py * py <= max * max + 2 * max) by (nonlinear_arith)
        requires
            (px * px + py * py) * (s2 * s2) <= (s2 * s2) * (max * max + 2 * max) && s2 > 0,
    ;
    assert(px <= max && py <= max) by (nonlinear_arith)
        requires
            px >= 0 && py >= 0 && max >= 0 && px * px + py * py <= max * max + 2 * max,
    ;
    // Lower bound.
    assert((px + 1) * s2 > ax * max && (py + 1) * s2 > ay * max);
    assert(((px + 1) * (px + 1)) * (s2 * s2) >= (ax * ax) * (max * max)) by (nonlinear_arith)
        requires
            px >= 0 && s2 > 0 && max >= 0 && ax >= 0 && (px + 1) * s2 > ax * max,
    ;
    assert(((py + 1) * (py + 1)) * (s2 * s2) >= (ay * ay) * (max * max)) by (nonlinear_arith)
        requires
            py >= 0 && s2 > 0 && max >= 0 && ay >= 0 && (py + 1) * s2 > ay * max,
    ;
    assert(n2 == ax * ax + ay * ay) by (nonlinear_arith)
        requires
            n2 == wx * wx + wy * wy && ax == abs_s(wx) && ay == abs_s(wy),
    ;
    assert(((px + 1) * (px + 1) + (py + 1) * (py + 1)) * (s2 * s2) >= n2 * (max * max))
        by (nonlinear_arith)
        requires
            ((px + 1) * (px + 1)) * (s2 * s2) >= (ax * ax) * (max * max) && ((py + 1) * (py + 1)) * (
            s2 * s2) >= (ay * ay) * (max * max) && n2 == ax * ax + ay * ay,
    ;
    assert(n2 * (max * max) >= (s2 * s2) * (max * max)) by (nonlinear_arith)
        requires
            n2 >= s2 * s2 && max >= 0,
    ;
    assert((px + 1) * (px + 1) + (py + 1) * (py + 1) >= max * max) by (nonlinear_arith)
        requires
            ((px + 1) * (px + 1) + (py + 1) * (py + 1)) * (s2 * s2) >= (s2 * s2) * (max * max) && s2
                > 0,
    ;
    assert(px * px + py * py >= max * max - 4 * max - 2) by (nonlinear_arith)
        requires
            (px + 1) * (px + 1) + (py + 1) * (py + 1) >= max * max && 0 <= px <= max && 0 <= py
                <= max,
    ;
    assert(ux * ux == px * px && uy * uy == py * py) by (nonlinear_arith)
        requires
            px == abs_s(ux) && py == abs_s(uy),
    ;
}

/// Scaling a vector up to `min` with magnitude-ceiling division never
/// undershoots: the squared magnitude reaches `min * min`.
proof fn lemma_scale_up(vx: int, vy: int, s: int, min: int)
    requires
        is_sqrt(s, vx * vx + vy * vy),
        1 <= s < min,
    ensures
        ({
            let wx = cdiv_mag(vx * min, s);
            let wy = cdiv_mag(vy * min, s);
            &&& wx * wx + wy * wy >= min * min
            &&& abs_s(wx) <= min
            &&& abs_s(wy) <= min
        }),
{
    let n = vx * vx + vy * vy;
    let wx = cdiv_mag(vx * min, s);
    let wy = cdiv_mag(vy * min, s);
    let ax = abs_s(vx);
    let ay = abs_s(vy);
    let px = abs_s(wx);
    let py = abs_s(wy);
    lemma_component_le_sqrt(vx, vy, s);
    lemma_cdiv_mul_ge(vx * min, s);
    lemma_cdiv_mul_ge(vy * min, s);
    assert(abs_s(vx * min) == ax * min && abs_s(vy * min) == ay * min) by (nonlinear_arith)
        requires
            min > 0 && ax == abs_s(vx) && ay == abs_s(vy),
    ;
    assert((px * px + py * py) * (s * s) >= n * (min * min)) by (nonlinear_arith)
        requires
            px >= 0 && py >= 0 && s > 0 && min > 0 && px * s >= ax * min && py * s >= ay * min && ax
                >= 0 && ay >= 0 && n == vx * vx + vy * vy && ax == abs_s(vx) && ay == abs_s(vy),
    ;
    assert(n * (min * min) >= (s * s) * (min * min)) by (nonlinear_arith)
        requires
            n >= s * s && min > 0,
    ;
    assert(px * px + py * py >= min * min) by (nonlinear_arith)
        requires
            (px * px + py * py) * (s * s) >= (s * s) * (min * min) && s > 0,
    ;
    // Components stay small: `|v| <= s` per axis bounds the ceiling.
    assert(px * s < ax * min + s && py * s < ay * min + s);
    assert(px <= min && py <= min) by (nonlinear_arith)
        requires
            px >= 0 && py >= 0 && s >= 1 && min > 0 && px * s < ax * min + s && py * s < ay * min
                + s && 0 <= ax <= s && 0 <= ay <= s,
    ;
    assert(wx * wx == px * px && wy * wy == py * py) by (nonlinear_arith)
        requires
            px == abs_s(wx) && py == abs_s(wy),
    ;
}

/// The clamp caps the speed: the clamped squared magnitude never
/// exceeds `max * max + 2 * max`, so each component stays at most
/// `max` in magnitude.
pub proof fn lemma_clamp_upper(vx: int, vy: int, min: int, max: int)
    requires
        min >= 0,
        max >= 0,
    ensures
        ({
            let (ux, uy) = clamp_vel(vx, vy, min, max);
            &&& ux * ux + uy * uy <= max * max + 2 * max
            &&& abs_s(ux) <= max
            &&& abs_s(uy) <= max
        }),
{
    let n = vx * vx + vy * vy;
    assert(n >= 0) by (nonlinear_arith)
        requires
            n == vx * vx + vy * vy,
    ;
    lemma_sqrt_i(n);
    let s = sqrt_i(n);
    if s == 0 {
        assert(vx == 0 && vy == 0) by (nonlinear_arith)
            requires
                n == vx * vx + vy * vy && n < 1,
        ;
    } else {
        let wx = if s < min {
            cdiv_mag(vx * min, s)
        } else {
            vx
        };
        let wy = if s < min {
            cdiv_mag(vy * min, s)
        } else {
            vy
        };
        if s < min {
            lemma_scale_up(vx, vy, s, min);
        }
        let n2 = wx * wx + wy * wy;
        assert(n2 >= 0) by (nonlinear_arith)
            requires
                n2 == wx * wx + wy * wy,
        ;
        lemma_sqrt_i(n2);
        let s2 = sqrt_i(n2);
        if s2 > max {
            lemma_scale_down(wx, wy, s2, max);
        } else {
            lemma_component_le_sqrt(wx, wy, s2);
            assert(n2 <= max * max + 2 * max) by (nonlinear_arith)
                requires
                    n2 < (s2 + 1) * (s2 + 1) && 0 <= s2 <= max,
            ;
        }
    }
}

/// The speed clamp works: a moving agent leaves the clamp with an
/// integer speed inside `[min, max]`. The gap of three fixed-point
/// thousandths between the bounds absorbs the rounding of the integer
/// rescale.
pub proof fn lemma_speed_clamp(vx: int, vy: int, min: int, max: int)
    requires
        3 <= min,
        min + 3 <= max,
        vx * vx + vy * vy >= 1,
    ensures
        ({
            let (ux, uy) = clamp_vel(vx, vy, min, max);
            min <= sqrt_i(ux * ux + uy * uy) <= max
        }),
{
    let n = vx * vx + vy * vy;
    lemma_sqrt_i(n);
    let s = sqrt_i(n);
    assert(s >= 1) by (nonlinear_arith)
        requires
            is_sqrt(s, n) && n >= 1,
    ;
    let wx = if s < min {
        cdiv_mag(vx * min, s)
    } else {
        vx
    };
    let wy = if s < min {
        cdiv_mag(vy * min, s)
    } else {
        vy
    };
    let n2 = wx * wx + wy * wy;
    if s < min {
        lemma_scale_up(vx, vy, s, min);
    } else {
        assert(n2 >= min * min) by (nonlinear_arith)
            requires
                n2 == wx * wx + wy * wy && is_sqrt(s, n2) && s >= min >= 0,
        ;
    }
    assert(n2 >= 0) by (nonlinear_arith)
        requires
            n2 == wx * wx + wy * wy,
    ;
    lemma_sqrt_i(n2);
    let s2 = sqrt_i(n2);
    assert(s2 >= min) by (nonlinear_arith)
        requires
            is_sqrt(s2, n2) && n2 >= min * min && min >= 0,
    ;
    if s2 > max {
        lemma_scale_down(wx, wy, s2, max);
        let ux = tdiv(wx * max, s2);
        let uy = tdiv(wy * max, s2);
        let nf = ux * ux + uy * uy;
        assert(nf >= 0) by (nonlinear_arith)
            requires
                nf == ux * ux + uy * uy,
        ;
        lemma_sqrt_i(nf);
        let sf = sqrt_i(nf);
        assert(sf <= max) by (nonlinear_arith)
            requires
                is_sqrt(sf, nf) && nf <= max * max + 2 * max && max >= 0,
        ;
        assert(sf >= max - 3) by (nonlinear_arith)
            requires
                is_sqrt(sf, nf) && nf >= max * max - 4 * max - 2 && max >= 6,
        ;
    }
}

/// The speed clamp, executable: exactly `clamp_vel`, with each
/// resulting component at most `max_speed` in magnitude.
pub fn clamp_speed(v: Vec2i, min_speed: i64, max_speed: i64) -> (r: Vec2i)
    requires
        0 <= min_speed <= SPEED_LIMIT,
        0 <= max_speed <= SPEED_LIMIT,
        abs_s(v.x as int) <= VEL_CAP,
        abs_s(v.y as int) <= VEL_CAP,
    ensures
        (r.x as int, r.y as int) == clamp_vel(
            v.x as int,
            v.y as int,
            min_speed as int,
            max_speed as int,
        ),
        abs_s(r.x as int) <= max_speed,
        abs_s(r.y as int) <= max_speed,
{
    proof {
        lemma_clamp_upper(v.x as int, v.y as int, min_speed as int, max_speed as int);
    }
    assert(0 <= v.x as int * v.x as int <= 4_000_000_000_000_000_000 && 0 <= v.y as int
        * v.y as int <= 4_000_000_000_000_000_000) by (nonlinear_arith)
        requires
            abs_s(v.x as int) <= 2_000_000_000 && abs_s(v.y as int) <= 2_000_000_000,
    ;
    let nsq: i64 = v.x * v.x + v.y * v.y;
    let s64: u64 = isqrt_u64(nsq as u64);
    if s64 == 0 {
        return v;
    }
    assert(s64 as int * s64 as int <= 8_000_000_000_000_000_000);
    assert(s64 < 3_000_000_000) by (nonlinear_arith)
        requires
            s64 as int * s64 as int <= 8_000_000_000_000_000_000,
    ;
    let s: i64 = s64 as i64;
    let wx: i64;
    let wy: i64;
    if s < min_speed {
        proof {
            lemma_scale_up(v.x as int, v.y as int, s as int, min_speed as int);
            assert(abs_s(v.x as int * min_speed as int) <= 2_000_000_000_000_000 && abs_s(
                v.y as int * min_speed as int,
            ) <= 2_000_000_000_000_000) by (nonlinear_arith)
                requires
                    abs_s(v.x as int) <= 2_000_000_000 && abs_s(v.y as int) <= 2_000_000_000 && 0
                        <= min_speed <= 1_000_000,
            ;
        }
        wx = div_ceil_mag(v.x * min_speed, s);
        wy = div_ceil_mag(v.y * min_speed, s);
    } else {
        wx = v.x;
        wy = v.y;
    }
    assert(abs_s(wx as int) <= 2_000_000_000 && abs_s(wy as int) <= 2_000_000_000);
    assert(0 <= wx as int * wx as int <= 4_000_000_000_000_000_000 && 0 <= wy as int * wy as int
        <= 4_000_000_000_000_000_000) by (nonlinear_arith)
        requires
            abs_s(wx as int) <= 2_000_000_000 && abs_s(wy as int) <= 2_000_000_000,
    ;
    let n2: i64 = wx * wx + wy * wy;
    let s2_64: u64 = isqrt_u64(n2 as u64);
    assert(s2_64 as int * s2_64 as int <= 8_000_000_000_000_000_000);
    assert(s2_64 < 3_000_000_000) by (nonlinear_arith)
        requires
            s2_64 as int * s2_64 as int <= 8_000_000_000_000_000_000,
    ;
    let s2: i64 = s2_64 as i64;
    if s2 > max_speed {
        proof {
            lemma_scale_down(wx as int, wy as int, s2 as int, max_speed as int);
            assert(abs_s(wx as int * max_speed as int) <= 2_000_000_000_000_000 && abs_s(
                wy as int * max_speed as int,
            ) <= 2_000_000_000_000_000) by (nonlinear_arith)
                requires
                    abs_s(wx as int) <= 2_000_000_000 && abs_s(wy as int) <= 2_000_000_000 && 0
                        <= max_speed <= 1_000_000,
            ;
        }
        let ux = div_trunc(wx * max_speed, s2);
        let uy = div_trunc(wy * max_speed, s2);
        Vec2i { x: ux, y: uy }
    } else {
        proof {
            lemma_component_le_sqrt(wx as int, wy as int, s2 as int);
        }
        Vec2i { x: wx, y: wy }
    }
}

/// Velocity after target steering: subtract the unit vector from the
/// target toward the agent, weighted; an agent exactly at the target
/// is left alone.
pub open spec fn steer_vel(p: Vec2i, vx: int, vy: int, target: Option<Vec2i>, ts: int) -> (
    int,
    int,
) {
    match target {
        None => (vx, vy),
        Some(t) => {
            let dx = p.x - t.x;
            let dy = p.y - t.y;
            let dl = sqrt_i(dx * dx + dy * dy);
            if dl == 0 {
                (vx, vy)
            } else {
                (
                    vx - tdiv(tdiv(dx * 1000, dl) * ts, 1000),
                    vy - tdiv(tdiv(dy * 1000, dl) * ts, 1000),
                )
            }
        },
    }
}

/// Velocity after boundary handling: beyond a world bound on an axis,
/// the turn strength pushes the velocity back inward on that axis.
pub open spec fn turn_vel(p: Vec2i, vx: int, vy: int, turn: int) -> (int, int) {
    let vx1 = if p.x < -BOUNDS_X {
        vx + turn
    } else if p.x > BOUNDS_X {
        vx - turn
    } else {
        vx
    };
    let vy1 = if p.y < -BOUNDS_Y {
        vy + turn
    } else if p.y > BOUNDS_Y {
        vy - turn
    } else {
        vy
    };
    (vx1, vy1)
}

/// The velocity entering the speed clamp: flocking delta added, then
/// target steering, boundary turning, and the component cap.
pub open spec fn pre_clamp_vel(b: Boid, delta: Vec2i, vals: BoidsValues) -> (int, int) {
    let v1 = (b.vel.x + delta.x, b.vel.y + delta.y);
    let v2 = steer_vel(b.pos, v1.0, v1.1, vals.target_pos, vals.target_steering as int);
    let v3 = turn_vel(b.pos, v2.0, v2.1, vals.turn as int);
    (clamp_s(v3.0, -VEL_CAP as int, VEL_CAP as int), clamp_s(v3.1, -VEL_CAP as int, VEL_CAP as int))
}

/// The velocity one tick leaves the agent with.
pub open spec fn spec_integrate_vel(b: Boid, delta: Vec2i, vals: BoidsValues) -> (int, int) {
    let v4 = pre_clamp_vel(b, delta, vals);
    clamp_vel(v4.0, v4.1, vals.min_speed as int, vals.max_speed as int)
}

/// The position one tick leaves the agent at, given its new velocity:
/// advanced by `vel * dt` and clamped into the supported world range.
pub open spec fn spec_integrate_pos(b: Boid, fx: int, fy: int, dt: int) -> (int, int) {
    (
        clamp_s(b.pos.x + tdiv(fx * dt, 1000), -POS_LIMIT as int, POS_LIMIT as int),
        clamp_s(b.pos.y + tdiv(fy * dt, 1000), -POS_LIMIT as int, POS_LIMIT as int),
    )
}

/// Advances one agent by one tick: applies the flocking delta, target
/// steering, boundary turning and the speed clamp, then moves the
/// agent. Pure in its inputs; safe to run for every agent in parallel.
pub fn integrate_boid(b: &Boid, delta: Vec2i, values: &BoidsValues, dt: i64) -> (r: Boid)
    requires
        pos_in_range(b.pos),
        vel_in_range(b.vel),
        valid_values(*values),
        abs_s(delta.x as int) <= 5_000_000_000_000,
        abs_s(delta.y as int) <= 5_000_000_000_000,
        0 <= dt <= DT_LIMIT,
    ensures
        (r.vel.x as int, r.vel.y as int) == spec_integrate_vel(*b, delta, *values),
        (r.pos.x as int, r.pos.y as int) == spec_integrate_pos(
            *b,
            r.vel.x as int,
            r.vel.y as int,
            dt as int,
        ),
        pos_in_range(r.pos),
        vel_in_range(r.vel),
        abs_s(r.vel.x as int) <= values.max_speed,
        abs_s(r.vel.y as int) <= values.max_speed,
{
    let mut vx: i64 = b.vel.x + delta.x;
    let mut vy: i64 = b.vel.y + delta.y;
    match values.target_pos {
        Some(t) => {
            let dx = b.pos.x - t.x;
            let dy = b.pos.y - t.y;
            assert(0 <= dx * dx <= 4_000_000_000_000_000_000 && 0 <= dy * dy
                <= 4_000_000_000_000_000_000) by (nonlinear_arith)
                requires
                    -2_000_000_000 <= dx <= 2_000_000_000 && -2_000_000_000 <= dy <= 2_000_000_000,
            ;
            let dl2: i64 = dx * dx + dy * dy;
            let dl64: u64 = isqrt_u64(dl2 as u64);
            if dl64 > 0 {
                proof {
                    lemma_component_le_sqrt(dx as int, dy as int, dl64 as int);
                }
                assert(dl64 < 3_000_000_000) by (nonlinear_arith)
                    requires
                        dl64 as int * dl64 as int <= 8_000_000_000_000_000_000,
                ;
                let dl: i64 = dl64 as i64;
                proof {
                    lemma_tdiv_bound(dx as int * 1000, dl as int, 1000);
                    lemma_tdiv_bound(dy as int * 1000, dl as int, 1000);
                    assert(abs_s(dx as int * 1000) <= dl as int * 1000 && abs_s(dy as int * 1000)
                        <= dl as int * 1000) by (nonlinear_arith)
                        requires
                            abs_s(dx as int) <= dl as int && abs_s(dy as int) <= dl as int,
                    ;
                }
                let nx = div_trunc(dx * 1000, dl);
                let ny = div_trunc(dy * 1000, dl);
                proof {
                    assert(abs_s(nx as int * values.target_steering as int) <= 1000 * 1_000_000
                        && abs_s(ny as int * values.target_steering as int) <= 1000 * 1_000_000)
                        by (nonlinear_arith)
                        requires
                            abs_s(nx as int) <= 1000 && abs_s(ny as int) <= 1000 && 0
                                <= values.target_steering <= 1_000_000,
                    ;
                    lemma_tdiv_bound(nx as int * values.target_steering as int, 1000, 1_000_000);
                    lemma_tdiv_bound(ny as int * values.target_steering as int, 1000, 1_000_000);
                }
                let sx = div_trunc(nx * values.target_steering, 1000);
                let sy = div_trunc(ny * values.target_steering, 1000);
                vx = vx - sx;
                vy = vy - sy;
            }
        },
        None => {},
    }
    if b.pos.x < -BOUNDS_X {
        vx = vx + values.turn;
    } else if b.pos.x > BOUNDS_X {
        vx = vx - values.turn;
    }
    if b.pos.y < -BOUNDS_Y {
        vy = vy + values.turn;
    } else if b.pos.y > BOUNDS_Y {
        vy = vy - values.turn;
    }
    let v4x = clamp_i64(vx, -VEL_CAP, VEL_CAP);
    let v4y = clamp_i64(vy, -VEL_CAP, VEL_CAP);
    let w = clamp_speed(Vec2i { x: v4x, y: v4y }, values.min_speed, values.max_speed);
    proof {
        assert(abs_s(w.x as int * dt as int) <= 10_000_000_000 && abs_s(w.y as int * dt as int)
            <= 10_000_000_000) by (nonlinear_arith)
            requires
                abs_s(w.x as int) <= 1_000_000 && abs_s(w.y as int) <= 1_000_000 && 0 <= dt
                    <= 10_000,
        ;
        lemma_tdiv_bound(w.x as int * dt as int, 1000, 10_000_000);
        lemma_tdiv_bound(w.y as int * dt as int, 1000, 10_000_000);
    }
    let px = clamp_i64(b.pos.x + div_trunc(w.x * dt, 1000), -POS_LIMIT, POS_LIMIT);
    let py = clamp_i64(b.pos.y + div_trunc(w.y * dt, 1000), -POS_LIMIT, POS_LIMIT);
    Boid { pos: Vec2i { x: px, y: py }, vel: w }
}

/// One tick of boundary correction points inward: beyond the east
/// world bound, an isolated agent (zero flocking delta) with no seek
/// target and a zero lower speed bound cannot leave the tick with more
/// outward velocity than it entered with, less the turn strength. A
/// positive lower speed bound is excluded: the up-scaling clamp can
/// restore an exactly outward-pointing velocity to full magnitude, and
/// such an agent drifts outward forever.
pub proof fn lemma_boundary_inward_step(b: Boid, vals: BoidsValues)
    requires
        valid_values(vals),
        vals.min_speed == 0,
        (vals.target_pos matches Option::<Vec2i>::None),
        b.pos.x > BOUNDS_X,
        vel_in_range(b.vel),
    ensures
        ({
            let w = spec_integrate_vel(b, Vec2i { x: 0, y: 0 }, vals);
            w.0 <= if b.vel.x - vals.turn >= 0 {
                b.vel.x - vals.turn
            } else {
                0
            }
        }),
{
    let v4 = pre_clamp_vel(b, Vec2i { x: 0, y: 0 }, vals);
    assert(v4.0 == b.vel.x - vals.turn);
    let n = v4.0 * v4.0 + v4.1 * v4.1;
    assert(n >= 0) by (nonlinear_arith)
        requires
            n == v4.0 * v4.0 + v4.1 * v4.1,
    ;
    lemma_sqrt_i(n);
    let s = sqrt_i(n);
    if s == 0 {
        assert(n < (0 + 1) * (0 + 1));
        assert(v4.0 == 0) by (nonlinear_arith)
            requires
                n == v4.0 * v4.0 + v4.1 * v4.1 && n < (0 + 1) * (0 + 1),
        ;
    } else {
        let s2 = sqrt_i(n);
        let mx = vals.max_speed as int;
        if s2 > mx {
            lemma_tdiv_mul_le(v4.0 * mx, s2);
            let u = tdiv(v4.0 * mx, s2);
            if v4.0 >= 0 {
                assert(v4.0 * mx >= 0) by (nonlinear_arith)
                    requires
                        v4.0 >= 0 && mx >= 0,
                ;
                assert(abs_s(v4.0 * mx) == v4.0 * mx);
                if u >= 0 {
                    assert(abs_s(u) == u);
                    assert(u <= v4.0) by (nonlinear_arith)
                        requires
                            u * s2 <= v4.0 * mx && 0 <= mx <= s2 && v4.0 >= 0 && s2 > 0,
                    ;
                }
            } else {
                assert(v4.0 * mx <= 0) by (nonlinear_arith)
                    requires
                        v4.0 < 0 && mx >= 0,
                ;
                let a2 = -(v4.0 * mx);
                vstd::arithmetic::div_mod::lemma_fundamental_div_mod(a2, s2);
                assert(a2 / s2 >= 0) by (nonlinear_arith)
                    requires
                        a2 >= 0 && s2 > 0 && a2 == s2 * (a2 / s2) + a2 % s2 && 0 <= a2 % s2 < s2,
                ;
                assert(u <= 0);
            }
        }
    }
}

/// The speed-clamp law at the whole-step level: whenever the agent is
/// still moving when it reaches the clamp, the integrated velocity's
/// integer speed lies in `[min_speed, max_speed]`. The bounds must
/// stand at least three fixed-point thousandths apart: integer
/// rescaling rounds each component.
pub proof fn lemma_integrate_speed_bounds(b: Boid, delta: Vec2i, vals: BoidsValues)
    requires
        valid_values(vals),
        3 <= vals.min_speed,
        vals.min_speed + 3 <= vals.max_speed,
        ({
            let v4 = pre_clamp_vel(b, delta, vals);
            v4.0 * v4.0 + v4.1 * v4.1 >= 1
        }),
    ensures
        ({
            let w = spec_integrate_vel(b, delta, vals);
            vals.min_speed <= sqrt_i(w.0 * w.0 + w.1 * w.1) <= vals.max_speed
        }),
{
    let v4 = pre_clamp_vel(b, delta, vals);
    lemma_speed_clamp(v4.0, v4.1, vals.min_speed as int, vals.max_speed as int);
}

} // verus!
