//! Flocking rules: cohesion, alignment and separation.
//!
//! For one agent and a list of neighbor candidates, `flock_delta`
//! computes the velocity change the three rules ask for. Candidates
//! are filtered here by exact squared Euclidean distance, so an
//! over-inclusive broad-phase list is harmless. Every step is
//! mirrored by the spec function `spec_flock_delta`.

use vstd::prelude::*;

use crate::fixed::POS_LIMIT;
use crate::fixed::SPEED_LIMIT;
use crate::fixed::WEIGHT_LIMIT;
use crate::fixed::Vec2i;
use crate::fixed::abs_s;
use crate::fixed::dist_sq;
use crate::fixed::div_trunc;
use crate::fixed::lemma_tdiv_bound;
use crate::fixed::pos_in_range;
use crate::fixed::tdiv;
use crate::fixed::vel_in_range;

verus! {

/// Most agents a simulation may hold at once.
pub const MAX_POPULATION: usize = 100_000;

/// One agent: where it stands and how it moves, both fixed-point.
#[derive(Clone, Copy, PartialEq, Eq, Structural, Debug)]
pub struct Boid {
    pub pos: Vec2i,
    pub vel: Vec2i,
}

/// Sums accumulated over the neighbors of one agent.
pub ghost struct FlockAcc {
    pub vel_sum_x: int,
    pub vel_sum_y: int,
    pub pos_sum_x: int,
    pub pos_sum_y: int,
    pub visual_count: int,
    pub close_sum_x: int,
    pub close_sum_y: int,
    pub close_count: int,
}

/// The empty accumulator.
pub open spec fn acc_zero() -> FlockAcc {
    FlockAcc {
        vel_sum_x: 0,
        vel_sum_y: 0,
        pos_sum_x: 0,
        pos_sum_y: 0,
        visual_count: 0,
        close_sum_x: 0,
        close_sum_y: 0,
        close_count: 0,
    }
}

/// Separation contribution of one neighbor along one axis: the unit
/// vector away from the neighbor, divided once more by the distance
/// (`d / |d|^2` componentwise, in fixed point).
pub open spec fn sep_term(dc: int, d2: int) -> int {
    tdiv(dc * 1_000_000, d2)
}

/// Folds one neighbor into the accumulator: within the visual range
/// its velocity and position are summed; strictly within the
/// protected range (and not exactly at the agent's own position) its
/// separation push is summed.
pub open spec fn acc_step(a: FlockAcc, p: Vec2i, b: Boid, vr: int, pr: int) -> FlockAcc {
    let d2 = dist_sq(p, b.pos);
    let a1 = if d2 < vr * vr {
        FlockAcc {
            vel_sum_x: a.vel_sum_x + b.vel.x,
            vel_sum_y: a.vel_sum_y + b.vel.y,
            pos_sum_x: a.pos_sum_x + b.pos.x,
            pos_sum_y: a.pos_sum_y + b.pos.y,
            visual_count: a.visual_count + 1,
            ..a
        }
    } else {
        a
    };
    if 0 < d2 < pr * pr {
        FlockAcc {
            close_sum_x: a1.close_sum_x + sep_term(p.x - b.pos.x, d2),
            close_sum_y: a1.close_sum_y + sep_term(p.y - b.pos.y, d2),
            close_count: a1.close_count + 1,
            ..a1
        }
    } else {
        a1
    }
}

/// Accumulator over the first `n` candidates.
pub open spec fn flock_acc(ns: Seq<Boid>, p: Vec2i, vr: int, pr: int, n: nat) -> FlockAcc
    decreases n,
{
    if n == 0 {
        acc_zero()
    } else {
        acc_step(flock_acc(ns, p, vr, pr, (n - 1) as nat), p, ns[n - 1], vr, pr)
    }
}

/// The velocity change that separation, alignment and cohesion ask
/// for: each term averaged over its own count, scaled by its weight,
/// and zero when no neighbor is in its range.
pub open spec fn spec_flock_delta(
    ns: Seq<Boid>,
    p: Vec2i,
    v: Vec2i,
    vr: int,
    pr: int,
    matching: int,
    avoid: int,
    centering: int,
) -> (int, int) {
    let acc = flock_acc(ns, p, vr, pr, ns.len());
    let sx = if acc.close_count > 0 {
        tdiv(tdiv(acc.close_sum_x, acc.close_count) * avoid, 1000)
    } else {
        0
    };
    let sy = if acc.close_count > 0 {
        tdiv(tdiv(acc.close_sum_y, acc.close_count) * avoid, 1000)
    } else {
        0
    };
    let ax = if acc.visual_count > 0 {
        tdiv((tdiv(acc.vel_sum_x, acc.visual_count) - v.x) * matching, 1000)
    } else {
        0
    };
    let ay = if acc.visual_count > 0 {
        tdiv((tdiv(acc.vel_sum_y, acc.visual_count) - v.y) * matching, 1000)
    } else {
        0
    };
    let cx = if acc.visual_count > 0 {
        tdiv((tdiv(acc.pos_sum_x, acc.visual_count) - p.x) * centering, 1000)
    } else {
        0
    };
    let cy = if acc.visual_count > 0 {
        tdiv((tdiv(acc.pos_sum_y, acc.visual_count) - p.y) * centering, 1000)
    } else {
        0
    };
    (sx + ax + cx, sy + ay + cy)
}

/// The separation term never exceeds one fixed-point unit squared:
/// `|dc| <= sqrt(d2)` makes `|dc| / d2` at most one.
proof fn lemma_sep_term_bound(dc: int, d2: int)
    requires
        d2 > 0,
        dc * dc <= d2,
    ensures
        abs_s(sep_term(dc, d2)) <= 1_000_000,
{
    let u = abs_s(dc);
    assert(u * u == dc * dc) by (nonlinear_arith)
        requires
            u == abs_s(dc),
    ;
    let q = (u * 1_000_000) / d2;
    vstd::arithmetic::div_mod::lemma_fundamental_div_mod(u * 1_000_000, d2);
    assert(q >= 0 && q <= 1_000_000) by (nonlinear_arith)
        requires
            d2 > 0 && u >= 0 && u * u <= d2 && u * 1_000_000 == d2 * q + (u * 1_000_000) % d2 && 0
                <= (u * 1_000_000) % d2 < d2,
    ;
    if dc >= 0 {
        assert(sep_term(dc, d2) == q);
    } else {
        assert(sep_term(dc, d2) == -q);
    }
}

/// Cohesion, alignment and separation for one agent.
///
/// `ns` lists the broad-phase candidates (the agent itself excluded);
/// the exact distance filter happens here. Returns exactly what
/// `spec_flock_delta` states, and the result is small enough to feed
/// the integrator.
pub fn flock_delta(
    p: Vec2i,
    v: Vec2i,
    ns: &Vec<Boid>,
    vr: i64,
    pr: i64,
    matching: i64,
    avoid: i64,
    centering: i64,
) -> (r: Vec2i)
    requires
        pos_in_range(p),
        vel_in_range(v),
        forall|k: int|
            0 <= k < ns@.len() ==> pos_in_range((#[trigger] ns@[k]).pos) && vel_in_range(ns@[k].vel),
        ns@.len() <= MAX_POPULATION,
        0 <= vr <= POS_LIMIT,
        0 <= pr <= POS_LIMIT,
        0 <= matching <= WEIGHT_LIMIT,
        0 <= avoid <= WEIGHT_LIMIT,
        0 <= centering <= WEIGHT_LIMIT,
    ensures
        (r.x as int, r.y as int) == spec_flock_delta(
            ns@,
            p,
            v,
            vr as int,
            pr as int,
            matching as int,
            avoid as int,
            centering as int,
        ),
        abs_s(r.x as int) <= 5_000_000_000_000,
        abs_s(r.y as int) <= 5_000_000_000_000,
{
    assert(0 <= vr as int * vr as int <= 1_000_000_000_000_000_000 && 0 <= pr as int * pr as int
        <= 1_000_000_000_000_000_000) by (nonlinear_arith)
        requires
            0 <= vr <= 1_000_000_000 && 0 <= pr <= 1_000_000_000,
    ;
    let vv: i64 = vr * vr;
    let pp: i64 = pr * pr;
    let mut vel_sum_x: i64 = 0;
    let mut vel_sum_y: i64 = 0;
    let mut pos_sum_x: i64 = 0;
    let mut pos_sum_y: i64 = 0;
    let mut visual_count: i64 = 0;
    let mut close_sum_x: i64 = 0;
    let mut close_sum_y: i64 = 0;
    let mut close_count: i64 = 0;
    let mut k: usize = 0;
    while k < ns.len()
        invariant
            pos_in_range(p),
            vel_in_range(v),
            forall|m: int|
                0 <= m < ns@.len() ==> pos_in_range((#[trigger] ns@[m]).pos) && vel_in_range(
                    ns@[m].vel,
                ),
            ns@.len() <= MAX_POPULATION,
            0 <= vr <= POS_LIMIT,
            0 <= pr <= POS_LIMIT,
            vv == vr * vr,
            pp == pr * pr,
            0 <= k <= ns@.len(),
            flock_acc(ns@, p, vr as int, pr as int, k as nat) == (FlockAcc {
                vel_sum_x: vel_sum_x as int,
                vel_sum_y: vel_sum_y as int,
                pos_sum_x: pos_sum_x as int,
                pos_sum_y: pos_sum_y as int,
                visual_count: visual_count as int,
                close_sum_x: close_sum_x as int,
                close_sum_y: close_sum_y as int,
                close_count: close_count as int,
            }),
            0 <= visual_count <= k,
            0 <= close_count <= k,
            abs_s(vel_sum_x as int) <= visual_count * SPEED_LIMIT,
            abs_s(vel_sum_y as int) <= visual_count * SPEED_LIMIT,
            abs_s(pos_sum_x as int) <= visual_count * POS_LIMIT,
            abs_s(pos_sum_y as int) <= visual_count * POS_LIMIT,
            abs_s(close_sum_x as int) <= close_count * 1_000_000,
            abs_s(close_sum_y as int) <= close_count * 1_000_000,
        decreases ns@.len() - k,
    {
        let b = ns[k];
        let dx = p.x - b.pos.x;
        let dy = p.y - b.pos.y;
        assert(dx * dx + dy * dy <= 8_000_000_000_000_000_000 && dx * dx >= 0 && dy * dy >= 0)
            by (nonlinear_arith)
            requires
                -2_000_000_000 <= dx <= 2_000_000_000 && -2_000_000_000 <= dy <= 2_000_000_000,
        ;
        let d2 = dx * dx + dy * dy;
        assert(d2 == dist_sq(p, b.pos));
        if d2 < vv {
            vel_sum_x = vel_sum_x + b.vel.x;
            vel_sum_y = vel_sum_y + b.vel.y;
            pos_sum_x = pos_sum_x + b.pos.x;
            pos_sum_y = pos_sum_y + b.pos.y;
            visual_count = visual_count + 1;
        }
        if 0 < d2 && d2 < pp {
            assert(dx * 1_000_000 > i64::MIN && dy * 1_000_000 > i64::MIN) by (nonlinear_arith)
                requires
                    -2_000_000_000 <= dx <= 2_000_000_000 && -2_000_000_000 <= dy <= 2_000_000_000,
            ;
            let cx = div_trunc(dx * 1_000_000, d2);
            let cy = div_trunc(dy * 1_000_000, d2);
            proof {
                lemma_sep_term_bound(dx as int, d2 as int);
                lemma_sep_term_bound(dy as int, d2 as int);
            }
            close_sum_x = close_sum_x + cx;
            close_sum_y = close_sum_y + cy;
            close_count = close_count + 1;
        }
        k = k + 1;
        proof {
            assert(flock_acc(ns@, p, vr as int, pr as int, k as nat) == acc_step(
                flock_acc(ns@, p, vr as int, pr as int, (k - 1) as nat),
                p,
                ns@[k - 1],
                vr as int,
                pr as int,
            ));
        }
    }
    let mut ox: i64 = 0;
    let mut oy: i64 = 0;
    if close_count > 0 {
        let avg_x = div_trunc(close_sum_x, close_count);
        let avg_y = div_trunc(close_sum_y, close_count);
        proof {
            lemma_tdiv_bound(close_sum_x as int, close_count as int, 1_000_000);
            lemma_tdiv_bound(close_sum_y as int, close_count as int, 1_000_000);
            assert(abs_s(avg_x as int * avoid as int) <= 1000 * 1_000_000_000_000 && abs_s(
                avg_y as int * avoid as int,
            ) <= 1000 * 1_000_000_000_000) by (nonlinear_arith)
                requires
                    abs_s(avg_x as int) <= 1_000_000 && abs_s(avg_y as int) <= 1_000_000 && 0
                        <= avoid <= 1_000_000,
            ;
            lemma_tdiv_bound(avg_x as int * avoid as int, 1000, 1_000_000_000_000);
            lemma_tdiv_bound(avg_y as int * avoid as int, 1000, 1_000_000_000_000);
        }
        ox = div_trunc(avg_x * avoid, 1000);
        oy = div_trunc(avg_y * avoid, 1000);
    }
    if visual_count > 0 {
        let vel_avg_x = div_trunc(vel_sum_x, visual_count);
        let vel_avg_y = div_trunc(vel_sum_y, visual_count);
        let pos_avg_x = div_trunc(pos_sum_x, visual_count);
        let pos_avg_y = div_trunc(pos_sum_y, visual_count);
        proof {
            lemma_tdiv_bound(vel_sum_x as int, visual_count as int, SPEED_LIMIT as int);
            lemma_tdiv_bound(vel_sum_y as int, visual_count as int, SPEED_LIMIT as int);
            lemma_tdiv_bound(pos_sum_x as int, visual_count as int, POS_LIMIT as int);
            lemma_tdiv_bound(pos_sum_y as int, visual_count as int, POS_LIMIT as int);
            assert(abs_s((vel_avg_x - v.x) as int * matching as int) <= 1000 * 2_000_000_000_000
                && abs_s((vel_avg_y - v.y) as int * matching as int) <= 1000 * 2_000_000_000_000)
                by (nonlinear_arith)
                requires
                    abs_s(vel_avg_x as int) <= SPEED_LIMIT as int && abs_s(vel_avg_y as int)
                        <= SPEED_LIMIT as int && SPEED_LIMIT == 1_000_000 && vel_in_range(v) && 0
                        <= matching <= 1_000_000,
            ;
            lemma_tdiv_bound((vel_avg_x - v.x) as int * matching as int, 1000, 2_000_000_000_000);
            lemma_tdiv_bound((vel_avg_y - v.y) as int * matching as int, 1000, 2_000_000_000_000);
            assert(abs_s((pos_avg_x - p.x) as int * centering as int) <= 2_000_000_000_000_000
                && abs_s((pos_avg_y - p.y) as int * centering as int)
                <= 2_000_000_000_000_000) by (nonlinear_arith)
                requires
                    abs_s(pos_avg_x as int) <= POS_LIMIT as int && abs_s(pos_avg_y as int)
                        <= POS_LIMIT as int && POS_LIMIT == 1_000_000_000 && pos_in_range(p) && 0
                        <= centering <= 1_000_000,
            ;
            lemma_tdiv_bound((pos_avg_x - p.x) as int * centering as int, 1000, 2_000_000_000_000);
            lemma_tdiv_bound((pos_avg_y - p.y) as int * centering as int, 1000, 2_000_000_000_000);
        }
        let align_x = div_trunc((vel_avg_x - v.x) * matching, 1000);
        let align_y = div_trunc((vel_avg_y - v.y) * matching, 1000);
        let cohere_x = div_trunc((pos_avg_x - p.x) * centering, 1000);
        let cohere_y = div_trunc((pos_avg_y - p.y) * centering, 1000);
        ox = ox + align_x + cohere_x;
        oy = oy + align_y + cohere_y;
    }
    Vec2i { x: ox, y: oy }
}

/// An isolated agent receives no flocking push: when every candidate
/// is outside both the visual and the protected range, the delta is
/// exactly zero.
pub proof fn lemma_isolated_no_delta(
    ns: Seq<Boid>,
    p: Vec2i,
    v: Vec2i,
    vr: int,
    pr: int,
    matching: int,
    avoid: int,
    centering: int,
)
    requires
        forall|k: int|
            0 <= k < ns.len() ==> dist_sq(p, (#[trigger] ns[k]).pos) >= vr * vr && dist_sq(
                p,
                ns[k].pos,
            ) >= pr * pr,
    ensures
        spec_flock_delta(ns, p, v, vr, pr, matching, avoid, centering) == (0int, 0int),
{
    lemma_acc_stays_zero(ns, p, vr, pr, ns.len());
}

/// Helper for `lemma_isolated_no_delta`: the accumulator of an
/// isolated agent stays empty.
proof fn lemma_acc_stays_zero(ns: Seq<Boid>, p: Vec2i, vr: int, pr: int, n: nat)
    requires
        n <= ns.len(),
        forall|k: int|
            0 <= k < ns.len() ==> dist_sq(p, (#[trigger] ns[k]).pos) >= vr * vr && dist_sq(
                p,
                ns[k].pos,
            ) >= pr * pr,
    ensures
        flock_acc(ns, p, vr, pr, n) == acc_zero(),
    decreases n,
{
    if n > 0 {
        lemma_acc_stays_zero(ns, p, vr, pr, (n - 1) as nat);
    }
}

} // verus!
