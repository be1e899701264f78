//! Tunable simulation parameters.
//!
//! All scalar parameters are fixed-point (`SCALE` units per whole
//! unit). The simulation never trusts raw values: `sanitized` clamps
//! every field into the range the verified arithmetic supports, so a
//! malformed configuration degrades gracefully instead of crashing.

use vstd::prelude::*;

use crate::fixed::POS_LIMIT;
use crate::fixed::SPEED_LIMIT;
use crate::fixed::WEIGHT_LIMIT;
use crate::fixed::Vec2i;
use crate::flock::MAX_POPULATION;

verus! {

/// Half-extent of the world along `x`, in fixed-point units.
pub const BOUNDS_X: i64 = 100_000;

/// Half-extent of the world along `y`, in fixed-point units.
pub const BOUNDS_Y: i64 = 100_000;

/// Largest magnitude of a freshly spawned velocity component.
pub const STARTING_VELOCITY: i64 = 100_000;

/// Longest accepted time step (ten whole seconds).
pub const DT_LIMIT: i64 = 10_000;

/// The tunable flocking parameters, read each tick.
#[derive(Clone, Copy, Debug)]
pub struct BoidsValues {
    /// How many agents the simulation should hold.
    pub count: usize,
    /// Point every agent steers toward, if any.
    pub target_pos: Option<Vec2i>,
    /// Weight of the steering toward `target_pos`.
    pub target_steering: i64,
    /// Radius within which cohesion and alignment see neighbors.
    pub visual_range: i64,
    /// Radius within which separation pushes away.
    pub protected_range: i64,
    /// Alignment (velocity matching) weight.
    pub matching: i64,
    /// Separation (avoidance) weight.
    pub avoid: i64,
    /// Cohesion (centering) weight.
    pub centering: i64,
    /// Velocity nudge applied while beyond a world bound.
    pub turn: i64,
    /// Lower speed bound restored by the clamp.
    pub min_speed: i64,
    /// Upper speed bound restored by the clamp.
    pub max_speed: i64,
}

/// Debug-overlay switches; no effect on the simulation itself.
#[derive(Clone, Copy, Debug)]
pub struct DebugValues {
    /// Highlight one agent's broad-phase neighborhood.
    pub show_grid: bool,
}

/// A scalar clamped into `[lo, hi]`.
pub open spec fn clamp_s(a: int, lo: int, hi: int) -> int
    recommends
        lo <= hi,
{
    if a < lo {
        lo
    } else if a > hi {
        hi
    } else {
        a
    }
}

/// Clamps a scalar into `[lo, hi]`.
pub fn clamp_i64(a: i64, lo: i64, hi: i64) -> (r: i64)
    requires
        lo <= hi,
    ensures
        r == clamp_s(a as int, lo as int, hi as int),
{
    if a < lo {
        lo
    } else if a > hi {
        hi
    } else {
        a
    }
}

/// Every field within the range the verified arithmetic supports.
pub open spec fn valid_values(v: BoidsValues) -> bool {
    &&& v.count <= MAX_POPULATION
    &&& 0 <= v.target_steering <= WEIGHT_LIMIT
    &&& 0 <= v.visual_range <= POS_LIMIT
    &&& 0 <= v.protected_range <= POS_LIMIT
    &&& 0 <= v.matching <= WEIGHT_LIMIT
    &&& 0 <= v.avoid <= WEIGHT_LIMIT
    &&& 0 <= v.centering <= WEIGHT_LIMIT
    &&& 0 <= v.turn <= SPEED_LIMIT
    &&& 0 <= v.min_speed <= v.max_speed <= SPEED_LIMIT
    &&& match v.target_pos {
        Some(t) => crate::fixed::pos_in_range(t),
        None => true,
    }
}

/// The sanitization rule on mathematical values: every field clamped
/// into the range the verified arithmetic supports, the lower speed
/// bound additionally capped by the upper one, and a seek target
/// clamped componentwise into the coordinate range.
pub open spec fn spec_sanitize(v: BoidsValues) -> BoidsValues {
    let max_speed = clamp_s(v.max_speed as int, 0, SPEED_LIMIT as int) as i64;
    BoidsValues {
        count: if v.count > MAX_POPULATION {
            MAX_POPULATION
        } else {
            v.count
        },
        target_pos: match v.target_pos {
            Some(t) => Some(
                (Vec2i {
                    x: clamp_s(t.x as int, -POS_LIMIT as int, POS_LIMIT as int) as i64,
                    y: clamp_s(t.y as int, -POS_LIMIT as int, POS_LIMIT as int) as i64,
                }),
            ),
            None => None,
        },
        target_steering: clamp_s(v.target_steering as int, 0, WEIGHT_LIMIT as int) as i64,
        visual_range: clamp_s(v.visual_range as int, 0, POS_LIMIT as int) as i64,
        protected_range: clamp_s(v.protected_range as int, 0, POS_LIMIT as int) as i64,
        matching: clamp_s(v.matching as int, 0, WEIGHT_LIMIT as int) as i64,
        avoid: clamp_s(v.avoid as int, 0, WEIGHT_LIMIT as int) as i64,
        centering: clamp_s(v.centering as int, 0, WEIGHT_LIMIT as int) as i64,
        turn: clamp_s(v.turn as int, 0, SPEED_LIMIT as int) as i64,
        min_speed: clamp_s(v.min_speed as int, 0, max_speed as int) as i64,
        max_speed,
    }
}

/// Sanitization always yields a valid configuration.
pub proof fn lemma_sanitize_valid(v: BoidsValues)
    ensures
        valid_values(spec_sanitize(v)),
{
}

impl BoidsValues {
    /// A copy with every field clamped into its supported range; a
    /// configuration that is already valid comes back unchanged.
    pub fn sanitized(&self) -> (r: BoidsValues)
        ensures
            r == spec_sanitize(*self),
            valid_values(r),
            valid_values(*self) ==> r == *self,
    {
        let max_speed = clamp_i64(self.max_speed, 0, SPEED_LIMIT);
        let target_pos = match self.target_pos {
            Some(t) => Some(
                Vec2i {
                    x: clamp_i64(t.x, -POS_LIMIT, POS_LIMIT),
                    y: clamp_i64(t.y, -POS_LIMIT, POS_LIMIT),
                },
            ),
            None => None,
        };
        BoidsValues {
            count: if self.count > MAX_POPULATION {
                MAX_POPULATION
            } else {
                self.count
            },
            target_pos,
            target_steering: clamp_i64(self.target_steering, 0, WEIGHT_LIMIT),
            visual_range: clamp_i64(self.visual_range, 0, POS_LIMIT),
            protected_range: clamp_i64(self.protected_range, 0, POS_LIMIT),
            matching: clamp_i64(self.matching, 0, WEIGHT_LIMIT),
            avoid: clamp_i64(self.avoid, 0, WEIGHT_LIMIT),
            centering: clamp_i64(self.centering, 0, WEIGHT_LIMIT),
            turn: clamp_i64(self.turn, 0, SPEED_LIMIT),
            min_speed: clamp_i64(self.min_speed, 0, max_speed),
            max_speed,
        }
    }
}

impl Default for BoidsValues {
    /// The stock parameter set: four hundred agents seeking the
    /// origin, with moderate flocking weights.
    fn default() -> (r: BoidsValues)
        ensures
            valid_values(r),
            r.count == 400,
            r.target_pos == Some(Vec2i { x: 0, y: 0 }),
            r.target_steering == 300,
            r.visual_range == 40_000,
            r.protected_range == 2_000,
            r.matching == 30,
            r.avoid == 50_000,
            r.centering == 5,
            r.turn == 1_200,
            r.min_speed == 30_000,
            r.max_speed == 60_000,
    {
        BoidsValues {
            count: 400,
            target_pos: Some(Vec2i { x: 0, y: 0 }),
            target_steering: 300,
            visual_range: 40_000,
            protected_range: 2_000,
            matching: 30,
            avoid: 50_000,
            centering: 5,
            turn: 1_200,
            min_speed: 30_000,
            max_speed: 60_000,
        }
    }
}

impl Default for DebugValues {
    /// Overlay off.
    fn default() -> (r: DebugValues)
        ensures
            !r.show_grid,
    {
        DebugValues { show_grid: false }
    }
}

} // verus!
