//! The simulation: owns the agents, the spatial index and the
//! configuration, and advances everything one tick at a time.
//!
//! Agent identifiers are dense: agent `i` of the collection carries
//! identifier `i`, growth appends, and shrinkage removes from the end,
//! so identifiers of survivors stay stable and freed ones are recycled.
//!
//! A tick runs in strictly ordered phases: population reconciliation,
//! then the index update for every agent, then rule evaluation for
//! every agent into a separate delta buffer (reading only pre-tick
//! state), then integration of every agent from that buffer. The delta
//! buffer keeps reads and writes apart, so the integration phase is
//! handed to a parallel map.

use vstd::prelude::*;

use crate::config::BOUNDS_X;
use crate::config::BOUNDS_Y;
use crate::config::BoidsValues;
use crate::config::DT_LIMIT;
use crate::config::STARTING_VELOCITY;
use crate::config::clamp_i64;
use crate::config::clamp_s;
use crate::config::spec_sanitize;
use crate::config::valid_values;
use crate::fixed::POS_LIMIT;
use crate::fixed::Vec2i;
use crate::fixed::abs_s;
use crate::fixed::pos_in_range;
use crate::fixed::sqrt_i;
use crate::fixed::vel_in_range;
use crate::flock::Boid;
use crate::flock::MAX_POPULATION;
use crate::flock::flock_delta;
use crate::flock::spec_flock_delta;
use crate::hash_grid::HashGrid;
use crate::hash_grid::lemma_no_dup_len_bound;
use crate::hash_grid::no_dup;
use crate::hash_grid::pos_key;
use crate::hash_grid::query_hit;
use crate::integrate::integrate_boid;
use crate::integrate::lemma_integrate_speed_bounds;
use crate::integrate::pre_clamp_vel;
use crate::integrate::spec_integrate_pos;
use crate::integrate::spec_integrate_vel;

use rand::Rng;
use rayon::iter::IndexedParallelIterator;
use rayon::iter::IntoParallelRefIterator;
use rayon::iter::ParallelIterator;

verus! {

#[verifier::external_type_specification]
#[verifier::external_body]
pub struct ExThreadRng(rand::rngs::ThreadRng);

/// Relies on rand::thread_rng: a handle to the thread-local random
/// number generator.
#[verifier::external_body]
fn new_rng() -> rand::rngs::ThreadRng {
    rand::thread_rng()
}

/// Relies on rand::Rng::gen_range: a sample of the half-open range,
/// which the documentation promises lies within it; an empty range
/// panics, so the contract forbids one.
#[verifier::external_body]
fn gen_range_i64(rng: &mut rand::rngs::ThreadRng, lo: i64, hi: i64) -> (r: i64)
    requires
        lo < hi,
    ensures
        lo <= r < hi,
{
    rng.gen_range(lo..hi)
}

/// Relies on rayon's indexed parallel iterators (`par_iter`, `zip`,
/// `map`, `collect`): applies the verified integrator to every agent
/// in parallel and collects the results in order, so the outcome is
/// elementwise what `integrate_boid` returns, and that function's
/// contract transfers.
#[verifier::external_body]
fn par_integrate(boids: &Vec<Boid>, deltas: &Vec<Vec2i>, values: &BoidsValues, dt: i64) -> (r: Vec<
    Boid,
>)
    requires
        deltas@.len() == boids@.len(),
        valid_values(*values),
        0 <= dt <= DT_LIMIT,
        forall|i: int|
            0 <= i < boids@.len() ==> pos_in_range((#[trigger] boids@[i]).pos) && vel_in_range(
                boids@[i].vel,
            ),
        forall|i: int|
            0 <= i < deltas@.len() ==> abs_s((#[trigger] deltas@[i]).x as int) <= 5_000_000_000_000
                && abs_s(deltas@[i].y as int) <= 5_000_000_000_000,
    ensures
        r@.len() == boids@.len(),
        forall|i: int|
            0 <= i < r@.len() ==> {
                &&& ((#[trigger] r@[i]).vel.x as int, r@[i].vel.y as int) == spec_integrate_vel(
                    boids@[i],
                    deltas@[i],
                    *values,
                )
                &&& (r@[i].pos.x as int, r@[i].pos.y as int) == spec_integrate_pos(
                    boids@[i],
                    r@[i].vel.x as int,
                    r@[i].vel.y as int,
                    dt as int,
                )
                &&& pos_in_range(r@[i].pos)
                &&& vel_in_range(r@[i].vel)
                &&& abs_s(r@[i].vel.x as int) <= values.max_speed
                &&& abs_s(r@[i].vel.y as int) <= values.max_speed
            },
{
    boids.par_iter().zip(deltas.par_iter()).map(|(b, d)| integrate_boid(b, *d, values, dt)).collect()
}

/// What holds of every freshly spawned agent, whatever the random
/// draws were: position within the world bounds and each starting
/// velocity component below the starting-speed constant in magnitude.
pub open spec fn spawn_in_bounds(b: Boid) -> bool {
    &&& -BOUNDS_X <= b.pos.x < BOUNDS_X
    &&& -BOUNDS_Y <= b.pos.y < BOUNDS_Y
    &&& -STARTING_VELOCITY <= b.vel.x < STARTING_VELOCITY
    &&& -STARTING_VELOCITY <= b.vel.y < STARTING_VELOCITY
}

/// `ids` is exactly one agent's broad-phase candidate list over the
/// snapshot `mid` and the index `g`: duplicate-free, the agent itself
/// excluded, each entry a broad-phase hit at the agent's position with
/// the visual range, every such hit present, and `ns` their records.
pub open spec fn neighbor_candidates_ok(
    ns: Seq<Boid>,
    ids: Seq<u64>,
    mid: Seq<Boid>,
    g: HashGrid,
    i: int,
    vr: int,
) -> bool {
    &&& no_dup(ids)
    &&& ns.len() == ids.len()
    &&& forall|k: int|
        0 <= k < ids.len() ==> (#[trigger] ids[k]) != i as u64 && query_hit(
            g,
            mid[i].pos,
            vr,
            ids[k],
        ) && (ids[k] as int) < mid.len() && ns[k] == mid[ids[k] as int]
    &&& forall|id: u64|
        id != i as u64 && #[trigger] query_hit(g, mid[i].pos, vr, id) ==> ids.contains(id)
}

/// One agent's full step: a delta equal to the flocking rules over the
/// candidate records, then the integration of exactly that delta.
pub open spec fn agent_step_ok(
    pre_b: Boid,
    post_b: Boid,
    ns: Seq<Boid>,
    vals: BoidsValues,
    dt: int,
) -> bool {
    exists|d: Vec2i|
        #![trigger spec_integrate_vel(pre_b, d, vals)]
        {
            &&& (d.x as int, d.y as int) == spec_flock_delta(
                ns,
                pre_b.pos,
                pre_b.vel,
                vals.visual_range as int,
                vals.protected_range as int,
                vals.matching as int,
                vals.avoid as int,
                vals.centering as int,
            )
            &&& (post_b.vel.x as int, post_b.vel.y as int) == spec_integrate_vel(pre_b, d, vals)
            &&& (post_b.pos.x as int, post_b.pos.y as int) == spec_integrate_pos(
                pre_b,
                post_b.vel.x as int,
                post_b.vel.y as int,
                dt,
            )
        }
}

/// The agent stepped as the flocking rules direct: some exact
/// broad-phase candidate list exists for it, and its final record is
/// the integration of the flocking delta over that list.
pub open spec fn flocked_step(
    mid: Seq<Boid>,
    g: HashGrid,
    vals: BoidsValues,
    dt: int,
    i: int,
    post_b: Boid,
) -> bool {
    exists|ns: Seq<Boid>, ids: Seq<u64>|
        {
            &&& #[trigger] neighbor_candidates_ok(ns, ids, mid, g, i, vals.visual_range as int)
            &&& agent_step_ok(mid[i], post_b, ns, vals, dt)
        }
}

/// The whole-tick relation, under the sanitized configuration and the
/// clamped time step. `mid` is the post-reconciliation snapshot: the
/// configured number of agents, survivors bit-equal to their pre-tick
/// records, newcomers within the spawn bounds. The final index `g`
/// records exactly the live identifiers, each under the cell of its
/// `mid` position, and every final record is the integration of its
/// `mid` record under the flocking delta of its exact broad-phase
/// candidates.
pub open spec fn tick_relation(
    pre: Seq<Boid>,
    raw: BoidsValues,
    mid: Seq<Boid>,
    g: HashGrid,
    post: Seq<Boid>,
    dt_raw: int,
) -> bool {
    let vals = spec_sanitize(raw);
    let dt = clamp_s(dt_raw, 0, DT_LIMIT as int);
    &&& mid.len() == vals.count as int
    &&& (forall|i: int| 0 <= i < pre.len() && i < mid.len() ==> #[trigger] mid[i] == pre[i])
    &&& (forall|i: int| pre.len() <= i < mid.len() ==> spawn_in_bounds(#[trigger] mid[i]))
    &&& (forall|id: u64| #[trigger] g@.contains_key(id) <==> (id as int) < mid.len())
    &&& (forall|id: u64|
        #[trigger] g@.contains_key(id) ==> g@[id] == (pos_key(
            mid[id as int].pos,
            g.chunk(),
        ) as u64))
    &&& post.len() == mid.len()
    &&& (forall|i: int|
        #![trigger post[i]]
        0 <= i < post.len() ==> flocked_step(mid, g, vals, dt, i, post[i]))
}

/// The simulation: the agent records, the spatial index over them, and
/// the tunable parameters.
pub struct SimulationState {
    boids: Vec<Boid>,
    grid: HashGrid,
    values: BoidsValues,
}

impl View for SimulationState {
    type V = Seq<Boid>;

    /// The abstract model: the sequence of agent records; agent `i`
    /// carries identifier `i`.
    closed spec fn view(&self) -> Seq<Boid> {
        self.boids@
    }
}

impl SimulationState {
    /// The current configuration.
    pub closed spec fn values_view(self) -> BoidsValues {
        self.values
    }

    /// The spatial index as a value, for stating query contracts.
    pub closed spec fn grid_of(self) -> HashGrid {
        self.grid
    }

    /// Which cell key the index records for each agent.
    pub open spec fn index_model(self) -> Map<u64, u64> {
        self.grid_of()@
    }

    /// Internal coherence: the index is coherent and knows exactly the
    /// live identifiers, and every record is within world ranges.
    pub closed spec fn wf(self) -> bool {
        &&& self.grid.wf()
        &&& self.boids@.len() <= MAX_POPULATION
        &&& forall|i: int|
            0 <= i < self.boids@.len() ==> pos_in_range((#[trigger] self.boids@[i]).pos)
                && vel_in_range(self.boids@[i].vel)
        &&& forall|id: u64| self.grid@.contains_key(id) <==> (id as int) < self.boids@.len()
    }

    /// A fresh simulation with no agents, the stock configuration and
    /// an index with cells of side `chunk_size`.
    pub fn new(chunk_size: i64) -> (r: SimulationState)
        requires
            1 <= chunk_size <= POS_LIMIT,
        ensures
            r.wf(),
            r@.len() == 0,
            r.grid_of().chunk() == chunk_size as int,
    {
        SimulationState {
            boids: Vec::new(),
            grid: HashGrid::new(chunk_size),
            values: Default::default(),
        }
    }

    /// The tunable parameters as currently stored.
    pub fn get_config(&self) -> (r: BoidsValues)
        ensures
            r == self.values_view(),
    {
        self.values
    }

    /// Replaces the tunable parameters; they take effect next tick.
    pub fn set_config(&mut self, values: BoidsValues)
        requires
            old(self).wf(),
        ensures
            final(self).wf(),
            final(self)@ == old(self)@,
            final(self).values_view() == values,
            final(self).grid_of() == old(self).grid_of(),
    {
        self.values = values;
    }

    /// Sets how many agents the next reconciliation should leave.
    pub fn set_population_target(&mut self, n: usize)
        requires
            old(self).wf(),
        ensures
            final(self).wf(),
            final(self)@ == old(self)@,
            final(self).values_view().count == n,
            final(self).values_view() == (BoidsValues { count: n, ..old(self).values_view() }),
            final(self).grid_of() == old(self).grid_of(),
    {
        self.values.count = n;
    }

    /// Sets or clears the seek target, clamping it into the world
    /// bounds as the pointer-driven caller expects.
    pub fn set_target_position(&mut self, target: Option<Vec2i>)
        requires
            old(self).wf(),
        ensures
            final(self).wf(),
            final(self)@ == old(self)@,
            final(self).grid_of() == old(self).grid_of(),
            final(self).values_view() == (BoidsValues {
                target_pos: match target {
                    Some(t) => Some(
                        (Vec2i {
                            x: clamp_s(t.x as int, -BOUNDS_X as int, BOUNDS_X as int) as i64,
                            y: clamp_s(t.y as int, -BOUNDS_Y as int, BOUNDS_Y as int) as i64,
                        }),
                    ),
                    None => None,
                },
                ..old(self).values_view()
            }),
    {
        self.values.target_pos = match target {
            Some(t) => Some(
                Vec2i {
                    x: clamp_i64(t.x, -BOUNDS_X, BOUNDS_X),
                    y: clamp_i64(t.y, -BOUNDS_Y, BOUNDS_Y),
                },
            ),
            None => None,
        };
    }

    /// A snapshot of every agent for the renderer, in identifier order.
    pub fn agents(&self) -> (r: Vec<Boid>)
        requires
            self.wf(),
        ensures
            r@ == self@,
    {
        let mut out: Vec<Boid> = Vec::new();
        let mut i: usize = 0;
        while i < self.boids.len()
            invariant
                self.wf(),
                0 <= i <= self.boids@.len(),
                out@ == self.boids@.subrange(0, i as int),
            decreases self.boids@.len() - i,
        {
            out.push(self.boids[i]);
            proof {
                assert(out@ =~= self.boids@.subrange(0, i + 1));
            }
            i += 1;
        }
        proof {
            assert(out@ =~= self.boids@);
        }
        out
    }

    /// Debug query: the broad-phase neighborhood of one agent, as the
    /// index currently records it, the agent itself excluded.
    pub fn neighbors_of(&self, id: u64, radius: i64) -> (r: Vec<u64>)
        requires
            self.wf(),
            0 <= radius <= POS_LIMIT,
            (id as int) < self@.len(),
        ensures
            no_dup(r@),
            forall|other: u64|
                #![trigger r@.contains(other)]
                r@.contains(other) <==> (other != id && query_hit(
                    self.grid_of(),
                    self@[id as int].pos,
                    radius as int,
                    other,
                )),
    {
        let pos = self.boids[id as usize].pos;
        let candidates = self.grid.get_in_radius(pos, radius);
        let mut out: Vec<u64> = Vec::new();
        let mut k: usize = 0;
        while k < candidates.len()
            invariant
                no_dup(candidates@),
                0 <= k <= candidates@.len(),
                no_dup(out@),
                forall|other: u64|
                    #![trigger out@.contains(other)]
                    out@.contains(other) <==> (other != id && candidates@.subrange(
                        0,
                        k as int,
                    ).contains(other)),
            decreases candidates@.len() - k,
        {
            let other = candidates[k];
            let ghost before = out@;
            if other != id {
                proof {
                    assert(!out@.contains(other)) by {
                        if candidates@.subrange(0, k as int).contains(other) {
                            let m = choose|m: int|
                                0 <= m < k && candidates@.subrange(0, k as int)[m] == other;
                            assert(candidates@[m] == other && candidates@[k as int] == other);
                        }
                    }
                    crate::hash_grid::lemma_no_dup_push(out@, other);
                }
                out.push(other);
            }
            k += 1;
            proof {
                assert(candidates@.subrange(0, k as int) =~= candidates@.subrange(0, k - 1).push(
                    candidates@[k - 1],
                ));
                assert forall|o: u64| #[trigger] out@.contains(o) implies (o != id
                    && candidates@.subrange(0, k as int).contains(o)) by {
                    let m = choose|m: int| 0 <= m < out@.len() && out@[m] == o;
                    if m < before.len() {
                        assert(before[m] == o);
                        assert(before.contains(o));
                        let mm = choose|mm: int|
                            0 <= mm < k - 1 && #[trigger] candidates@.subrange(0, k - 1)[mm] == o;
                        assert(candidates@.subrange(0, k as int)[mm] == o);
                    } else {
                        assert(o == other && other != id);
                        assert(candidates@.subrange(0, k as int)[k - 1] == o);
                    }
                }
                assert forall|o: u64|
                    o != id && candidates@.subrange(0, k as int).contains(
                        o,
                    ) implies #[trigger] out@.contains(o) by {
                    let m = choose|m: int|
                        0 <= m < k && candidates@.subrange(0, k as int)[m] == o;
                    if m < k - 1 {
                        assert(candidates@.subrange(0, k - 1)[m] == o);
                        assert(before.contains(o));
                        let mm = choose|mm: int| 0 <= mm < before.len() && before[mm] == o;
                        assert(out@[mm] == o);
                    } else {
                        assert(o == candidates@[k - 1]);
                        assert(out@[out@.len() - 1] == o);
                    }
                }
            }
        }
        proof {
            assert(candidates@.subrange(0, candidates@.len() as int) =~= candidates@);
        }
        out
    }

    /// Brings the population to exactly `target`: removes agents from
    /// the end (dropping their index entries) or spawns new ones at
    /// uniformly random positions and starting velocities (indexing
    /// them at once). Surviving agents and their identifiers are
    /// untouched, and afterwards the index knows exactly the
    /// identifiers below `target`.
    pub fn reconcile_population(&mut self, target: usize)
        requires
            old(self).wf(),
            target <= MAX_POPULATION,
        ensures
            final(self).wf(),
            final(self)@.len() == target as int,
            forall|i: int|
                0 <= i < old(self)@.len() && i < target as int ==> final(self)@[i] == old(
                    self,
                )@[i],
            forall|i: int|
                old(self)@.len() <= i < target as int ==> spawn_in_bounds(
                    #[trigger] final(self)@[i],
                ),
            final(self).values_view() == old(self).values_view(),
            final(self).grid_of().chunk() == old(self).grid_of().chunk(),
            forall|id: u64|
                #![trigger final(self).index_model().contains_key(id)]
                final(self).index_model().contains_key(id) <==> (id as int) < target as int,
    {
        let ghost b0 = self.boids@;
        let ghost v0 = self.values;
        let ghost c0 = self.grid.chunk();
        proof {
            assert(self.boids@ =~= b0.subrange(0, self.boids@.len() as int));
        }
        while self.boids.len() > target
            invariant
                self.wf(),
                self.values == v0,
                self.grid.chunk() == c0,
                self.boids@.len() <= b0.len(),
                self.boids@.len() >= target || self.boids@.len() == b0.len(),
                self.boids@ == b0.subrange(0, self.boids@.len() as int),
            decreases self.boids@.len(),
        {
            let id = (self.boids.len() - 1) as u64;
            self.boids.pop();
            self.grid.remove_entity(id);
            proof {
                assert(self.boids@ =~= b0.subrange(0, self.boids@.len() as int));
            }
        }
        proof {
            assert forall|i: int| 0 <= i < b0.len() && i < target as int && i
                < self.boids@.len() implies #[trigger] self.boids@[i] == b0[i] by {
                assert(self.boids@ == b0.subrange(0, self.boids@.len() as int));
            }
        }
        let mut rng = new_rng();
        while self.boids.len() < target
            invariant
                self.wf(),
                self.values == v0,
                self.grid.chunk() == c0,
                target <= MAX_POPULATION,
                self.boids@.len() <= target,
                self.boids@.len() >= (if b0.len() < target as int {
                    b0.len() as int
                } else {
                    target as int
                }),
                forall|i: int|
                    0 <= i < b0.len() && i < target as int && i < self.boids@.len() ==> #[trigger] self.boids@[i] == b0[i],
                forall|i: int|
                    b0.len() <= i < self.boids@.len() ==> spawn_in_bounds(
                        #[trigger] self.boids@[i],
                    ),
            decreases target - self.boids@.len(),
        {
            let x = gen_range_i64(&mut rng, -BOUNDS_X, BOUNDS_X);
            let y = gen_range_i64(&mut rng, -BOUNDS_Y, BOUNDS_Y);
            let vx = gen_range_i64(&mut rng, -STARTING_VELOCITY, STARTING_VELOCITY);
            let vy = gen_range_i64(&mut rng, -STARTING_VELOCITY, STARTING_VELOCITY);
            let b = Boid { pos: Vec2i { x, y }, vel: Vec2i { x: vx, y: vy } };
            let id = self.boids.len() as u64;
            self.boids.push(b);
            self.grid.update_entity(id, b.pos);
        }
    }

    /// Advances the simulation one tick of `dt` (fixed-point seconds):
    /// reconciles the population to the configured count, refreshes
    /// the index from every position, evaluates the flocking rules for
    /// every agent against the pre-tick snapshot, and integrates all
    /// agents in parallel. `tick_relation` pins the whole step: some
    /// reconciled snapshot exists from which every final record is the
    /// verified integration of that agent's exact flocking delta. With
    /// a valid configuration whose speed bounds stand at least three
    /// units apart, every agent that is still moving when it reaches
    /// the clamp ends the tick with speed in `[min_speed, max_speed]`.
    pub fn tick(&mut self, dt: i64)
        requires
            old(self).wf(),
        ensures
            final(self).wf(),
            final(self).values_view() == old(self).values_view(),
            final(self).grid_of().chunk() == old(self).grid_of().chunk(),
            final(self)@.len() == spec_sanitize(old(self).values_view()).count as int,
            exists|mid: Seq<Boid>|
                #[trigger] tick_relation(
                    old(self)@,
                    old(self).values_view(),
                    mid,
                    final(self).grid_of(),
                    final(self)@,
                    dt as int,
                ),
            forall|id: u64|
                #![trigger final(self).index_model().contains_key(id)]
                final(self).index_model().contains_key(id) <==> (id as int) < final(self)@.len(),
            forall|i: int|
                0 <= i < final(self)@.len() ==> pos_in_range((#[trigger] final(self)@[i]).pos)
                    && vel_in_range(final(self)@[i].vel),
            valid_values(old(self).values_view()) && 3 <= old(self).values_view().min_speed && old(
                self,
            ).values_view().min_speed + 3 <= old(self).values_view().max_speed ==> forall|i: int|
                0 <= i < final(self)@.len() ==> {
                    let w = (#[trigger] final(self)@[i]).vel;
                    (w.x == 0 && w.y == 0) || (old(self).values_view().min_speed <= sqrt_i(
                        w.x as int * w.x as int + w.y as int * w.y as int,
                    ) <= old(self).values_view().max_speed)
                },
    {
        let values = self.values.sanitized();
        let dtc = clamp_i64(dt, 0, DT_LIMIT);
        self.reconcile_population(values.count);
        let ghost mid0 = self.boids@;
        let n = self.boids.len();
        // Index update phase: every agent's entry reflects its current
        // position before any query of this tick.
        let mut i: usize = 0;
        while i < n
            invariant
                self.wf(),
                n == self.boids@.len(),
                self.boids@ == mid0,
                self.values == old(self).values_view(),
                self.grid.chunk() == old(self).grid_of().chunk(),
                0 <= i <= n,
                forall|id: u64|
                    (id as int) < i as int ==> #[trigger] self.grid@[id] == (pos_key(
                        mid0[id as int].pos,
                        self.grid.chunk(),
                    ) as u64),
            decreases n - i,
        {
            self.grid.update_entity(i as u64, self.boids[i].pos);
            i += 1;
        }
        let ghost g2 = self.grid;
        // Rule evaluation phase: deltas into a separate buffer, reading
        // only the pre-tick snapshot; the candidate lists are recorded
        // alongside so the whole step can be stated.
        let mut deltas: Vec<Vec2i> = Vec::new();
        let ghost mut nss: Seq<Seq<Boid>> = Seq::empty();
        let ghost mut idss: Seq<Seq<u64>> = Seq::empty();
        let mut i: usize = 0;
        while i < n
            invariant
                self.wf(),
                n == self.boids@.len(),
                self.boids@ == mid0,
                self.grid == g2,
                valid_values(values),
                deltas@.len() == i,
                nss.len() == i,
                idss.len() == i,
                0 <= i <= n,
                forall|k: int|
                    0 <= k < i ==> abs_s((#[trigger] deltas@[k]).x as int) <= 5_000_000_000_000
                        && abs_s(deltas@[k].y as int) <= 5_000_000_000_000,
                forall|k: int|
                    0 <= k < i ==> #[trigger] neighbor_candidates_ok(
                        nss[k],
                        idss[k],
                        mid0,
                        g2,
                        k,
                        values.visual_range as int,
                    ),
                forall|k: int|
                    0 <= k < i ==> ((#[trigger] deltas@[k]).x as int, deltas@[k].y as int)
                        == spec_flock_delta(
                        nss[k],
                        mid0[k].pos,
                        mid0[k].vel,
                        values.visual_range as int,
                        values.protected_range as int,
                        values.matching as int,
                        values.avoid as int,
                        values.centering as int,
                    ),
            decreases n - i,
        {
            let pos = self.boids[i].pos;
            let candidates = self.grid.get_in_radius(pos, values.visual_range);
            proof {
                assert forall|k: int| 0 <= k < candidates@.len() implies (
                #[trigger] candidates@[k] as nat) < n as nat by {
                    assert(candidates@.contains(candidates@[k]));
                }
                lemma_no_dup_len_bound(candidates@, n as nat);
            }
            let mut ns: Vec<Boid> = Vec::new();
            let ghost mut ids: Seq<u64> = Seq::empty();
            let mut k: usize = 0;
            while k < candidates.len()
                invariant
                    self.wf(),
                    n == self.boids@.len(),
                    self.boids@ == mid0,
                    self.grid == g2,
                    pos == mid0[i as int].pos,
                    0 <= i < n,
                    no_dup(candidates@),
                    candidates@.len() <= n,
                    forall|id: u64|
                        #![trigger candidates@.contains(id)]
                        candidates@.contains(id) <==> query_hit(
                            g2,
                            pos,
                            values.visual_range as int,
                            id,
                        ),
                    forall|m: int|
                        0 <= m < candidates@.len() ==> self.grid@.contains_key(
                            #[trigger] candidates@[m],
                        ),
                    0 <= k <= candidates@.len(),
                    ns@.len() == ids.len(),
                    ids.len() <= k,
                    no_dup(ids),
                    forall|m: int|
                        0 <= m < ids.len() ==> (#[trigger] ids[m]) != i as u64 && query_hit(
                            g2,
                            pos,
                            values.visual_range as int,
                            ids[m],
                        ) && (ids[m] as int) < n as int && ns@[m] == mid0[ids[m] as int],
                    forall|e: u64|
                        #[trigger] ids.contains(e) ==> candidates@.subrange(0, k as int).contains(
                            e,
                        ),
                    forall|m: int|
                        0 <= m < k as int && candidates@[m] != i as u64 ==> ids.contains(
                            #[trigger] candidates@[m],
                        ),
                decreases candidates@.len() - k,
            {
                let other = candidates[k];
                let ghost ids0 = ids;
                proof {
                    assert(candidates@[k as int] == other);
                    assert(candidates@.contains(other));
                    assert(self.grid@.contains_key(other));
                    assert((other as int) < self.boids@.len());
                    assert(pos_in_range(self.boids@[other as int].pos) && vel_in_range(
                        self.boids@[other as int].vel,
                    ));
                }
                if other != i as u64 {
                    proof {
                        assert(!ids.contains(other)) by {
                            if ids.contains(other) {
                                assert(candidates@.subrange(0, k as int).contains(other));
                                let m = choose|m: int|
                                    0 <= m < k && candidates@.subrange(0, k as int)[m] == other;
                                assert(candidates@[m] == other && candidates@[k as int] == other);
                            }
                        }
                        crate::hash_grid::lemma_no_dup_push(ids, other);
                    }
                    ns.push(self.boids[other as usize]);
                    proof {
                        ids = ids.push(other);
                    }
                }
                k += 1;
                proof {
                    assert(candidates@.subrange(0, k as int) =~= candidates@.subrange(
                        0,
                        k - 1,
                    ).push(candidates@[k - 1]));
                    assert forall|e: u64| #[trigger] ids.contains(e) implies candidates@.subrange(
                        0,
                        k as int,
                    ).contains(e) by {
                        let m = choose|m: int| 0 <= m < ids.len() && ids[m] == e;
                        if m < ids0.len() {
                            assert(ids0[m] == e);
                            assert(ids0.contains(e));
                            let mm = choose|mm: int|
                                0 <= mm < k - 1 && #[trigger] candidates@.subrange(0, k - 1)[mm]
                                    == e;
                            assert(candidates@.subrange(0, k as int)[mm] == e);
                        } else {
                            assert(e == other);
                            assert(candidates@.subrange(0, k as int)[k - 1] == e);
                        }
                    }
                    assert forall|m: int|
                        0 <= m < k as int && candidates@[m] != i as u64 implies ids.contains(
                        #[trigger] candidates@[m],
                    ) by {
                        if m < k - 1 {
                            assert(ids0.contains(candidates@[m]));
                            let mm = choose|mm: int|
                                0 <= mm < ids0.len() && ids0[mm] == candidates@[m];
                            assert(ids[mm] == candidates@[m]);
                        } else {
                            assert(other != i as u64);
                            assert(ids[ids.len() - 1] == other);
                        }
                    }
                }
            }
            proof {
                assert forall|id: u64|
                    id != i as u64 && #[trigger] query_hit(
                        g2,
                        mid0[i as int].pos,
                        values.visual_range as int,
                        id,
                    ) implies ids.contains(id) by {
                    assert(candidates@.contains(id));
                    let m = choose|m: int| 0 <= m < candidates@.len() && candidates@[m] == id;
                }
                assert(neighbor_candidates_ok(
                    ns@,
                    ids,
                    mid0,
                    g2,
                    i as int,
                    values.visual_range as int,
                ));
                assert forall|m: int| 0 <= m < ns@.len() implies pos_in_range(
                    (#[trigger] ns@[m]).pos,
                ) && vel_in_range(ns@[m].vel) by {
                    assert(ns@[m] == self.boids@[ids[m] as int]);
                }
            }
            let d = flock_delta(
                pos,
                self.boids[i].vel,
                &ns,
                values.visual_range,
                values.protected_range,
                values.matching,
                values.avoid,
                values.centering,
            );
            deltas.push(d);
            proof {
                nss = nss.push(ns@);
                idss = idss.push(ids);
            }
            i += 1;
        }
        // Integration phase: every agent advanced in parallel from the
        // delta buffer.
        let new_boids = par_integrate(&self.boids, &deltas, &values, dtc);
        self.boids = new_boids;
        proof {
            assert(self.grid == g2);
            // The whole-tick relation, witnessed by the reconciled
            // snapshot and the recorded candidate lists.
            assert(values == spec_sanitize(old(self).values_view()));
            assert(dtc as int == clamp_s(dt as int, 0, DT_LIMIT as int));
            assert forall|i: int| #![trigger self.boids@[i]] 0 <= i
                < self.boids@.len() implies flocked_step(
                mid0,
                self.grid,
                spec_sanitize(old(self).values_view()),
                clamp_s(dt as int, 0, DT_LIMIT as int),
                i,
                self.boids@[i],
            ) by {
                assert(neighbor_candidates_ok(
                    nss[i],
                    idss[i],
                    mid0,
                    self.grid,
                    i,
                    spec_sanitize(old(self).values_view()).visual_range as int,
                ));
                let dw = deltas@[i];
                assert((dw.x as int, dw.y as int) == spec_flock_delta(
                    nss[i],
                    mid0[i].pos,
                    mid0[i].vel,
                    spec_sanitize(old(self).values_view()).visual_range as int,
                    spec_sanitize(old(self).values_view()).protected_range as int,
                    spec_sanitize(old(self).values_view()).matching as int,
                    spec_sanitize(old(self).values_view()).avoid as int,
                    spec_sanitize(old(self).values_view()).centering as int,
                ));
                assert((self.boids@[i].vel.x as int, self.boids@[i].vel.y as int)
                    == spec_integrate_vel(
                    mid0[i],
                    dw,
                    spec_sanitize(old(self).values_view()),
                ));
                assert((self.boids@[i].pos.x as int, self.boids@[i].pos.y as int)
                    == spec_integrate_pos(
                    mid0[i],
                    self.boids@[i].vel.x as int,
                    self.boids@[i].vel.y as int,
                    clamp_s(dt as int, 0, DT_LIMIT as int),
                ));
                assert(agent_step_ok(
                    mid0[i],
                    self.boids@[i],
                    nss[i],
                    spec_sanitize(old(self).values_view()),
                    clamp_s(dt as int, 0, DT_LIMIT as int),
                ));
            }
            assert(mid0.len() == spec_sanitize(old(self).values_view()).count as int);
            assert(forall|i: int|
                0 <= i < old(self)@.len() && i < mid0.len() ==> #[trigger] mid0[i] == old(
                    self,
                )@[i]);
            assert(forall|i: int|
                old(self)@.len() <= i < mid0.len() ==> spawn_in_bounds(#[trigger] mid0[i]));
            assert(forall|id: u64|
                #[trigger] self.grid@.contains_key(id) <==> (id as int) < mid0.len());
            assert forall|id: u64| #[trigger] self.grid@.contains_key(id) implies self.grid@[id]
                == (pos_key(mid0[id as int].pos, self.grid.chunk()) as u64) by {
                assert((id as int) < n as int);
            }
            assert(self.boids@.len() == mid0.len());
            assert(tick_relation(
                old(self)@,
                old(self).values_view(),
                mid0,
                self.grid,
                self.boids@,
                dt as int,
            ));
            if valid_values(old(self).values_view()) && 3 <= old(self).values_view().min_speed
                && old(self).values_view().min_speed + 3 <= old(self).values_view().max_speed {
                assert(values == old(self).values_view());
                assert forall|ii: int| 0 <= ii < self.boids@.len() implies {
                    let w = (#[trigger] self.boids@[ii]).vel;
                    (w.x == 0 && w.y == 0) || (values.min_speed <= sqrt_i(
                        w.x as int * w.x as int + w.y as int * w.y as int,
                    ) <= values.max_speed)
                } by {
                    let v4 = pre_clamp_vel(mid0[ii], deltas@[ii], values);
                    if v4.0 * v4.0 + v4.1 * v4.1 >= 1 {
                        lemma_integrate_speed_bounds(mid0[ii], deltas@[ii], values);
                    } else {
                        assert(v4.0 == 0 && v4.1 == 0) by (nonlinear_arith)
                            requires
                                v4.0 * v4.0 + v4.1 * v4.1 < 1,
                        ;
                        crate::fixed::lemma_sqrt_i(0);
                        assert(sqrt_i(0) == 0) by (nonlinear_arith)
                            requires
                                crate::fixed::is_sqrt(sqrt_i(0), 0),
                        ;
                        assert(self.boids@[ii].vel.x == 0 && self.boids@[ii].vel.y == 0);
                    }
                }
            }
        }
    }
}

} // verus!
