//! Uniform spatial grid over the plane.
//!
//! The world is cut into square cells of side `chunk_size`. The grid
//! maps each occupied cell to the agents inside it and keeps a reverse
//! map from each agent to its cell, so a single agent can be relocated
//! in amortized constant time. Its abstract model (the view) is the
//! reverse map: a finite map from agent identifier to cell key.
//!
//! A cell at row `i`, column `j` (both in `[-2^31, 2^31)`) is stored
//! under the packed key `(i + 2^31) * 2^32 + (j + 2^31)`.

use vstd::prelude::*;

use crate::fixed::POS_LIMIT;
use crate::fixed::Vec2i;
use crate::fixed::dist_sq;
use crate::fixed::lemma_div_bounds;
use crate::fixed::pos_in_range;
use crate::fixed::div_floor;

use std::collections::HashMap;

verus! {

broadcast use vstd::std_specs::hash::group_hash_axioms;

/// A sequence holds no element twice.
pub open spec fn no_dup(s: Seq<u64>) -> bool {
    forall|m: int, n: int| 0 <= m < n < s.len() ==> s[m] != s[n]
}

/// Packed key of the cell at row `i`, column `j`.
pub open spec fn cell_key_int(i: int, j: int) -> int {
    (i + 2_147_483_648) * 4_294_967_296 + (j + 2_147_483_648)
}

/// Row encoded in a packed cell key.
pub open spec fn key_row(k: int) -> int {
    k / 4_294_967_296 - 2_147_483_648
}

/// Column encoded in a packed cell key.
pub open spec fn key_col(k: int) -> int {
    k % 4_294_967_296 - 2_147_483_648
}

/// Key of the cell that contains the point `pos` on a grid with cells
/// of side `cs`: row from `y`, column from `x`, both rounded down.
pub open spec fn pos_key(pos: Vec2i, cs: int) -> int {
    cell_key_int(pos.y as int / cs, pos.x as int / cs)
}

/// The key `k` lies in the rectangle of cells that a broad-phase query
/// at `pos` with the given radius must visit: from the cell containing
/// `pos - radius` through the cell containing `pos + radius`.
pub open spec fn key_in_span(k: int, pos: Vec2i, radius: int, cs: int) -> bool {
    &&& (pos.y - radius) / cs <= key_row(k) <= (pos.y + radius) / cs
    &&& (pos.x - radius) / cs <= key_col(k) <= (pos.x + radius) / cs
}

/// The agent `id` is recorded in the grid under a cell that the
/// broad-phase query at `pos` with the given radius visits.
pub open spec fn query_hit(g: HashGrid, pos: Vec2i, radius: int, id: u64) -> bool {
    &&& g@.contains_key(id)
    &&& key_in_span(g@[id] as int, pos, radius, g.chunk())
}

/// Every packed key decodes to a row and column in `[-2^31, 2^31)` and
/// is rebuilt from them.
pub proof fn lemma_key_reconstruct(k: u64)
    ensures
        cell_key_int(key_row(k as int), key_col(k as int)) == k as int,
        -2_147_483_648 <= key_row(k as int) < 2_147_483_648,
        -2_147_483_648 <= key_col(k as int) < 2_147_483_648,
{
    let b: int = 4_294_967_296;
    vstd::arithmetic::div_mod::lemma_fundamental_div_mod(k as int, b);
    assert(0 <= k as int / b < b) by (nonlinear_arith)
        requires
            0 <= (k as int) && (k as int) < b * b && k as int == b * (k as int / b) + (k as int
                % b) && 0 <= (k as int % b) < b,
    ;
}

/// Packs a row and a column into a cell key.
fn make_key(i: i64, j: i64) -> (k: u64)
    requires
        -2_147_483_648 <= i < 2_147_483_648,
        -2_147_483_648 <= j < 2_147_483_648,
    ensures
        k as int == cell_key_int(i as int, j as int),
        key_row(k as int) == i as int,
        key_col(k as int) == j as int,
{
    let ui: u64 = (i + 2_147_483_648) as u64;
    let uj: u64 = (j + 2_147_483_648) as u64;
    assert((ui as int) * 4_294_967_296 + (uj as int) < 0x1_0000_0000_0000_0000) by (nonlinear_arith)
        requires
            0 <= (ui as int) < 4_294_967_296 && 0 <= (uj as int) < 4_294_967_296,
    ;
    let k: u64 = ui * 4_294_967_296 + uj;
    proof {
        vstd::arithmetic::div_mod::lemma_fundamental_div_mod_converse(
            k as int,
            4_294_967_296,
            ui as int,
            uj as int,
        );
    }
    k
}

/// Removes one element from a duplicate-free vector, if present.
fn vec_remove_value(v: &mut Vec<u64>, x: u64)
    requires
        no_dup(old(v)@),
    ensures
        no_dup(final(v)@),
        !final(v)@.contains(x),
        forall|e: u64| e != x ==> (final(v)@.contains(e) <==> old(v)@.contains(e)),
        old(v)@.contains(x) ==> final(v)@.len() == old(v)@.len() - 1,
        !old(v)@.contains(x) ==> final(v)@ == old(v)@,
{
    let ghost s = v@;
    let mut n: usize = 0;
    while n < v.len()
        invariant
            no_dup(s),
            v@ == s,
            s == old(v)@,
            0 <= n <= s.len(),
            forall|m: int| 0 <= m < n ==> s[m] != x,
        decreases s.len() - n,
    {
        if v[n] == x {
            v.remove(n);
            proof {
                assert(v@ == s.remove(n as int));
                assert forall|m1: int, m2: int| 0 <= m1 < m2 < v@.len() implies v@[m1]
                    != v@[m2] by {
                    assert(v@[m1] == if m1 < n as int {
                        s[m1]
                    } else {
                        s[m1 + 1]
                    });
                    assert(v@[m2] == if m2 < n as int {
                        s[m2]
                    } else {
                        s[m2 + 1]
                    });
                }
                assert forall|e: u64| v@.contains(e) implies s.contains(e) && (e == x
                    ==> false) by {
                    let m = choose|m: int| 0 <= m < v@.len() && v@[m] == e;
                    if m < n as int {
                        assert(s[m] == e);
                    } else {
                        assert(s[m + 1] == e);
                    }
                }
                assert forall|e: u64| s.contains(e) && e != x implies v@.contains(e) by {
                    let m = choose|m: int| 0 <= m < s.len() && s[m] == e;
                    if m < n as int {
                        assert(v@[m] == e);
                    } else {
                        assert(s[n as int] == x);
                        assert(m != n as int);
                        assert(v@[m - 1] == e);
                    }
                }
                assert(s.contains(x)) by {
                    assert(s[n as int] == x);
                }
                assert(v@.len() == s.len() - 1);
            }
            return ;
        }
        n += 1;
    }
    proof {
        assert forall|e: u64| s.contains(e) implies e != x by {
            let m = choose|m: int| 0 <= m < s.len() && s[m] == e;
        }
    }
}

/// Appends an element known to be absent, keeping freedom from
/// duplicates.
pub proof fn lemma_no_dup_push(s: Seq<u64>, x: u64)
    requires
        no_dup(s),
        !s.contains(x),
    ensures
        no_dup(s.push(x)),
{
    assert forall|m1: int, m2: int| 0 <= m1 < m2 < s.push(x).len() implies s.push(x)[m1] != s.push(
        x,
    )[m2] by {
        if m2 == s.len() {
            assert(s[m1] == s.push(x)[m1]);
            assert(!s.contains(s[m1]) ==> false);
        }
    }
}

/// The uniform grid: each occupied cell maps to the duplicate-free set
/// of agents inside it, and `association` records each agent's cell.
pub struct HashGrid {
    /// Side length of one square cell, in fixed-point units.
    pub chunk_size: i64,
    grid: HashMap<u64, Vec<u64>>,
    association: HashMap<u64, u64>,
}

impl View for HashGrid {
    type V = Map<u64, u64>;

    /// The abstract model: which cell key each agent is recorded under.
    closed spec fn view(&self) -> Map<u64, u64> {
        self.association@
    }
}

impl HashGrid {
    /// Cell side length, as a mathematical integer.
    pub closed spec fn chunk(self) -> int {
        self.chunk_size as int
    }

    /// Internal coherence: the two maps mirror each other, no cell is
    /// empty, and no agent appears twice.
    pub closed spec fn wf(self) -> bool {
        &&& 1 <= self.chunk_size <= POS_LIMIT
        &&& forall|id: u64| #[trigger] self.association@.contains_key(id) ==> {
            &&& self.grid@.contains_key(self.association@[id])
            &&& self.grid@[self.association@[id]]@.contains(id)
        }
        &&& forall|k: u64| #[trigger] self.grid@.contains_key(k) ==> {
            &&& self.grid@[k]@.len() > 0
            &&& no_dup(self.grid@[k]@)
            &&& forall|n: int| 0 <= n < self.grid@[k]@.len() ==> {
                &&& self.association@.contains_key(#[trigger] self.grid@[k]@[n])
                &&& self.association@[self.grid@[k]@[n]] == k
            }
        }
    }

    /// A fresh grid with the given cell side, holding no agent.
    pub fn new(chunk_size: i64) -> (r: HashGrid)
        requires
            1 <= chunk_size <= POS_LIMIT,
        ensures
            r.wf(),
            r@ == Map::<u64, u64>::empty(),
            r.chunk() == chunk_size as int,
    {
        HashGrid { chunk_size, grid: HashMap::new(), association: HashMap::new() }
    }

    /// Records that the agent now stands at `pos`, moving it between
    /// cells if its cell changed and doing nothing at all if not.
    pub fn update_entity(&mut self, entity: u64, pos: Vec2i)
        requires
            old(self).wf(),
            pos_in_range(pos),
        ensures
            final(self).wf(),
            final(self).chunk() == old(self).chunk(),
            final(self)@ == old(self)@.insert(
                entity,
                pos_key(pos, old(self).chunk()) as u64,
            ),
            old(self)@.contains_key(entity) && old(self)@[entity] as int == pos_key(
                pos,
                old(self).chunk(),
            ) ==> *final(self) == *old(self),
    {
        let cs = self.chunk_size;
        proof {
            lemma_div_bounds(pos.y as int, cs as int, POS_LIMIT as int);
            lemma_div_bounds(pos.x as int, cs as int, POS_LIMIT as int);
        }
        let i = div_floor(pos.y, cs);
        let j = div_floor(pos.x, cs);
        let key = make_key(i, j);
        let mut had_prev = false;
        let mut prev_key: u64 = 0;
        match self.association.get(&entity) {
            Some(p) => {
                if *p == key {
                    proof {
                        assert(old(self)@.insert(entity, key) =~= old(self)@);
                    }
                    return ;
                }
                had_prev = true;
                prev_key = *p;
            },
            None => {},
        }
        let ghost g0 = self.grid@;
        let ghost a0 = self.association@;
        if had_prev {
            match self.grid.remove(&prev_key) {
                Some(mut cell) => {
                    vec_remove_value(&mut cell, entity);
                    if cell.len() > 0 {
                        self.grid.insert(prev_key, cell);
                    }
                },
                None => {
                    proof {
                        assert(false);
                    }
                },
            }
        }
        let ghost g1 = self.grid@;
        // After pruning, `entity` stands in no cell.
        proof {
            assert forall|k: u64| #[trigger] g1.contains_key(k) implies !g1[k]@.contains(
                entity,
            ) by {
                if k == prev_key {
                } else {
                    assert(g0.contains_key(k) && g1[k] == g0[k]);
                    if g0[k]@.contains(entity) {
                        assert(a0.contains_key(entity) && a0[entity] == k);
                        assert(had_prev && prev_key == k);
                    }
                }
            }
            // Pruning kept every other agent in its cell.
            assert forall|id: u64| a0.contains_key(id) && id != entity implies g1.contains_key(
                a0[id],
            ) && g1[a0[id]]@.contains(id) by {
                if had_prev && a0[id] == prev_key {
                    assert(g0[prev_key]@.contains(id));
                }
            }
        }
        match self.grid.remove(&key) {
            Some(mut cell) => {
                proof {
                    lemma_no_dup_push(cell@, entity);
                }
                cell.push(entity);
                self.grid.insert(key, cell);
            },
            None => {
                let mut cell: Vec<u64> = Vec::new();
                cell.push(entity);
                self.grid.insert(key, cell);
            },
        }
        self.association.insert(entity, key);
        proof {
            let gf = self.grid@;
            let af = self.association@;
            assert forall|id: u64| #[trigger] af.contains_key(id) implies gf.contains_key(af[id])
                && gf[af[id]]@.contains(id) by {
                if id == entity {
                    assert(gf[key]@.last() == entity);
                } else {
                    assert(a0.contains_key(id) && af[id] == a0[id]);
                    if a0[id] == key {
                        assert(g1[key]@.contains(id));
                        let m = choose|m: int| 0 <= m < g1[key]@.len() && g1[key]@[m] == id;
                        assert(gf[key]@[m] == id);
                    } else {
                        assert(g1.contains_key(a0[id]) && g1[a0[id]]@.contains(id));
                    }
                }
            }
            assert forall|k: u64| #[trigger] gf.contains_key(k) implies gf[k]@.len() > 0 && no_dup(
                gf[k]@,
            ) && (forall|n: int|
                0 <= n < gf[k]@.len() ==> af.contains_key(#[trigger] gf[k]@[n])
                    && af[gf[k]@[n]] == k) by {
                if k == key {
                    assert forall|n: int| 0 <= n < gf[k]@.len() implies af.contains_key(
                        #[trigger] gf[k]@[n],
                    ) && af[gf[k]@[n]] == k by {
                        if n < gf[k]@.len() - 1 {
                            let id = gf[k]@[n];
                            assert(g1[key]@.contains(id));
                            assert(a0.contains_key(id) && a0[id] == key);
                            assert(id != entity);
                        }
                    }
                    assert(no_dup(gf[k]@)) by {
                        if g1.contains_key(key) {
                        }
                    }
                } else {
                    assert(g1.contains_key(k) && gf[k] == g1[k]);
                    assert forall|n: int| 0 <= n < gf[k]@.len() implies af.contains_key(
                        #[trigger] gf[k]@[n],
                    ) && af[gf[k]@[n]] == k by {
                        let id = gf[k]@[n];
                        assert(g1[k]@.contains(id));
                        assert(a0.contains_key(id) && a0[id] == k);
                        assert(id != entity);
                    }
                }
            }
            assert(af == a0.insert(entity, key));
        }
    }

    /// Removes the agent from the grid; a no-op when it is unknown.
    pub fn remove_entity(&mut self, entity: u64)
        requires
            old(self).wf(),
        ensures
            final(self).wf(),
            final(self).chunk() == old(self).chunk(),
            final(self)@ == old(self)@.remove(entity),
    {
        let ghost g0 = self.grid@;
        let ghost a0 = self.association@;
        let mut had_prev = false;
        let mut prev_key: u64 = 0;
        match self.association.get(&entity) {
            Some(p) => {
                had_prev = true;
                prev_key = *p;
            },
            None => {
                proof {
                    assert(old(self)@.remove(entity) =~= old(self)@);
                }
                return ;
            },
        }
        match self.grid.remove(&prev_key) {
            Some(mut cell) => {
                vec_remove_value(&mut cell, entity);
                if cell.len() > 0 {
                    self.grid.insert(prev_key, cell);
                }
            },
            None => {
                proof {
                    assert(false);
                }
            },
        }
        self.association.remove(&entity);
        proof {
            let gf = self.grid@;
            let af = self.association@;
            assert(af == a0.remove(entity));
            assert forall|id: u64| #[trigger] af.contains_key(id) implies gf.contains_key(af[id])
                && gf[af[id]]@.contains(id) by {
                assert(a0.contains_key(id) && id != entity && af[id] == a0[id]);
                if a0[id] == prev_key {
                    assert(g0[prev_key]@.contains(id));
                }
            }
            assert forall|k: u64| #[trigger] gf.contains_key(k) implies gf[k]@.len() > 0 && no_dup(
                gf[k]@,
            ) && (forall|n: int|
                0 <= n < gf[k]@.len() ==> af.contains_key(#[trigger] gf[k]@[n])
                    && af[gf[k]@[n]] == k) by {
                assert forall|n: int| 0 <= n < gf[k]@.len() implies af.contains_key(
                    #[trigger] gf[k]@[n],
                ) && af[gf[k]@[n]] == k by {
                    let id = gf[k]@[n];
                    if k == prev_key {
                        assert(gf[k]@.contains(id));
                        assert(g0[prev_key]@.contains(id));
                        assert(id != entity);
                    } else {
                        assert(g0.contains_key(k) && gf[k] == g0[k]);
                        assert(g0[k]@.contains(id));
                        assert(a0[id] == k);
                        assert(id != entity);
                    }
                }
            }
        }
    }

    /// Broad-phase query: every agent recorded in a cell of the
    /// rectangle spanned by `pos - radius` through `pos + radius`,
    /// each exactly once. Over-inclusive by design; callers apply the
    /// exact distance filter.
    pub fn get_in_radius(&self, pos: Vec2i, radius: i64) -> (r: Vec<u64>)
        requires
            self.wf(),
            pos_in_range(pos),
            0 <= radius <= POS_LIMIT,
        ensures
            no_dup(r@),
            forall|id: u64|
                #![trigger r@.contains(id)]
                #![trigger query_hit(*self, pos, radius as int, id)]
                r@.contains(id) <==> query_hit(*self, pos, radius as int, id),
    {
        let cs = self.chunk_size;
        proof {
            lemma_div_bounds((pos.y - radius) as int, cs as int, 2 * POS_LIMIT as int);
            lemma_div_bounds((pos.y + radius) as int, cs as int, 2 * POS_LIMIT as int);
            lemma_div_bounds((pos.x - radius) as int, cs as int, 2 * POS_LIMIT as int);
            lemma_div_bounds((pos.x + radius) as int, cs as int, 2 * POS_LIMIT as int);
            vstd::arithmetic::div_mod::lemma_div_is_ordered(
                (pos.y - radius) as int,
                (pos.y + radius) as int,
                cs as int,
            );
            vstd::arithmetic::div_mod::lemma_div_is_ordered(
                (pos.x - radius) as int,
                (pos.x + radius) as int,
                cs as int,
            );
        }
        let ilo = div_floor(pos.y - radius, cs);
        let ihi = div_floor(pos.y + radius, cs);
        let jlo = div_floor(pos.x - radius, cs);
        let jhi = div_floor(pos.x + radius, cs);
        let mut out: Vec<u64> = Vec::new();
        let mut i = ilo;
        while i <= ihi
            invariant
                self.wf(),
                pos_in_range(pos),
                0 <= radius <= POS_LIMIT,
                cs == self.chunk_size,
                ilo == (pos.y - radius) as int / cs as int,
                ihi == (pos.y + radius) as int / cs as int,
                jlo == (pos.x - radius) as int / cs as int,
                jhi == (pos.x + radius) as int / cs as int,
                -2 * POS_LIMIT <= ilo <= i <= ihi + 1,
                ihi <= 2 * POS_LIMIT,
                -2 * POS_LIMIT <= jlo <= jhi <= 2 * POS_LIMIT,
                no_dup(out@),
                forall|id: u64|
                    #![trigger out@.contains(id)]
                    out@.contains(id) <==> (query_hit(*self, pos, radius as int, id) && key_row(
                        self@[id] as int,
                    ) < i as int),
            decreases ihi + 1 - i,
        {
            let mut j = jlo;
            while j <= jhi
                invariant
                    self.wf(),
                    pos_in_range(pos),
                    0 <= radius <= POS_LIMIT,
                    cs == self.chunk_size,
                    ilo == (pos.y - radius) as int / cs as int,
                    ihi == (pos.y + radius) as int / cs as int,
                    jlo == (pos.x - radius) as int / cs as int,
                    jhi == (pos.x + radius) as int / cs as int,
                    -2 * POS_LIMIT <= ilo <= i <= ihi,
                    ihi <= 2 * POS_LIMIT,
                    -2 * POS_LIMIT <= jlo <= j <= jhi + 1,
                    jhi <= 2 * POS_LIMIT,
                    no_dup(out@),
                    forall|id: u64|
                        #![trigger out@.contains(id)]
                        out@.contains(id) <==> (query_hit(*self, pos, radius as int, id) && (
                        key_row(self@[id] as int) < i as int || (key_row(self@[id] as int)
                            == i as int && key_col(self@[id] as int) < j as int))),
                decreases jhi + 1 - j,
            {
                let key = make_key(i, j);
                match self.grid.get(&key) {
                    Some(cell) => {
                        let ghost base = out@;
                        let mut n: usize = 0;
                        while n < cell.len()
                            invariant
                                self.wf(),
                                self.grid@.contains_key(key),
                                cell == self.grid@[key],
                                key_row(key as int) == i as int,
                                key_col(key as int) == j as int,
                                (pos.y - radius) as int / cs as int <= i as int <= (pos.y
                                    + radius) as int / cs as int,
                                (pos.x - radius) as int / cs as int <= j as int <= (pos.x
                                    + radius) as int / cs as int,
                                cs == self.chunk_size,
                                0 <= n <= cell@.len(),
                                no_dup(out@),
                                forall|id: u64|
                                    #![trigger out@.contains(id)]
                                    out@.contains(id) <==> (query_hit(*self, pos, radius as int, id)
                                        && (key_row(self@[id] as int) < i as int || (key_row(
                                        self@[id] as int,
                                    ) == i as int && key_col(self@[id] as int) < j as int))
                                        || cell@.subrange(0, n as int).contains(id)),
                            decreases cell@.len() - n,
                        {
                            let id0 = cell[n];
                            proof {
                                assert(cell@.contains(id0));
                                assert(self.association@.contains_key(id0) && self.association@[id0]
                                    == key);
                                assert(!out@.contains(id0)) by {
                                    if cell@.subrange(0, n as int).contains(id0) {
                                        let m = choose|m: int|
                                            0 <= m < n && cell@.subrange(0, n as int)[m] == id0;
                                        assert(cell@[m] == id0 && cell@[n as int] == id0);
                                    }
                                }
                                lemma_no_dup_push(out@, id0);
                            }
                            let ghost before = out@;
                            out.push(id0);
                            n += 1;
                            proof {
                                assert(cell@.subrange(0, n as int) =~= cell@.subrange(
                                    0,
                                    n as int - 1,
                                ).push(cell@[n as int - 1]));
                                assert forall|id: u64| #[trigger] out@.contains(id) implies (
                                query_hit(*self, pos, radius as int, id) && (key_row(
                                    self@[id] as int,
                                ) < i as int || (key_row(self@[id] as int) == i as int && key_col(
                                    self@[id] as int,
                                ) < j as int)) || cell@.subrange(0, n as int).contains(id)) by {
                                    let m = choose|m: int| 0 <= m < out@.len() && out@[m] == id;
                                    if m < out@.len() - 1 {
                                        assert(before[m] == id);
                                        assert(before.contains(id));
                                    } else {
                                        assert(id == id0);
                                        assert(cell@.subrange(0, n as int)[n - 1] == id0);
                                    }
                                }
                                assert forall|id: u64|
                                    (query_hit(*self, pos, radius as int, id) && (key_row(
                                        self@[id] as int,
                                    ) < i as int || (key_row(self@[id] as int) == i as int
                                        && key_col(self@[id] as int) < j as int)) || cell@.subrange(
                                        0,
                                        n as int,
                                    ).contains(id)) implies #[trigger] out@.contains(id) by {
                                    if before.contains(id) {
                                        let m = choose|m: int|
                                            0 <= m < before.len() && before[m] == id;
                                        assert(out@[m] == id);
                                    } else {
                                        assert(cell@.subrange(0, n as int).contains(id));
                                        let m = choose|m: int|
                                            0 <= m < n && cell@.subrange(0, n as int)[m] == id;
                                        if m < n - 1 {
                                            assert(cell@.subrange(0, n as int - 1)[m] == id);
                                            assert(before.contains(id));
                                        } else {
                                            assert(id == id0);
                                            assert(out@[out@.len() - 1] == id0);
                                        }
                                    }
                                }
                            }
                        }
                        proof {
                            assert(cell@.subrange(0, cell@.len() as int) =~= cell@);
                        }
                    },
                    None => {},
                }
                proof {
                    // Agents of exactly the cell `(i, j)` have been added:
                    // the prefix now extends one column.
                    assert forall|id: u64|
                        query_hit(*self, pos, radius as int, id) && (key_row(self@[id] as int)
                            < i as int || (key_row(self@[id] as int) == i as int && key_col(
                            self@[id] as int,
                        ) < j as int + 1)) implies out@.contains(id) by {
                        let k = self.association@[id];
                        lemma_key_reconstruct(k);
                        if key_row(k as int) == i as int && key_col(k as int) == j as int {
                            assert(k as int == cell_key_int(i as int, j as int));
                            assert(self.grid@.contains_key(k));
                            assert(self.grid@[k]@.contains(id));
                        }
                    }
                    assert forall|id: u64| #[trigger] out@.contains(id) implies (query_hit(
                        *self,
                        pos,
                        radius as int,
                        id,
                    ) && (key_row(self@[id] as int) < i as int || (key_row(self@[id] as int)
                        == i as int && key_col(self@[id] as int) < j as int + 1))) by {
                        let k = self.association@[id];
                        lemma_key_reconstruct(k);
                        if !(key_row(k as int) < i as int || (key_row(k as int) == i as int
                            && key_col(k as int) < j as int)) {
                            assert(k as int == cell_key_int(i as int, j as int));
                            assert(self.grid@.contains_key(k));
                        }
                    }
                }
                j += 1;
            }
            i += 1;
        }
        out
    }
}

/// A point strictly within `radius` of `pos` lies in a cell that the
/// broad-phase query at `pos` with that radius visits: the grid never
/// misses a true neighbor.
pub proof fn lemma_no_false_negative(p: Vec2i, q: Vec2i, radius: int, cs: int)
    requires
        1 <= cs <= POS_LIMIT,
        0 <= radius <= POS_LIMIT,
        pos_in_range(p),
        pos_in_range(q),
        dist_sq(p, q) < radius * radius,
    ensures
        key_in_span(pos_key(q, cs), p, radius, cs),
{
    let dx = p.x - q.x;
    let dy = p.y - q.y;
    assert(-radius < dx < radius && -radius < dy < radius) by (nonlinear_arith)
        requires
            dx * dx + dy * dy < radius * radius && radius >= 0,
    ;
    vstd::arithmetic::div_mod::lemma_div_is_ordered(
        (p.y - radius) as int,
        q.y as int,
        cs,
    );
    vstd::arithmetic::div_mod::lemma_div_is_ordered(
        q.y as int,
        (p.y + radius) as int,
        cs,
    );
    vstd::arithmetic::div_mod::lemma_div_is_ordered(
        (p.x - radius) as int,
        q.x as int,
        cs,
    );
    vstd::arithmetic::div_mod::lemma_div_is_ordered(
        q.x as int,
        (p.x + radius) as int,
        cs,
    );
    lemma_div_bounds(q.y as int, cs, POS_LIMIT as int);
    lemma_div_bounds(q.x as int, cs, POS_LIMIT as int);
    lemma_key_unpack(q.y as int / cs, q.x as int / cs);
}

/// A packed key made from in-range coordinates decodes back to them.
pub proof fn lemma_key_unpack(i: int, j: int)
    requires
        -2_147_483_648 <= i < 2_147_483_648,
        -2_147_483_648 <= j < 2_147_483_648,
    ensures
        key_row(cell_key_int(i, j)) == i,
        key_col(cell_key_int(i, j)) == j,
        0 <= cell_key_int(i, j) < 0x1_0000_0000_0000_0000,
{
    let b: int = 4_294_967_296;
    assert(0 <= (i + 2_147_483_648) * b + (j + 2_147_483_648) < b * b) by (nonlinear_arith)
        requires
            0 <= i + 2_147_483_648 < b && 0 <= j + 2_147_483_648 < b && b == 4_294_967_296,
    ;
    vstd::arithmetic::div_mod::lemma_fundamental_div_mod_converse(
        cell_key_int(i, j),
        b,
        i + 2_147_483_648,
        j + 2_147_483_648,
    );
    assert(b * b == 0x1_0000_0000_0000_0000) by (nonlinear_arith)
        requires
            b == 4_294_967_296,
    ;
}

/// Pigeonhole: a duplicate-free sequence of identifiers below `n`
/// holds at most `n` of them.
pub proof fn lemma_no_dup_len_bound(s: Seq<u64>, n: nat)
    requires
        no_dup(s),
        forall|k: int| 0 <= k < s.len() ==> (#[trigger] s[k] as nat) < n,
    ensures
        s.len() <= n,
    decreases n,
{
    if n == 0 {
        if s.len() > 0 {
            assert((s[0] as nat) < 0);
        }
    } else {
        if exists|m: int| 0 <= m < s.len() && s[m] as nat == n - 1 {
            let m = choose|m: int| 0 <= m < s.len() && s[m] as nat == n - 1;
            let s2 = s.remove(m);
            assert forall|m1: int, m2: int| 0 <= m1 < m2 < s2.len() implies s2[m1] != s2[m2] by {
                assert(s2[m1] == if m1 < m {
                    s[m1]
                } else {
                    s[m1 + 1]
                });
                assert(s2[m2] == if m2 < m {
                    s[m2]
                } else {
                    s[m2 + 1]
                });
            }
            assert forall|k: int| 0 <= k < s2.len() implies (#[trigger] s2[k] as nat) < n - 1 by {
                if k < m {
                    assert(s2[k] == s[k]);
                } else {
                    assert(s2[k] == s[k + 1]);
                }
            }
            lemma_no_dup_len_bound(s2, (n - 1) as nat);
        } else {
            assert forall|k: int| 0 <= k < s.len() implies (#[trigger] s[k] as nat) < n - 1 by {
                assert(s[k] as nat != n - 1);
            }
            lemma_no_dup_len_bound(s, (n - 1) as nat);
        }
    }
}

/// An agent recorded at `q` is always among the broad-phase hits of a
/// query whose radius strictly exceeds its Euclidean distance: the
/// index has no false negatives.
pub proof fn lemma_query_complete(g: HashGrid, p: Vec2i, q: Vec2i, radius: int, id: u64)
    requires
        1 <= g.chunk() <= POS_LIMIT as int,
        0 <= radius <= POS_LIMIT as int,
        pos_in_range(p),
        pos_in_range(q),
        g@.contains_key(id),
        g@[id] as int == pos_key(q, g.chunk()),
        dist_sq(p, q) < radius * radius,
    ensures
        query_hit(g, p, radius, id),
{
    lemma_no_false_negative(p, q, radius, g.chunk());
}

/// Recording the same position twice is idempotent on the model.
pub proof fn lemma_update_idempotent(m: Map<u64, u64>, id: u64, k: u64)
    ensures
        m.insert(id, k).insert(id, k) == m.insert(id, k),
{
    assert(m.insert(id, k).insert(id, k) =~= m.insert(id, k));
}

} // verus!
