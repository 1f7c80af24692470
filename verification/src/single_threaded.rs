//! The simulation engine: a sparse cell store keyed by packed coordinates,
//! advanced one generation at a time by the rule table of [`crate::sim`].

use vstd::prelude::*;
use std::collections::HashMap;
use crate::cell_state::CellState;
use crate::neighbors::{
    lemma_offsets_small, neighbor_offsets, offset_at, offset_count, small_offset, NeighborMethod,
};
use crate::rule::Rule;
use crate::sim::{
    alive_at, count_alive_upto, cur_value, grid_of, is_candidate, lemma_count_bounds,
    lemma_count_congruent, neighbor_count, next_value, rule_next, step_grid, step_values,
};
use crate::utils::{
    in_domain, in_noise_box, index_pos, lemma_index_pos_roundtrip, lemma_pos_index_roundtrip, padd, pos_index,
    psub, Pos, MAX_BOUNDS,
};

verus! {

broadcast use vstd::std_specs::hash::group_hash_axioms;

/// A single-threaded simulation engine: the authoritative sparse mapping from
/// packed in-domain coordinates to cells, a duplicate-free list of the stored
/// keys for iteration, and the cubic bounds' edge length.
pub struct CellsSingleThreaded {
    pub states: HashMap<u64, CellState>,
    pub keys: Vec<u64>,
    pub bounding_size: i32,
}

/// Mapping a finite set through a function injective on it keeps its size.
proof fn lemma_injective_map_len<T, S>(s: Set<T>, f: spec_fn(T) -> S)
    requires
        s.finite(),
        forall|a: T, b: T| s.contains(a) && s.contains(b) && f(a) == f(b) ==> a == b,
    ensures
        s.map(f).finite(),
        s.map(f).len() == s.len(),
    decreases s.len(),
{
    if s.len() == 0 {
        assert(s =~= Set::empty());
        assert(s.map(f) =~= Set::empty());
    } else {
        let x = s.choose();
        assert(s.contains(x));
        let rest = s.remove(x);
        lemma_injective_map_len(rest, f);
        assert(rest.map(f) =~= s.map(f).remove(f(x))) by {
            assert forall|y: S| #[trigger] rest.map(f).contains(y) implies s.map(f).remove(
                f(x),
            ).contains(y) by {
                let a = choose|a: T| rest.contains(a) && f(a) == y;
                assert(s.contains(a));
            }
            assert forall|y: S| #[trigger] s.map(f).remove(f(x)).contains(y) implies rest.map(
                f,
            ).contains(y) by {
                let a = choose|a: T| s.contains(a) && f(a) == y;
                assert(a != x);
                assert(rest.contains(a));
            }
        }
        assert(s.map(f).contains(f(x)));
        assert(s.map(f).remove(f(x)).len() == s.map(f).len() - 1);
    }
}

impl CellsSingleThreaded {
    /// The grid's edge length, as mathematics.
    pub open spec fn size(self) -> int {
        self.bounding_size as int
    }

    /// The number of coordinates in the grid domain.
    pub open spec fn volume(self) -> int {
        self.size() * self.size() * self.size()
    }

    /// Structural invariant: bounds in range, the key list duplicate-free and
    /// in step with the map, every stored key in the domain, every stored
    /// cell's value positive (absence is the only encoding of a dead cell).
    pub open spec fn wf(self) -> bool {
        &&& 0 <= self.bounding_size <= MAX_BOUNDS
        &&& self.keys@.no_duplicates()
        &&& forall|i: int|
            0 <= i < self.keys@.len() ==> self.states@.contains_key(#[trigger] self.keys@[i])
        &&& forall|k: u64| #[trigger] self.states@.contains_key(k) ==> self.keys@.contains(k)
        &&& forall|k: u64| #[trigger] self.states@.contains_key(k) ==> k < self.volume()
        &&& forall|k: u64| #[trigger] self.states@.contains_key(k) ==> 1 <= self.states@[k].value
    }

    /// The engine's state as mathematics: the partial map from in-domain
    /// coordinates to stored cells.
    pub open spec fn grid(self) -> Map<Pos, CellState> {
        grid_of(self.states@, self.size())
    }

    /// The stored cells and the grid view pair up one to one, so they have
    /// the same cardinality.
    pub proof fn lemma_grid_len(self)
        requires
            self.wf(),
        ensures
            self.grid().dom().finite(),
            self.grid().dom().len() == self.states@.dom().len(),
    {
        let size = self.size();
        let f = |k: u64| index_pos(k as int, size);
        assert(size * size * size <= 0x1000000000000000) by (nonlinear_arith)
            requires 0 <= size <= 0x100000;
        assert forall|k: u64| #[trigger] self.states@.dom().contains(k) implies in_domain_key(
            k,
            size,
        ) by {
            crate::utils::lemma_index_pos_roundtrip(k as int, size);
        }
        assert(self.grid().dom() =~= self.states@.dom().map(f)) by {
            assert forall|p: Pos| #[trigger] self.grid().dom().contains(p) implies self.states@.dom().map(
                f,
            ).contains(p) by {
                crate::utils::lemma_pos_index_roundtrip(p, size);
                let k = pos_index(p, size) as u64;
                assert(self.states@.dom().contains(k) && f(k) == p);
            }
            assert forall|p: Pos| #[trigger] self.states@.dom().map(f).contains(p) implies self.grid().dom().contains(
                p,
            ) by {
                let k = choose|k: u64| self.states@.dom().contains(k) && f(k) == p;
                crate::utils::lemma_index_pos_roundtrip(k as int, size);
            }
        }
        assert forall|a: u64, b: u64|
            self.states@.dom().contains(a) && self.states@.dom().contains(b) && f(a) == f(b)
            implies a == b by {
            crate::utils::lemma_index_pos_roundtrip(a as int, size);
            crate::utils::lemma_index_pos_roundtrip(b as int, size);
        }
        lemma_injective_map_len(self.states@.dom(), f);
    }

    /// A fresh engine: no cells, bounds zero.
    pub fn new() -> (r: Self)
        ensures
            r.wf(),
            r.bounding_size == 0,
            r.grid() == Map::<Pos, CellState>::empty(),
            r.states@ == Map::<u64, CellState>::empty(),
    {
        let r = CellsSingleThreaded {
            states: HashMap::new(),
            keys: Vec::new(),
            bounding_size: 0,
        };
        proof {
            assert(r.grid() =~= Map::<Pos, CellState>::empty());
        }
        r
    }

    /// The number of currently stored (alive) cells.
    pub fn cell_count(&self) -> (r: usize)
        requires
            self.wf(),
        ensures
            r == self.grid().dom().len(),
            r == self.states@.dom().len(),
    {
        proof {
            self.lemma_grid_len();
        }
        self.states.len()
    }

    /// The grid's edge length.
    pub fn bounds(&self) -> (r: i32)
        ensures
            r == self.bounding_size,
    {
        self.bounding_size
    }

    /// Clears every cell; the bounds are untouched.
    pub fn reset(&mut self)
        requires
            old(self).wf(),
        ensures
            final(self).wf(),
            final(self).bounding_size == old(self).bounding_size,
            final(self).grid() == Map::<Pos, CellState>::empty(),
            final(self).states@ == Map::<u64, CellState>::empty(),
    {
        self.states = HashMap::new();
        self.keys = Vec::new();
        proof {
            assert(self.grid() =~= Map::<Pos, CellState>::empty());
        }
    }

    /// Sets the grid's edge length and returns it. Resizing to the current
    /// bounds is a no-op; resizing to different bounds discards all state and
    /// restarts empty at the new bounds.
    pub fn set_bounds(&mut self, new_bounds: i32) -> (r: i32)
        requires
            old(self).wf(),
            1 <= new_bounds <= MAX_BOUNDS,
        ensures
            r == new_bounds,
            final(self).wf(),
            final(self).bounding_size == new_bounds,
            new_bounds == old(self).bounding_size ==> {
                &&& final(self).states@ == old(self).states@
                &&& final(self).keys@ == old(self).keys@
                &&& final(self).grid() == old(self).grid()
            },
            new_bounds != old(self).bounding_size ==> {
                &&& final(self).states@ == Map::<u64, CellState>::empty()
                &&& final(self).grid() == Map::<Pos, CellState>::empty()
            },
    {
        if new_bounds != self.bounding_size {
            self.states = HashMap::new();
            self.keys = Vec::new();
        }
        self.bounding_size = new_bounds;
        proof {
            if new_bounds != old(self).bounding_size {
                assert(self.grid() =~= Map::<Pos, CellState>::empty());
            }
        }
        new_bounds
    }
}

impl CellsSingleThreaded {
    /// Advances the grid one generation under `rule`: every candidate
    /// coordinate is evaluated by the rule table against the current grid,
    /// the cells whose next value is positive are kept, and their
    /// neighbor-count fields are recomputed against the new generation.
    pub fn tick(&mut self, rule: &Rule)
        requires
            old(self).wf(),
            rule.wf(),
        ensures
            final(self).wf(),
            final(self).bounding_size == old(self).bounding_size,
            final(self).grid() == step_grid(old(self).grid(), *rule, old(self).size()),
    {
        let ghost g0 = self.grid();
        let ghost size = self.size();
        let m = rule.neighbor_method;
        let offs = m.get_neighbor_iter();
        let bounds = self.bounding_size;
        let cand = self.collect_candidates(&offs, m);
        let ghost vals = step_values(g0, *rule, size);
        let (mut nm, nks) = evaluate_candidates(&self.states, &cand, rule, &offs, bounds);
        fill_counts(&mut nm, &nks, rule, &offs, bounds, Ghost(vals));
        let ghost nm1 = nm@;
        self.states = nm;
        self.keys = nks;
        proof {
            let gn = step_grid(g0, *rule, size);
            lemma_volume_fits(size);
            assert forall|p: Pos| #[trigger] gn.contains_key(p) implies self.grid().contains_key(
                p,
            ) by {
                assert(vals.contains_key(p));
                lemma_pos_index_roundtrip(p, size);
                assert(self.states@.contains_key(pos_index(p, size) as u64));
            }
            assert forall|p: Pos| #[trigger] self.grid().contains_key(p) implies gn.contains_key(
                p,
            ) && self.grid()[p] == gn[p] by {
                lemma_pos_index_roundtrip(p, size);
                let kp = pos_index(p, size) as u64;
                assert(self.states@.contains_key(kp));
                assert(index_pos(kp as int, size) == p);
                assert(vals.contains_key(p));
                assert(self.states@[kp].value == vals[p].value);
                assert(self.keys@.contains(kp));
                let t = choose|t: int| 0 <= t < self.keys@.len() && self.keys@[t] == kp;
                assert(self.states@[self.keys@[t]].neighbors as int == neighbor_count(
                    vals,
                    rule.states,
                    index_pos(self.keys@[t] as int, size),
                    m,
                ));
                lemma_count_bounds(
                    vals,
                    rule.states,
                    p,
                    m,
                    crate::neighbors::offset_count(m),
                );
            }
            assert(self.grid() =~= gn);
            assert forall|k: u64| #[trigger] self.states@.contains_key(k) implies k
                < self.volume() && 1 <= self.states@[k].value by {
                let q = index_pos(k as int, size);
                assert(vals.contains_key(q));
                assert(0 < next_value(g0, *rule, q) <= 255);
                assert(self.states@[k].value == vals[q].value);
            }
        }
    }

    /// Seeds the grid with a random cluster of fully-alive cells around the
    /// center: `NOISE_AMOUNT` independent samples, each at most `NOISE_RADIUS`
    /// from the center per axis. Samples landing outside the grid domain are
    /// discarded; duplicate samples simply overwrite. Existing cells away
    /// from the sampled coordinates are untouched.
    pub fn spawn_noise(&mut self, rule: &Rule)
        requires
            old(self).wf(),
            rule.wf(),
        ensures
            final(self).wf(),
            final(self).bounding_size == old(self).bounding_size,
            forall|p: Pos|
                #[trigger] old(self).grid().contains_key(p) ==> final(self).grid().contains_key(
                    p,
                ),
            forall|p: Pos|
                #[trigger] final(self).grid().contains_key(p) ==> (old(self).grid().contains_key(
                    p,
                ) && final(self).grid()[p] == old(self).grid()[p]) || (in_noise_box(
                    p,
                    old(self).size(),
                ) && final(self).grid()[p] == (CellState { value: rule.states, neighbors: 0u8 })),
            old(self).bounding_size >= 15 ==> final(self).grid().dom().len() > 0,
    {
        broadcast use vstd::std_specs::hash::group_hash_axioms;

        let ghost m0 = self.states@;
        let ghost size = self.size();
        let ghost g0 = self.grid();
        let bounds = self.bounding_size;
        let c = crate::utils::center(bounds);
        let mut i: u32 = 0;
        while i < crate::utils::NOISE_AMOUNT
            invariant
                self.wf(),
                rule.wf(),
                self.bounding_size == bounds,
                size == bounds as int,
                0 <= bounds <= MAX_BOUNDS,
                c == crate::utils::center_spec(size),
                g0 == grid_of(m0, size),
                0 <= i <= crate::utils::NOISE_AMOUNT,
                forall|p: Pos|
                    #[trigger] g0.contains_key(p) ==> grid_of(self.states@, size).contains_key(p),
                forall|p: Pos|
                    #[trigger] grid_of(self.states@, size).contains_key(p) ==> (g0.contains_key(
                        p,
                    ) && grid_of(self.states@, size)[p] == g0[p]) || (in_noise_box(p, size)
                        && grid_of(self.states@, size)[p] == (CellState {
                        value: rule.states,
                        neighbors: 0u8,
                    })),
                i >= 1 && bounds >= 15 ==> self.keys@.len() > 0,
            decreases crate::utils::NOISE_AMOUNT - i,
        {
            let ghost mprev = self.states@;
            let p = crate::utils::noise_point(c);
            if 0 <= p.x && p.x < bounds && 0 <= p.y && p.y < bounds && 0 <= p.z && p.z < bounds {
                proof {
                    lemma_volume_fits(size);
                    lemma_pos_index_roundtrip(p, size);
                }
                let k = crate::utils::pos_to_idx(p, bounds);
                let existed = self.states.contains_key(&k);
                let ghost kprev = self.keys@;
                self.states.insert(k, CellState::new(rule.states, 0));
                if !existed {
                    self.keys.push(k);
                    proof {
                        let ks = self.keys@;
                        assert forall|x: u64| #[trigger] self.states@.contains_key(x)
                            implies ks.contains(x) by {
                            if x == k {
                                assert(ks[ks.len() - 1] == k);
                            } else {
                                let t = choose|t: int| 0 <= t < kprev.len() && kprev[t] == x;
                                assert(ks[t] == x);
                            }
                        }
                        assert forall|a: int, b: int|
                            0 <= a < ks.len() && 0 <= b < ks.len() && a != b implies ks[a]
                            != ks[b] by {
                            if a < ks.len() - 1 && b < ks.len() - 1 {
                            } else {
                                assert forall|t: int| 0 <= t < kprev.len() implies kprev[t]
                                    != k by {
                                    assert(mprev.contains_key(kprev[t]));
                                }
                            }
                        }
                    }
                }
                proof {
                    assert forall|q: Pos|
                        #[trigger] grid_of(self.states@, size).contains_key(q) implies (
                    g0.contains_key(q) && grid_of(self.states@, size)[q] == g0[q]) || (
                    in_noise_box(q, size) && grid_of(self.states@, size)[q] == (CellState {
                        value: rule.states,
                        neighbors: 0u8,
                    })) by {
                        lemma_pos_index_roundtrip(q, size);
                        if q == p {
                            assert(in_noise_box(q, size));
                            assert(grid_of(self.states@, size)[q] == (CellState {
                                value: rule.states,
                                neighbors: 0u8,
                            }));
                        } else {
                            assert(pos_index(q, size) != pos_index(p, size));
                            assert(grid_of(mprev, size).contains_key(q));
                            assert(grid_of(self.states@, size)[q] == grid_of(mprev, size)[q]);
                        }
                    }
                    assert forall|q: Pos| #[trigger] g0.contains_key(q) implies grid_of(
                        self.states@,
                        size,
                    ).contains_key(q) by {
                        lemma_pos_index_roundtrip(q, size);
                        assert(grid_of(mprev, size).contains_key(q));
                    }
                    if bounds >= 15 {
                        if existed {
                            assert(mprev.contains_key(k));
                            assert(kprev.contains(k));
                        } else {
                            assert(self.keys@[self.keys@.len() - 1] == k);
                        }
                        assert(self.keys@.len() > 0);
                    }
                }
            } else {
                proof {
                    if bounds >= 15 {
                        assert(size / 2 - 7 >= 0);
                        assert(size / 2 + 7 < size);
                        assert(false);
                    }
                }
            }
            i = i + 1;
        }
        proof {
            if bounds >= 15 {
                let k0 = self.keys@[0];
                assert(self.states@.contains_key(k0));
                lemma_size_pos(k0, size);
                crate::utils::lemma_index_pos_roundtrip(k0 as int, size);
                let q0 = index_pos(k0 as int, size);
                assert(self.grid().contains_key(q0));
                self.lemma_grid_len();
                assert(self.grid().dom().remove(q0).len() == self.grid().dom().len() - 1);
            }
        }
    }

    /// Writes every stored cell into the dense render buffers, clearing all
    /// other entries to zero. The renderer must already be sized to this
    /// engine's bounds.
    pub fn render(&self, renderer: &mut crate::cell_renderer::CellRenderer)
        requires
            self.wf(),
            old(renderer).wf(),
            old(renderer).bounds == self.bounding_size,
        ensures
            final(renderer).wf(),
            final(renderer).bounds == self.bounding_size,
            forall|k: int|
                #![trigger index_pos(k, self.size())]
                0 <= k < final(renderer).volume() ==> {
                    let p = index_pos(k, self.size());
                    &&& self.grid().contains_key(p) ==> final(renderer).values@[k]
                        == self.grid()[p].value && final(renderer).neighbors@[k]
                        == self.grid()[p].neighbors
                    &&& !self.grid().contains_key(p) ==> final(renderer).values@[k] == 0
                        && final(renderer).neighbors@[k] == 0
                },
    {
        broadcast use vstd::std_specs::hash::group_hash_axioms;

        let ghost size = self.size();
        renderer.clear();
        let mut i: usize = 0;
        while i < self.keys.len()
            invariant
                self.wf(),
                size == self.size(),
                renderer.wf(),
                renderer.bounds == self.bounding_size,
                renderer.volume() == self.volume(),
                0 <= i <= self.keys@.len(),
                forall|ii: int|
                    0 <= ii < i ==> renderer.values@[#[trigger] self.keys@[ii] as int]
                        == self.states@[self.keys@[ii]].value && renderer.neighbors@[
                        self.keys@[ii] as int
                    ] == self.states@[self.keys@[ii]].neighbors,
                forall|kk: int|
                    0 <= kk < renderer.volume() && !(exists|ii: int|
                        0 <= ii < i && #[trigger] self.keys@[ii] as int == kk) ==> renderer
                        .values@[kk] == 0 && renderer.neighbors@[kk] == 0,
            decreases self.keys@.len() - i,
        {
            let k = self.keys[i];
            proof {
                assert(self.states@.contains_key(k));
            }
            let c = match self.states.get(&k) {
                Some(c) => *c,
                None => {
                    proof {
                        assert(false);
                    }
                    CellState::new(0, 0)
                },
            };
            renderer.set(k as usize, c.value, c.neighbors);
            proof {
                assert forall|kk: int|
                    0 <= kk < renderer.volume() && !(exists|ii: int|
                        0 <= ii < i + 1 && #[trigger] self.keys@[ii] as int == kk) implies
                    renderer.values@[kk] == 0 && renderer.neighbors@[kk] == 0 by {
                    assert(kk != k as int);
                    assert(!(exists|ii: int| 0 <= ii < i && self.keys@[ii] as int == kk));
                }
            }
            i = i + 1;
        }
        proof {
            assert forall|k: int|
                #![trigger index_pos(k, size)]
                0 <= k < renderer.volume() implies {
                let p = index_pos(k, size);
                &&& self.grid().contains_key(p) ==> renderer.values@[k] == self.grid()[p].value
                    && renderer.neighbors@[k] == self.grid()[p].neighbors
                &&& !self.grid().contains_key(p) ==> renderer.values@[k] == 0
                    && renderer.neighbors@[k] == 0
            } by {
                let p = index_pos(k, size);
                lemma_size_pos(k as u64, size);
                lemma_index_pos_roundtrip(k, size);
                if self.grid().contains_key(p) {
                    assert(self.states@.contains_key(k as u64));
                    assert(self.keys@.contains(k as u64));
                    let ii = choose|ii: int|
                        0 <= ii < self.keys@.len() && self.keys@[ii] == k as u64;
                    assert(renderer.values@[self.keys@[ii] as int]
                        == self.states@[self.keys@[ii]].value);
                } else {
                    assert(!self.states@.contains_key(k as u64));
                    assert forall|ii: int|
                        0 <= ii < self.keys@.len() implies #[trigger] self.keys@[ii] as int
                        != k by {
                        assert(self.states@.contains_key(self.keys@[ii]));
                    }
                }
            }
        }
    }

    /// The render snapshot: one `(coordinate, value, neighbor count)` triple
    /// for every stored cell, the coordinates shifted so the grid center maps
    /// to the origin. A read-only projection; positions are pairwise
    /// distinct, every stored cell appears, and nothing else does.
    pub fn snapshot(&self) -> (r: Vec<(Pos, u8, u8)>)
        requires
            self.wf(),
        ensures
            r@.len() == self.grid().dom().len(),
            forall|i: int|
                #![trigger r@[i]]
                0 <= i < r@.len() ==> ({
                    let p = index_pos(self.keys@[i] as int, self.size());
                    self.grid().contains_key(p) && r@[i] == (
                        crate::utils::translate_center(p, self.size()),
                        self.grid()[p].value,
                        self.grid()[p].neighbors,
                    )
                }),
            forall|p: Pos|
                #[trigger] self.grid().contains_key(p) ==> r@.contains(
                    (
                        crate::utils::translate_center(p, self.size()),
                        self.grid()[p].value,
                        self.grid()[p].neighbors,
                    ),
                ),
            forall|i: int, j: int| 0 <= i < j < r@.len() ==> r@[i].0 != r@[j].0,
    {
        broadcast use vstd::std_specs::hash::group_hash_axioms;

        let ghost size = self.size();
        let ctr = crate::utils::center(self.bounding_size);
        let mut r: Vec<(Pos, u8, u8)> = Vec::new();
        let mut i: usize = 0;
        while i < self.keys.len()
            invariant
                self.wf(),
                size == self.size(),
                ctr == crate::utils::center_spec(size),
                0 <= i <= self.keys@.len(),
                r@.len() == i,
                forall|ii: int|
                    0 <= ii < i ==> r@[ii] == (
                    crate::utils::translate_center(
                        index_pos(#[trigger] self.keys@[ii] as int, size),
                        size,
                    ),
                    self.states@[self.keys@[ii]].value,
                    self.states@[self.keys@[ii]].neighbors,
                    ),
            decreases self.keys@.len() - i,
        {
            let k = self.keys[i];
            proof {
                assert(self.states@.contains_key(k));
                lemma_size_pos(k, size);
                lemma_index_pos_roundtrip(k as int, size);
            }
            let p = crate::utils::idx_to_pos(k, self.bounding_size);
            let c = match self.states.get(&k) {
                Some(c) => *c,
                None => {
                    proof {
                        assert(false);
                    }
                    CellState::new(0, 0)
                },
            };
            let tp = Pos { x: p.x - ctr.x, y: p.y - ctr.y, z: p.z - ctr.z };
            proof {
                assert(tp == crate::utils::translate_center(p, size));
            }
            r.push((tp, c.value, c.neighbors));
            i = i + 1;
        }
        proof {
            assert forall|x: u64| #[trigger] self.keys@.to_set().contains(x)
                implies self.states@.dom().contains(x) by {}
            assert forall|x: u64| #[trigger] self.states@.dom().contains(x)
                implies self.keys@.to_set().contains(x) by {}
            assert(self.keys@.to_set() =~= self.states@.dom());
            self.keys@.unique_seq_to_set();
            self.lemma_grid_len();
            assert forall|i: int| #![trigger r@[i]] 0 <= i < r@.len() implies ({
                let p = index_pos(self.keys@[i] as int, self.size());
                self.grid().contains_key(p) && r@[i] == (
                    crate::utils::translate_center(p, self.size()),
                    self.grid()[p].value,
                    self.grid()[p].neighbors,
                )
            }) by {
                let k = self.keys@[i];
                lemma_size_pos(k, size);
                lemma_index_pos_roundtrip(k as int, size);
                let p = index_pos(k as int, size);
                assert(self.grid().contains_key(p) && r@[i] == (
                    crate::utils::translate_center(p, self.size()),
                    self.grid()[p].value,
                    self.grid()[p].neighbors,
                ));
            }
            assert forall|p: Pos| #[trigger] self.grid().contains_key(p) implies r@.contains(
                (
                    crate::utils::translate_center(p, self.size()),
                    self.grid()[p].value,
                    self.grid()[p].neighbors,
                ),
            ) by {
                lemma_volume_fits(size);
                lemma_pos_index_roundtrip(p, size);
                let kp = pos_index(p, size) as u64;
                assert(self.states@.contains_key(kp));
                assert(self.keys@.contains(kp));
                let ii = choose|ii: int| 0 <= ii < self.keys@.len() && self.keys@[ii] == kp;
                assert(index_pos(kp as int, size) == p);
                assert(r@[ii] == (
                    crate::utils::translate_center(p, self.size()),
                    self.grid()[p].value,
                    self.grid()[p].neighbors,
                ));
            }
            assert forall|i: int, j: int| 0 <= i < j < r@.len() implies r@[i].0 != r@[j].0 by {
                let ki = self.keys@[i];
                let kj = self.keys@[j];
                assert(ki != kj);
                lemma_size_pos(ki, size);
                lemma_index_pos_roundtrip(ki as int, size);
                lemma_index_pos_roundtrip(kj as int, size);
            }
        }
        r
    }

    /// Advances the grid one generation; the single-threaded engine's whole
    /// update is one tick.
    pub fn update(&mut self, rule: &Rule)
        requires
            old(self).wf(),
            rule.wf(),
        ensures
            final(self).wf(),
            final(self).bounding_size == old(self).bounding_size,
            final(self).grid() == step_grid(old(self).grid(), *rule, old(self).size()),
    {
        self.tick(rule);
    }
}

/// Whether a packed key decodes inside the `size`-cube (every stored key
/// does).
pub open spec fn in_domain_key(k: u64, size: int) -> bool {
    k < size * size * size
}

/// A cube with edge length at most `MAX_BOUNDS` has at most `2^60` cells, so
/// every packed key fits in `u64`.
pub proof fn lemma_volume_fits(size: int)
    requires
        0 <= size <= MAX_BOUNDS,
    ensures
        size * size * size <= 0x1000000000000000,
{
    assert(size * size * size <= 0x1000000000000000) by (nonlinear_arith)
        requires 0 <= size <= 0x100000;
}

/// A key below the cube's volume implies the edge length is positive.
proof fn lemma_size_pos(k: u64, size: int)
    requires
        in_domain_key(k, size),
    ensures
        0 < size,
{
    assert(0 < size) by (nonlinear_arith)
        requires 0 <= (k as int) < size * size * size;
}

/// Looks up the cell stored at `p`, reading through the packed key.
fn get_cell(map: &HashMap<u64, CellState>, p: Pos, bounds: i32) -> (r: Option<CellState>)
    requires
        0 < bounds <= MAX_BOUNDS,
        in_domain(p, bounds as int),
    ensures
        grid_of(map@, bounds as int).contains_key(p) ==> r == Some(
            grid_of(map@, bounds as int)[p],
        ),
        !grid_of(map@, bounds as int).contains_key(p) ==> r == None::<CellState>,
{
    broadcast use vstd::std_specs::hash::group_hash_axioms;

    let k = crate::utils::pos_to_idx(p, bounds);
    match map.get(&k) {
        Some(c) => Some(*c),
        None => None,
    }
}

/// Counts the fully-alive neighbors of `p` in the stored map: the adjacent
/// coordinates (per topology) holding a cell at value `top`.
fn count_alive(
    map: &HashMap<u64, CellState>,
    top: u8,
    p: Pos,
    offs: &Vec<Pos>,
    m: NeighborMethod,
    bounds: i32,
) -> (r: u8)
    requires
        0 < bounds <= MAX_BOUNDS,
        in_domain(p, bounds as int),
        offs@ == neighbor_offsets(m),
    ensures
        r as int == neighbor_count(grid_of(map@, bounds as int), top, p, m),
        r as int <= offset_count(m),
{
    let ghost g = grid_of(map@, bounds as int);
    let ghost size = bounds as int;
    proof {
        lemma_offsets_small(m);
    }
    let mut n: u8 = 0;
    let mut j: usize = 0;
    while j < offs.len()
        invariant
            0 < bounds <= MAX_BOUNDS,
            size == bounds as int,
            in_domain(p, size),
            offs@ == neighbor_offsets(m),
            g == grid_of(map@, size),
            0 <= j <= offs@.len(),
            n as int == count_alive_upto(g, top, p, m, j as int),
            n as int <= j,
            forall|jx: int|
                0 <= jx < offset_count(m) ==> small_offset(#[trigger] neighbor_offsets(m)[jx]),
        decreases offs@.len() - j,
    {
        let o = offs[j];
        proof {
            assert(o == neighbor_offsets(m)[j as int]);
            assert(small_offset(o));
        }
        let qx = p.x + o.x;
        let qy = p.y + o.y;
        let qz = p.z + o.z;
        let ghost q = padd(p, offset_at(m, j as int));
        proof {
            assert(q.x == qx && q.y == qy && q.z == qz);
        }
        if 0 <= qx && qx < bounds && 0 <= qy && qy < bounds && 0 <= qz && qz < bounds {
            let qp = Pos { x: qx, y: qy, z: qz };
            let alive = match get_cell(map, qp, bounds) {
                Some(c) => c.value == top,
                None => false,
            };
            proof {
                assert(alive == alive_at(g, top, q));
            }
            if alive {
                n = n + 1;
            }
        } else {
            proof {
                assert(!in_domain(q, size));
                assert(!alive_at(g, top, q));
            }
        }
        j = j + 1;
    }
    n
}

/// Applies the rule table to one cell's current value and neighbor count.
fn eval_rule(rule: &Rule, cur: u8, n: u8) -> (r: u8)
    requires
        rule.wf(),
        n <= 26,
    ensures
        r as int == rule_next(*rule, cur as int, n as int),
{
    if cur == rule.states && rule.survival_rule.get(n) {
        rule.states
    } else if cur < rule.states && rule.birth_rule.get(n) {
        rule.states
    } else if cur > 0 {
        cur - 1
    } else {
        0
    }
}

/// Evaluates every candidate against the current map and keeps the cells
/// whose next value is positive; their neighbor-count fields are zero for
/// now.
fn evaluate_candidates(
    states: &HashMap<u64, CellState>,
    cand: &Vec<u64>,
    rule: &Rule,
    offs: &Vec<Pos>,
    bounds: i32,
) -> (r: (HashMap<u64, CellState>, Vec<u64>))
    requires
        0 <= bounds <= MAX_BOUNDS,
        rule.wf(),
        offs@ == neighbor_offsets(rule.neighbor_method),
        cand@.no_duplicates(),
        forall|t: int|
            0 <= t < cand@.len() ==> in_domain_key(#[trigger] cand@[t], bounds as int)
                && is_candidate(
                grid_of(states@, bounds as int),
                rule.neighbor_method,
                index_pos(cand@[t] as int, bounds as int),
            ),
        forall|p: Pos|
            in_domain(p, bounds as int) && #[trigger] is_candidate(
                grid_of(states@, bounds as int),
                rule.neighbor_method,
                p,
            ) ==> cand@.contains(pos_index(p, bounds as int) as u64),
    ensures
        r.1@.no_duplicates(),
        forall|i: int| 0 <= i < r.1@.len() ==> r.0@.contains_key(#[trigger] r.1@[i]),
        forall|k: u64| #[trigger] r.0@.contains_key(k) ==> r.1@.contains(k),
        forall|k: u64|
            #[trigger] r.0@.contains_key(k) ==> in_domain_key(k, bounds as int) && step_values(
                grid_of(states@, bounds as int),
                *rule,
                bounds as int,
            ).contains_key(index_pos(k as int, bounds as int)) && r.0@[k] == step_values(
                grid_of(states@, bounds as int),
                *rule,
                bounds as int,
            )[index_pos(k as int, bounds as int)],
        forall|p: Pos|
            #[trigger] step_values(grid_of(states@, bounds as int), *rule, bounds as int)
                .contains_key(p) ==> r.0@.contains_key(pos_index(p, bounds as int) as u64),
{
    broadcast use vstd::std_specs::hash::group_hash_axioms;

    let ghost size = bounds as int;
    let ghost g0 = grid_of(states@, size);
    let ghost vals = step_values(g0, *rule, size);
    let m = rule.neighbor_method;
    let mut nm: HashMap<u64, CellState> = HashMap::new();
    let mut nks: Vec<u64> = Vec::new();
    let mut t: usize = 0;
    while t < cand.len()
        invariant
            0 <= bounds <= MAX_BOUNDS,
            size == bounds as int,
            g0 == grid_of(states@, size),
            vals == step_values(g0, *rule, size),
            rule.wf(),
            m == rule.neighbor_method,
            offs@ == neighbor_offsets(m),
            cand@.no_duplicates(),
            forall|tx: int|
                0 <= tx < cand@.len() ==> in_domain_key(#[trigger] cand@[tx], size)
                    && is_candidate(g0, m, index_pos(cand@[tx] as int, size)),
            0 <= t <= cand@.len(),
            nks@.no_duplicates(),
            forall|i: int| 0 <= i < nks@.len() ==> nm@.contains_key(#[trigger] nks@[i]),
            forall|k: u64| #[trigger] nm@.contains_key(k) ==> nks@.contains(k),
            forall|k: u64|
                #[trigger] nm@.contains_key(k) ==> in_domain_key(k, size) && vals.contains_key(
                    index_pos(k as int, size),
                ) && nm@[k] == vals[index_pos(k as int, size)],
            forall|k: u64|
                #[trigger] nm@.contains_key(k) ==> exists|t2: int|
                    0 <= t2 < t && cand@[t2] == k,
            forall|t2: int|
                0 <= t2 < t && vals.contains_key(index_pos(#[trigger] cand@[t2] as int, size))
                    ==> nm@.contains_key(cand@[t2]),
        decreases cand@.len() - t,
    {
        let k = cand[t];
        proof {
            lemma_size_pos(k, size);
            lemma_index_pos_roundtrip(k as int, size);
        }
        let p = crate::utils::idx_to_pos(k, bounds);
        let n = count_alive(states, rule.states, p, offs, m, bounds);
        let cur = match get_cell(states, p, bounds) {
            Some(c) => c.value,
            None => 0,
        };
        proof {
            assert(cur as int == cur_value(g0, p));
        }
        let nx = eval_rule(rule, cur, n);
        proof {
            assert(nx as int == next_value(g0, *rule, p));
        }
        let ghost nm0 = nm@;
        let ghost nks0 = nks@;
        if nx > 0 {
            proof {
                assert(vals.contains_key(p));
                assert(vals[p] == (CellState { value: nx, neighbors: 0u8 }));
                assert(!nm@.contains_key(k));
            }
            nm.insert(k, CellState::new(nx, 0));
            nks.push(k);
            proof {
                assert forall|x: u64| #[trigger] nm@.contains_key(x) implies nks@.contains(
                    x,
                ) by {
                    if x == k {
                        assert(nks@[nks@.len() - 1] == k);
                    } else {
                        let i = choose|i: int| 0 <= i < nks0.len() && nks0[i] == x;
                        assert(nks@[i] == x);
                    }
                }
                assert forall|a: int, b: int|
                    0 <= a < nks@.len() && 0 <= b < nks@.len() && a != b implies nks@[a]
                    != nks@[b] by {
                    if a < nks@.len() - 1 && b < nks@.len() - 1 {
                    } else {
                        assert(!nm0.contains_key(k));
                        assert forall|i: int| 0 <= i < nks0.len() implies nks0[i] != k by {
                            assert(nm0.contains_key(nks0[i]));
                        }
                    }
                }
            }
        } else {
            proof {
                assert(!vals.contains_key(p));
            }
        }
        t = t + 1;
    }
    proof {
        assert forall|p: Pos| #[trigger] vals.contains_key(p) implies nm@.contains_key(
            pos_index(p, size) as u64,
        ) by {
            assert(in_domain(p, size) && is_candidate(g0, m, p));
            lemma_volume_fits(size);
            lemma_pos_index_roundtrip(p, size);
            let kp = pos_index(p, size) as u64;
            assert(cand@.contains(kp));
            let t2 = choose|t2: int| 0 <= t2 < cand@.len() && cand@[t2] == kp;
            assert(index_pos(kp as int, size) == p);
        }
    }
    (nm, nks)
}

/// Recomputes, against the new map itself, each stored cell's count of
/// fully-alive neighbors, and writes it into the cell.
fn fill_counts(
    nm: &mut HashMap<u64, CellState>,
    nks: &Vec<u64>,
    rule: &Rule,
    offs: &Vec<Pos>,
    bounds: i32,
    Ghost(vals): Ghost<Map<Pos, CellState>>,
)
    requires
        0 <= bounds <= MAX_BOUNDS,
        rule.wf(),
        offs@ == neighbor_offsets(rule.neighbor_method),
        nks@.no_duplicates(),
        forall|i: int| 0 <= i < nks@.len() ==> old(nm)@.contains_key(#[trigger] nks@[i]),
        forall|k: u64| #[trigger] old(nm)@.contains_key(k) ==> nks@.contains(k),
        forall|p: Pos| #[trigger] vals.contains_key(p) ==> in_domain(p, bounds as int),
        forall|k: u64|
            #[trigger] old(nm)@.contains_key(k) ==> in_domain_key(k, bounds as int)
                && vals.contains_key(index_pos(k as int, bounds as int)) && old(nm)@[k] == vals[
                index_pos(k as int, bounds as int)
            ],
        forall|p: Pos|
            #[trigger] vals.contains_key(p) ==> old(nm)@.contains_key(
                pos_index(p, bounds as int) as u64,
            ),
    ensures
        forall|k: u64|
            #[trigger] final(nm)@.contains_key(k) <==> old(nm)@.contains_key(k),
        forall|k: u64|
            #[trigger] final(nm)@.contains_key(k) ==> final(nm)@[k].value == old(nm)@[k].value,
        forall|t: int|
            0 <= t < nks@.len() ==> (#[trigger] final(nm)@[nks@[t]]).neighbors as int
                == neighbor_count(
                vals,
                rule.states,
                index_pos(nks@[t] as int, bounds as int),
                rule.neighbor_method,
            ),
{
    broadcast use vstd::std_specs::hash::group_hash_axioms;

    let ghost size = bounds as int;
    let m = rule.neighbor_method;
    let mut t: usize = 0;
    while t < nks.len()
        invariant
            0 <= bounds <= MAX_BOUNDS,
            size == bounds as int,
            rule.wf(),
            m == rule.neighbor_method,
            offs@ == neighbor_offsets(m),
            nks@.no_duplicates(),
            0 <= t <= nks@.len(),
            forall|i: int| 0 <= i < nks@.len() ==> old(nm)@.contains_key(#[trigger] nks@[i]),
            forall|k: u64| #[trigger] old(nm)@.contains_key(k) ==> nks@.contains(k),
            forall|p: Pos| #[trigger] vals.contains_key(p) ==> in_domain(p, size),
            forall|p: Pos|
                #[trigger] vals.contains_key(p) ==> old(nm)@.contains_key(
                    pos_index(p, size) as u64,
                ),
            forall|k: u64|
                #[trigger] nm@.contains_key(k) <==> old(nm)@.contains_key(k),
            forall|k: u64|
                #[trigger] nm@.contains_key(k) ==> in_domain_key(k, size) && vals.contains_key(
                    index_pos(k as int, size),
                ) && nm@[k].value == vals[index_pos(k as int, size)].value,
            forall|t2: int|
                0 <= t2 < t ==> (#[trigger] nm@[nks@[t2]]).neighbors as int == neighbor_count(
                    vals,
                    rule.states,
                    index_pos(nks@[t2] as int, size),
                    m,
                ),
        decreases nks@.len() - t,
    {
        let k = nks[t];
        proof {
            assert(old(nm)@.contains_key(k));
            assert(nm@.contains_key(k));
            lemma_size_pos(k, size);
            lemma_index_pos_roundtrip(k as int, size);
        }
        let p = crate::utils::idx_to_pos(k, bounds);
        proof {
            assert forall|q: Pos|
                #[trigger] grid_of(nm@, size).contains_key(q) implies vals.contains_key(q) by {
                lemma_volume_fits(size);
                lemma_pos_index_roundtrip(q, size);
            }
            assert forall|q: Pos|
                #[trigger] vals.contains_key(q) implies grid_of(nm@, size).contains_key(q) by {
                lemma_volume_fits(size);
                lemma_pos_index_roundtrip(q, size);
                assert(old(nm)@.contains_key(pos_index(q, size) as u64));
                assert(nm@.contains_key(pos_index(q, size) as u64));
            }
            assert forall|q: Pos| #[trigger] grid_of(nm@, size).contains_key(q) implies grid_of(
                nm@,
                size,
            )[q].value == vals[q].value by {
                lemma_volume_fits(size);
                lemma_pos_index_roundtrip(q, size);
            }
            lemma_count_congruent(
                grid_of(nm@, size),
                vals,
                rule.states,
                p,
                m,
                crate::neighbors::offset_count(m),
            );
        }
        let n2 = count_alive(nm, rule.states, p, offs, m, bounds);
        proof {
            assert(n2 as int == neighbor_count(vals, rule.states, p, m));
        }
        let cv = match get_cell(nm, p, bounds) {
            Some(c) => c.value,
            None => {
                proof {
                    assert(grid_of(nm@, size).contains_key(p));
                    assert(false);
                }
                0
            },
        };
        let ghost nmp = nm@;
        nm.insert(k, CellState::new(cv, n2));
        proof {
            assert(grid_of(nmp, size).contains_key(p));
            assert(cv == nmp[k].value);
            assert forall|t2: int|
                0 <= t2 < t + 1 implies (#[trigger] nm@[nks@[t2]]).neighbors as int
                == neighbor_count(vals, rule.states, index_pos(nks@[t2] as int, size), m) by {
                if t2 < t {
                    assert(nks@[t2] != k);
                    assert(nm@[nks@[t2]] == nmp[nks@[t2]]);
                }
            }
        }
        t = t + 1;
    }
}

/// The key list is duplicate-free and holds exactly the seen-set's keys.
spec fn seen_sync(seen: Map<u64, ()>, list: Seq<u64>) -> bool {
    &&& list.no_duplicates()
    &&& forall|k: u64|
        #![trigger list.contains(k)]
        #![trigger seen.contains_key(k)]
        (list.contains(k) <==> seen.contains_key(k))
}

/// The `jj`-th neighbor of the coordinate packed as `k` is in the seen-set
/// whenever it lies in the domain.
spec fn neighbor_seen(seen: Map<u64, ()>, k: u64, m: NeighborMethod, jj: int, size: int) -> bool {
    in_domain(padd(index_pos(k as int, size), offset_at(m, jj)), size) ==> seen.contains_key(
        pos_index(padd(index_pos(k as int, size), offset_at(m, jj)), size) as u64,
    )
}

/// The coordinate packed as `k` and all its in-domain neighbors are seen.
spec fn covered(seen: Map<u64, ()>, k: u64, m: NeighborMethod, size: int) -> bool {
    &&& seen.contains_key(k)
    &&& forall|jj: int| 0 <= jj < offset_count(m) ==> #[trigger] neighbor_seen(seen, k, m, jj, size)
}

/// Records `k` in the seen-set and, if it was new, appends it to the list.
fn push_new(seen: &mut HashMap<u64, ()>, list: &mut Vec<u64>, k: u64)
    requires
        seen_sync(old(seen)@, old(list)@),
    ensures
        seen_sync(final(seen)@, final(list)@),
        final(seen)@ == old(seen)@.insert(k, ()),
        final(list)@ == old(list)@ || final(list)@ == old(list)@.push(k),
{
    broadcast use vstd::std_specs::hash::group_hash_axioms;

    if !seen.contains_key(&k) {
        seen.insert(k, ());
        list.push(k);
        proof {
            assert forall|x: u64| #[trigger] list@.contains(x) implies seen@.contains_key(x) by {
                if x != k {
                    let t = choose|t: int| 0 <= t < list@.len() && list@[t] == x;
                    assert(old(list)@[t] == x);
                }
            }
            assert forall|x: u64| #[trigger] seen@.contains_key(x) implies list@.contains(x) by {
                if x == k {
                    assert(list@[list@.len() - 1] == k);
                } else {
                    let t = choose|t: int| 0 <= t < old(list)@.len() && old(list)@[t] == x;
                    assert(list@[t] == x);
                }
            }
            assert forall|a: int, b: int|
                0 <= a < list@.len() && 0 <= b < list@.len() && a != b implies list@[a]
                != list@[b] by {
                if a < list@.len() - 1 && b < list@.len() - 1 {
                } else {
                    assert(!old(list)@.contains(k));
                }
            }
        }
    } else {
        proof {
            assert(seen@.insert(k, ()) =~= seen@);
        }
    }
}

impl CellsSingleThreaded {
    /// Collects the packed keys of every candidate coordinate: each stored
    /// coordinate and each of its in-domain neighbors, without duplicates.
    fn collect_candidates(&self, offs: &Vec<Pos>, m: NeighborMethod) -> (cand: Vec<u64>)
        requires
            self.wf(),
            offs@ == neighbor_offsets(m),
        ensures
            cand@.no_duplicates(),
            forall|t: int|
                0 <= t < cand@.len() ==> in_domain_key(#[trigger] cand@[t], self.size())
                    && is_candidate(self.grid(), m, index_pos(cand@[t] as int, self.size())),
            forall|p: Pos|
                in_domain(p, self.size()) && #[trigger] is_candidate(self.grid(), m, p)
                    ==> cand@.contains(pos_index(p, self.size()) as u64),
    {
        broadcast use vstd::std_specs::hash::group_hash_axioms;

        let ghost size = self.size();
        let ghost g0 = self.grid();
        let bounds = self.bounding_size;
        proof {
            lemma_offsets_small(m);
        }
        let mut seen: HashMap<u64, ()> = HashMap::new();
        let mut cand: Vec<u64> = Vec::new();
        let mut i: usize = 0;
        while i < self.keys.len()
            invariant
                self.wf(),
                offs@ == neighbor_offsets(m),
                bounds == self.bounding_size,
                size == self.size(),
                g0 == self.grid(),
                0 <= i <= self.keys@.len(),
                seen_sync(seen@, cand@),
                forall|t: int|
                    0 <= t < cand@.len() ==> in_domain_key(#[trigger] cand@[t], size)
                        && is_candidate(g0, m, index_pos(cand@[t] as int, size)),
                forall|ii: int| 0 <= ii < i ==> covered(seen@, #[trigger] self.keys@[ii], m, size),
                forall|jx: int|
                    0 <= jx < offset_count(m) ==> small_offset(#[trigger] neighbor_offsets(m)[jx]),
            decreases self.keys@.len() - i,
        {
            let k = self.keys[i];
            proof {
                assert(self.states@.contains_key(k));
                assert((k as int) < size * size * size);
                assert(0 < size) by (nonlinear_arith)
                    requires 0 <= size && 0 <= (k as int) < size * size * size;
            }
            let p = crate::utils::idx_to_pos(k, bounds);
            proof {
                assert(g0.contains_key(p));
                assert(is_candidate(g0, m, p));
            }
            let ghost seen0 = seen@;
            push_new(&mut seen, &mut cand, k);
            proof {
                assert forall|ii: int| 0 <= ii < i implies covered(
                    seen@,
                    #[trigger] self.keys@[ii],
                    m,
                    size,
                ) by {
                    assert(covered(seen0, self.keys@[ii], m, size));
                    assert forall|jj: int| 0 <= jj < offset_count(m) implies #[trigger] neighbor_seen(
                        seen@,
                        self.keys@[ii],
                        m,
                        jj,
                        size,
                    ) by {
                        assert(neighbor_seen(seen0, self.keys@[ii], m, jj, size));
                    }
                }
            }
            let mut j: usize = 0;
            while j < offs.len()
                invariant
                    self.wf(),
                    offs@ == neighbor_offsets(m),
                    bounds == self.bounding_size,
                    size == self.size(),
                    g0 == self.grid(),
                    0 <= i < self.keys@.len(),
                    0 <= j <= offs@.len(),
                    k == self.keys@[i as int],
                    p == index_pos(k as int, size),
                    in_domain(p, size),
                    g0.contains_key(p),
                    0 < size,
                    seen_sync(seen@, cand@),
                    seen@.contains_key(k),
                    forall|t: int|
                        0 <= t < cand@.len() ==> in_domain_key(#[trigger] cand@[t], size)
                            && is_candidate(g0, m, index_pos(cand@[t] as int, size)),
                    forall|ii: int|
                        0 <= ii < i ==> covered(seen@, #[trigger] self.keys@[ii], m, size),
                    forall|jj: int|
                        0 <= jj < j ==> #[trigger] neighbor_seen(seen@, k, m, jj, size),
                    forall|jx: int|
                        0 <= jx < offset_count(m) ==> small_offset(
                            #[trigger] neighbor_offsets(m)[jx],
                        ),
                decreases offs@.len() - j,
            {
                let o = offs[j];
                proof {
                    assert(o == neighbor_offsets(m)[j as int]);
                    assert(small_offset(o));
                }
                let qx = p.x + o.x;
                let qy = p.y + o.y;
                let qz = p.z + o.z;
                let ghost q = padd(p, offset_at(m, j as int));
                proof {
                    assert(q.x == qx && q.y == qy && q.z == qz);
                }
                if 0 <= qx && qx < bounds && 0 <= qy && qy < bounds && 0 <= qz && qz < bounds {
                    let qp = Pos { x: qx, y: qy, z: qz };
                    let kq = crate::utils::pos_to_idx(qp, bounds);
                    proof {
                        assert(psub(q, offset_at(m, j as int)) == p);
                        assert(is_candidate(g0, m, qp));
                        lemma_volume_fits(size);
                        lemma_pos_index_roundtrip(qp, size);
                        assert(index_pos(kq as int, size) == qp);
                    }
                    let ghost seen1 = seen@;
                    push_new(&mut seen, &mut cand, kq);
                    proof {
                        assert forall|ii: int| 0 <= ii < i implies covered(
                            seen@,
                            #[trigger] self.keys@[ii],
                            m,
                            size,
                        ) by {
                            assert(covered(seen1, self.keys@[ii], m, size));
                            assert forall|jj: int|
                                0 <= jj < offset_count(m) implies #[trigger] neighbor_seen(
                                seen@,
                                self.keys@[ii],
                                m,
                                jj,
                                size,
                            ) by {
                                assert(neighbor_seen(seen1, self.keys@[ii], m, jj, size));
                            }
                        }
                        assert forall|jj: int| 0 <= jj < j + 1 implies #[trigger] neighbor_seen(
                            seen@,
                            k,
                            m,
                            jj,
                            size,
                        ) by {
                            if jj < j {
                                assert(neighbor_seen(seen1, k, m, jj, size));
                            } else {
                                assert(pos_index(q, size) as u64 == kq);
                            }
                        }
                    }
                } else {
                    proof {
                        assert(!in_domain(q, size));
                        assert forall|jj: int| 0 <= jj < j + 1 implies #[trigger] neighbor_seen(
                            seen@,
                            k,
                            m,
                            jj,
                            size,
                        ) by {}
                    }
                }
                j = j + 1;
            }
            proof {
                assert(covered(seen@, k, m, size));
            }
            i = i + 1;
        }
        proof {
            assert forall|p: Pos|
                in_domain(p, size) && #[trigger] is_candidate(g0, m, p) implies cand@.contains(
                pos_index(p, size) as u64,
            ) by {
                lemma_volume_fits(size);
                lemma_pos_index_roundtrip(p, size);
                if g0.contains_key(p) {
                    let kp = pos_index(p, size) as u64;
                    assert(self.states@.contains_key(kp));
                    assert(self.keys@.contains(kp));
                    let ii = choose|ii: int|
                        0 <= ii < self.keys@.len() && self.keys@[ii] == kp;
                    assert(covered(seen@, kp, m, size));
                    assert(seen@.contains_key(kp));
                } else {
                    let j = choose|j: int|
                        0 <= j < offset_count(m) && g0.contains_key(
                            psub(p, #[trigger] offset_at(m, j)),
                        );
                    let s0 = psub(p, offset_at(m, j));
                    assert(in_domain(s0, size));
                    lemma_pos_index_roundtrip(s0, size);
                    let k0 = pos_index(s0, size) as u64;
                    assert(self.states@.contains_key(k0));
                    assert(self.keys@.contains(k0));
                    let ii = choose|ii: int|
                        0 <= ii < self.keys@.len() && self.keys@[ii] == k0;
                    assert(covered(seen@, k0, m, size));
                    assert(neighbor_seen(seen@, k0, m, j, size));
                    assert(small_offset(offset_at(m, j)));
                    assert(index_pos(k0 as int, size) == s0);
                    assert(padd(s0, offset_at(m, j)) == p);
                    assert(seen@.contains_key(pos_index(p, size) as u64));
                }
            }
        }
        cand
    }
}

} // verus!
