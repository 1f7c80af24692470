//! The generation-step model: what one application of the rule to the whole
//! grid produces, stated over mathematical maps from coordinates to cells.
//!
//! The authoritative transition evaluates exactly the candidate coordinates —
//! every stored coordinate plus every coordinate adjacent to a stored one —
//! and keeps the cells whose next value is positive. Each kept cell's
//! neighbor-count field records, against the new generation, how many of its
//! topology-adjacent coordinates are fully alive.

use vstd::prelude::*;
use crate::cell_state::CellState;
use crate::neighbors::{
    lemma_offsets_small, lemma_offsets_symmetric, neighbor_offsets, offset_at, offset_count,
    small_offset, NeighborMethod,
};
use crate::rule::Rule;
use crate::utils::{in_domain, padd, pneg, pos_index, psub, Pos};

verus! {

/// The sparse cell store as mathematics: the partial map from in-domain
/// coordinates to cells, read through the packed row-major key.
pub open spec fn grid_of(m: Map<u64, CellState>, size: int) -> Map<Pos, CellState> {
    Map::new(
        |p: Pos| in_domain(p, size) && m.contains_key(pos_index(p, size) as u64),
        |p: Pos| m[pos_index(p, size) as u64],
    )
}

/// Whether `p` holds a fully-alive cell: stored and at the rule's top state.
/// Only such cells count toward neighbor totals.
pub open spec fn alive_at(g: Map<Pos, CellState>, states: u8, p: Pos) -> bool {
    g.contains_key(p) && g[p].value == states
}

/// How many of the first `j` topology offsets from `p` land on a fully-alive
/// cell.
pub open spec fn count_alive_upto(
    g: Map<Pos, CellState>,
    states: u8,
    p: Pos,
    m: NeighborMethod,
    j: int,
) -> int
    decreases j,
{
    if j <= 0 {
        0
    } else {
        count_alive_upto(g, states, p, m, j - 1) + if alive_at(
            g,
            states,
            padd(p, offset_at(m, j - 1)),
        ) {
            1int
        } else {
            0int
        }
    }
}

/// The neighbor count of `p`: how many topology-adjacent coordinates hold a
/// fully-alive cell.
pub open spec fn neighbor_count(
    g: Map<Pos, CellState>,
    states: u8,
    p: Pos,
    m: NeighborMethod,
) -> int {
    count_alive_upto(g, states, p, m, offset_count(m))
}

/// A partial alive count lies in `[0, j]`.
pub proof fn lemma_count_bounds(g: Map<Pos, CellState>, states: u8, p: Pos, m: NeighborMethod, j: int)
    requires
        0 <= j,
    ensures
        0 <= count_alive_upto(g, states, p, m, j) <= j,
    decreases j,
{
    if j > 0 {
        lemma_count_bounds(g, states, p, m, j - 1);
    }
}

/// Grids that agree on which coordinates are stored and on the stored values
/// have the same alive counts (the neighbor-count fields do not matter).
pub proof fn lemma_count_congruent(
    g1: Map<Pos, CellState>,
    g2: Map<Pos, CellState>,
    states: u8,
    p: Pos,
    m: NeighborMethod,
    j: int,
)
    requires
        forall|q: Pos| g1.contains_key(q) <==> #[trigger] g2.contains_key(q),
        forall|q: Pos| #[trigger] g1.contains_key(q) ==> g1[q].value == g2[q].value,
    ensures
        count_alive_upto(g1, states, p, m, j) == count_alive_upto(g2, states, p, m, j),
    decreases j,
{
    if j > 0 {
        lemma_count_congruent(g1, g2, states, p, m, j - 1);
        let q = padd(p, offset_at(m, j - 1));
        assert(alive_at(g1, states, q) <==> alive_at(g2, states, q));
    }
}

/// If no coordinate within the first `j` offsets of `p` is fully alive, the
/// partial count is zero.
pub proof fn lemma_count_none(g: Map<Pos, CellState>, states: u8, p: Pos, m: NeighborMethod, j: int)
    requires
        forall|i: int| 0 <= i < j ==> !alive_at(g, states, padd(p, #[trigger] offset_at(m, i))),
    ensures
        count_alive_upto(g, states, p, m, j) == 0,
    decreases j,
{
    if j > 0 {
        lemma_count_none(g, states, p, m, j - 1);
    }
}

/// The value stored at `p`, with absence encoded as zero.
pub open spec fn cur_value(g: Map<Pos, CellState>, p: Pos) -> int {
    if g.contains_key(p) {
        g[p].value as int
    } else {
        0
    }
}

/// The rule table for one cell: a fully-alive cell with an accepted survival
/// count stays at the top state; a dead or below-top cell with an accepted
/// birth count jumps to the top state; otherwise the value decays by one
/// toward zero, and zero means dead.
pub open spec fn rule_next(rule: Rule, cur: int, n: int) -> int {
    if cur == rule.states && rule.survival_rule.spec_get(n) {
        rule.states as int
    } else if cur < rule.states && rule.birth_rule.spec_get(n) {
        rule.states as int
    } else if cur > 0 {
        cur - 1
    } else {
        0
    }
}

/// The next value of the cell at `p` under `rule`.
pub open spec fn next_value(g: Map<Pos, CellState>, rule: Rule, p: Pos) -> int {
    rule_next(rule, cur_value(g, p), neighbor_count(g, rule.states, p, rule.neighbor_method))
}

/// The candidate set: `p` is stored, or `p` is adjacent (per topology) to a
/// stored coordinate. Only candidates can change in one generation.
pub open spec fn is_candidate(g: Map<Pos, CellState>, m: NeighborMethod, p: Pos) -> bool {
    g.contains_key(p) || exists|j: int|
        0 <= j < offset_count(m) && g.contains_key(psub(p, #[trigger] offset_at(m, j)))
}

/// The next generation's values: every in-domain candidate whose next value
/// is positive, with the neighbor-count field not yet filled in.
pub open spec fn step_values(g: Map<Pos, CellState>, rule: Rule, size: int) -> Map<
    Pos,
    CellState,
> {
    Map::new(
        |p: Pos|
            in_domain(p, size) && is_candidate(g, rule.neighbor_method, p) && 0 < next_value(
                g,
                rule,
                p,
            ),
        |p: Pos| CellState { value: next_value(g, rule, p) as u8, neighbors: 0 },
    )
}

/// The next generation: the new values, each cell's neighbor-count field set
/// to its fully-alive neighbor total within the new generation itself.
pub open spec fn step_grid(g: Map<Pos, CellState>, rule: Rule, size: int) -> Map<Pos, CellState> {
    let vals = step_values(g, rule, size);
    Map::new(
        |p: Pos| vals.contains_key(p),
        |p: Pos|
            CellState {
                value: vals[p].value,
                neighbors: neighbor_count(vals, rule.states, p, rule.neighbor_method) as u8,
            },
    )
}

/// Determinism: the step is a function of the grid, the rule and the bounds
/// alone. Two equal grids step to equal grids — in particular the result does
/// not depend on any storage or iteration order.
pub proof fn lemma_step_deterministic(
    g1: Map<Pos, CellState>,
    g2: Map<Pos, CellState>,
    rule: Rule,
    size: int,
)
    requires
        g1 == g2,
    ensures
        step_grid(g1, rule, size) == step_grid(g2, rule, size),
{
}

/// Empty fixed point: a step on an empty grid yields an empty grid, for any
/// rule and bounds.
pub proof fn lemma_step_empty(rule: Rule, size: int)
    ensures
        step_grid(Map::<Pos, CellState>::empty(), rule, size) =~= Map::<Pos, CellState>::empty(),
{
    let g = Map::<Pos, CellState>::empty();
    assert forall|p: Pos| !(#[trigger] step_values(g, rule, size).contains_key(p)) by {
        assert(!is_candidate(g, rule.neighbor_method, p));
    }
}

/// A coordinate that is not a candidate has no fully-alive neighbor and holds
/// no cell, so its next value is zero whenever the rule does not birth on a
/// zero count.
pub proof fn lemma_non_candidate_stays_dead(
    g: Map<Pos, CellState>,
    rule: Rule,
    p: Pos,
)
    requires
        rule.wf(),
        !rule.birth_rule.spec_get(0),
        !is_candidate(g, rule.neighbor_method, p),
    ensures
        next_value(g, rule, p) == 0,
{
    let m = rule.neighbor_method;
    lemma_offsets_symmetric(m);
    lemma_offsets_small(m);
    assert forall|i: int| 0 <= i < offset_count(m) implies !alive_at(
        g,
        rule.states,
        padd(p, #[trigger] offset_at(m, i)),
    ) by {
        let q = padd(p, offset_at(m, i));
        if g.contains_key(q) {
            assert(neighbor_offsets(m).contains(pneg(neighbor_offsets(m)[i])));
            let j = choose|j: int|
                0 <= j < neighbor_offsets(m).len() && neighbor_offsets(m)[j] == pneg(
                    neighbor_offsets(m)[i],
                );
            assert(offset_at(m, j) == pneg(offset_at(m, i)));
            assert(small_offset(offset_at(m, i)));
            assert(psub(p, offset_at(m, j)) == q);
            assert(is_candidate(g, m, p));
        }
    }
    lemma_count_none(g, rule.states, p, m, offset_count(m));
    assert(cur_value(g, p) == 0);
}

/// Sparse/dense equivalence: when the rule does not birth on a zero neighbor
/// count, evaluating only the candidates gives the same next generation as a
/// brute-force scan of the full bounding volume.
pub proof fn lemma_step_dense(g: Map<Pos, CellState>, rule: Rule, size: int)
    requires
        rule.wf(),
        !rule.birth_rule.spec_get(0),
    ensures
        step_values(g, rule, size) =~= Map::new(
            |p: Pos| in_domain(p, size) && 0 < next_value(g, rule, p),
            |p: Pos| CellState { value: next_value(g, rule, p) as u8, neighbors: 0 },
        ),
{
    assert forall|p: Pos|
        in_domain(p, size) && 0 < next_value(g, rule, p) implies is_candidate(
        g,
        rule.neighbor_method,
        p,
    ) by {
        if !is_candidate(g, rule.neighbor_method, p) {
            lemma_non_candidate_stays_dead(g, rule, p);
        }
    }
}

/// Alive-for-counting invariant: in the grid a step produces, every stored
/// cell's neighbor-count field equals the number of its topology-adjacent
/// coordinates that the produced grid itself holds at the rule's top state.
pub proof fn lemma_step_neighbors(g: Map<Pos, CellState>, rule: Rule, size: int, p: Pos)
    requires
        step_grid(g, rule, size).contains_key(p),
    ensures
        step_grid(g, rule, size)[p].neighbors == neighbor_count(
            step_grid(g, rule, size),
            rule.states,
            p,
            rule.neighbor_method,
        ),
{
    let vals = step_values(g, rule, size);
    let next = step_grid(g, rule, size);
    let m = rule.neighbor_method;
    lemma_count_bounds(vals, rule.states, p, m, offset_count(m));
    lemma_count_congruent(vals, next, rule.states, p, m, offset_count(m));
}

} // verus!
