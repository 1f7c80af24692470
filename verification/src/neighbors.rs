//! Neighbor topologies: the fixed ordered sequences of relative offsets that
//! define which cells are adjacent to a coordinate.

use vstd::prelude::*;
use crate::utils::{pneg, Pos};

verus! {

/// The two supported adjacency topologies: the full 26-cell cube (Moore) or
/// the 6 face-adjacent cells (von Neumann).
#[derive(Clone, Copy, PartialEq, Eq, Structural, Debug)]
pub enum NeighborMethod {
    Moore,
    VonNeumann,
}

/// How many offsets the topology has.
pub open spec fn offset_count(m: NeighborMethod) -> int {
    match m {
        NeighborMethod::Moore => 26,
        NeighborMethod::VonNeumann => 6,
    }
}

/// The `j`-th Moore offset: the 26 deltas of a 3x3x3 cube around the origin,
/// the origin itself excluded, ordered with `x` varying fastest.
pub open spec fn moore_offset(j: int) -> Pos {
    if j == 0 { Pos { x: -1i32, y: -1i32, z: -1i32 } }
    else if j == 1 { Pos { x: 0, y: -1i32, z: -1i32 } }
    else if j == 2 { Pos { x: 1, y: -1i32, z: -1i32 } }
    else if j == 3 { Pos { x: -1i32, y: 0, z: -1i32 } }
    else if j == 4 { Pos { x: 0, y: 0, z: -1i32 } }
    else if j == 5 { Pos { x: 1, y: 0, z: -1i32 } }
    else if j == 6 { Pos { x: -1i32, y: 1, z: -1i32 } }
    else if j == 7 { Pos { x: 0, y: 1, z: -1i32 } }
    else if j == 8 { Pos { x: 1, y: 1, z: -1i32 } }
    else if j == 9 { Pos { x: -1i32, y: -1i32, z: 0 } }
    else if j == 10 { Pos { x: 0, y: -1i32, z: 0 } }
    else if j == 11 { Pos { x: 1, y: -1i32, z: 0 } }
    else if j == 12 { Pos { x: -1i32, y: 0, z: 0 } }
    else if j == 13 { Pos { x: 1, y: 0, z: 0 } }
    else if j == 14 { Pos { x: -1i32, y: 1, z: 0 } }
    else if j == 15 { Pos { x: 0, y: 1, z: 0 } }
    else if j == 16 { Pos { x: 1, y: 1, z: 0 } }
    else if j == 17 { Pos { x: -1i32, y: -1i32, z: 1 } }
    else if j == 18 { Pos { x: 0, y: -1i32, z: 1 } }
    else if j == 19 { Pos { x: 1, y: -1i32, z: 1 } }
    else if j == 20 { Pos { x: -1i32, y: 0, z: 1 } }
    else if j == 21 { Pos { x: 0, y: 0, z: 1 } }
    else if j == 22 { Pos { x: 1, y: 0, z: 1 } }
    else if j == 23 { Pos { x: -1i32, y: 1, z: 1 } }
    else if j == 24 { Pos { x: 0, y: 1, z: 1 } }
    else { Pos { x: 1, y: 1, z: 1 } }
}

/// The `j`-th von Neumann offset: the 6 axis-aligned unit deltas.
pub open spec fn von_neumann_offset(j: int) -> Pos {
    if j == 0 { Pos { x: 1, y: 0, z: 0 } }
    else if j == 1 { Pos { x: -1i32, y: 0, z: 0 } }
    else if j == 2 { Pos { x: 0, y: 1, z: 0 } }
    else if j == 3 { Pos { x: 0, y: -1i32, z: 0 } }
    else if j == 4 { Pos { x: 0, y: 0, z: -1i32 } }
    else { Pos { x: 0, y: 0, z: 1 } }
}

/// The `j`-th offset of the given topology.
pub open spec fn offset_at(m: NeighborMethod, j: int) -> Pos {
    match m {
        NeighborMethod::Moore => moore_offset(j),
        NeighborMethod::VonNeumann => von_neumann_offset(j),
    }
}

/// The fixed ordered offset sequence of the given topology.
pub open spec fn neighbor_offsets(m: NeighborMethod) -> Seq<Pos> {
    Seq::new(offset_count(m) as nat, |j: int| offset_at(m, j))
}

/// A unit-cube delta: every component in `[-1, 1]` and not the origin.
pub open spec fn small_offset(o: Pos) -> bool {
    &&& -1 <= o.x <= 1
    &&& -1 <= o.y <= 1
    &&& -1 <= o.z <= 1
    &&& !(o.x == 0 && o.y == 0 && o.z == 0)
}

/// Every offset of either topology is a unit-cube delta.
pub proof fn lemma_offsets_small(m: NeighborMethod)
    ensures
        forall|j: int|
            0 <= j < offset_count(m) ==> small_offset(#[trigger] neighbor_offsets(m)[j]),
{
    assert forall|j: int| 0 <= j < offset_count(m) implies small_offset(
        #[trigger] neighbor_offsets(m)[j],
    ) by {
        assert(neighbor_offsets(m)[j] == offset_at(m, j));
    }
}

/// Offsets come in distinct pairs: the negation of every offset is also an
/// offset of the same topology (adjacency is symmetric).
pub proof fn lemma_offsets_symmetric(m: NeighborMethod)
    ensures
        forall|j: int|
            0 <= j < offset_count(m) ==> neighbor_offsets(m).contains(
                pneg(#[trigger] neighbor_offsets(m)[j]),
            ),
{
    assert forall|j: int| 0 <= j < offset_count(m) implies neighbor_offsets(m).contains(
        pneg(#[trigger] neighbor_offsets(m)[j]),
    ) by {
        match m {
            NeighborMethod::Moore => {
                let j2 = 25 - j;
                assert(neighbor_offsets(m)[j2] == pneg(neighbor_offsets(m)[j]));
            },
            NeighborMethod::VonNeumann => {
                let j2 = if j % 2 == 0 { j + 1 } else { j - 1 };
                assert(neighbor_offsets(m)[j2] == pneg(neighbor_offsets(m)[j]));
            },
        }
    }
}

impl NeighborMethod {
    /// The topology's offsets as a vector, in the fixed order.
    pub fn get_neighbor_iter(&self) -> (r: Vec<Pos>)
        ensures
            r@ == neighbor_offsets(*self),
    {
        let n: usize = match self {
            NeighborMethod::Moore => 26,
            NeighborMethod::VonNeumann => 6,
        };
        let mut r: Vec<Pos> = Vec::new();
        for j in 0..n
            invariant
                n == offset_count(*self),
                r@.len() == j,
                forall|i: int| 0 <= i < j ==> r@[i] == offset_at(*self, i),
        {
            let o = offset_exec(*self, j);
            r.push(o);
        }
        proof {
            assert(r@ =~= neighbor_offsets(*self));
        }
        r
    }
}

/// The `j`-th offset of the topology, as executable code.
fn offset_exec(m: NeighborMethod, j: usize) -> (r: Pos)
    requires
        0 <= j < offset_count(m),
    ensures
        r == offset_at(m, j as int),
{
    match m {
        NeighborMethod::Moore => {
            if j == 0 { Pos { x: -1, y: -1, z: -1 } }
            else if j == 1 { Pos { x: 0, y: -1, z: -1 } }
            else if j == 2 { Pos { x: 1, y: -1, z: -1 } }
            else if j == 3 { Pos { x: -1, y: 0, z: -1 } }
            else if j == 4 { Pos { x: 0, y: 0, z: -1 } }
            else if j == 5 { Pos { x: 1, y: 0, z: -1 } }
            else if j == 6 { Pos { x: -1, y: 1, z: -1 } }
            else if j == 7 { Pos { x: 0, y: 1, z: -1 } }
            else if j == 8 { Pos { x: 1, y: 1, z: -1 } }
            else if j == 9 { Pos { x: -1, y: -1, z: 0 } }
            else if j == 10 { Pos { x: 0, y: -1, z: 0 } }
            else if j == 11 { Pos { x: 1, y: -1, z: 0 } }
            else if j == 12 { Pos { x: -1, y: 0, z: 0 } }
            else if j == 13 { Pos { x: 1, y: 0, z: 0 } }
            else if j == 14 { Pos { x: -1, y: 1, z: 0 } }
            else if j == 15 { Pos { x: 0, y: 1, z: 0 } }
            else if j == 16 { Pos { x: 1, y: 1, z: 0 } }
            else if j == 17 { Pos { x: -1, y: -1, z: 1 } }
            else if j == 18 { Pos { x: 0, y: -1, z: 1 } }
            else if j == 19 { Pos { x: 1, y: -1, z: 1 } }
            else if j == 20 { Pos { x: -1, y: 0, z: 1 } }
            else if j == 21 { Pos { x: 0, y: 0, z: 1 } }
            else if j == 22 { Pos { x: 1, y: 0, z: 1 } }
            else if j == 23 { Pos { x: -1, y: 1, z: 1 } }
            else if j == 24 { Pos { x: 0, y: 1, z: 1 } }
            else { Pos { x: 1, y: 1, z: 1 } }
        },
        NeighborMethod::VonNeumann => {
            if j == 0 { Pos { x: 1, y: 0, z: 0 } }
            else if j == 1 { Pos { x: -1, y: 0, z: 0 } }
            else if j == 2 { Pos { x: 0, y: 1, z: 0 } }
            else if j == 3 { Pos { x: 0, y: -1, z: 0 } }
            else if j == 4 { Pos { x: 0, y: 0, z: -1 } }
            else { Pos { x: 0, y: 0, z: 1 } }
        },
    }
}

} // verus!
