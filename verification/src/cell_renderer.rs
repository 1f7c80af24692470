//! Dense render-facing cell buffers: one value byte and one neighbor-count
//! byte per grid coordinate, indexed by the packed row-major index.

use vstd::prelude::*;
use crate::utils::{in_domain, pos_index, Pos, MAX_BOUNDS};

verus! {

/// The flattened cell data an external renderer consumes each frame.
pub struct CellRenderer {
    pub bounds: i32,
    pub values: Vec<u8>,
    pub neighbors: Vec<u8>,
}

/// A vector of `n` zero bytes.
fn zeroed_vec(n: usize) -> (r: Vec<u8>)
    ensures
        r@ == Seq::new(n as nat, |i: int| 0u8),
{
    let mut r: Vec<u8> = Vec::new();
    let mut i: usize = 0;
    while i < n
        invariant
            0 <= i <= n,
            r@.len() == i,
            forall|j: int| 0 <= j < i ==> r@[j] == 0u8,
        decreases n - i,
    {
        r.push(0);
        i = i + 1;
    }
    proof {
        assert(r@ =~= Seq::new(n as nat, |i: int| 0u8));
    }
    r
}

impl CellRenderer {
    /// The number of grid coordinates the buffers cover.
    pub open spec fn volume(self) -> int {
        (self.bounds as int) * (self.bounds as int) * (self.bounds as int)
    }

    /// Buffers sized to the bounds, and a cube small enough to index.
    pub open spec fn wf(self) -> bool {
        &&& 0 <= self.bounds <= MAX_BOUNDS
        &&& self.volume() <= usize::MAX
        &&& self.values@.len() == self.volume()
        &&& self.neighbors@.len() == self.volume()
    }

    /// Empty buffers at bounds zero.
    pub fn new() -> (r: Self)
        ensures
            r.wf(),
            r.bounds == 0,
            r.values@.len() == 0,
            r.neighbors@.len() == 0,
    {
        CellRenderer { bounds: 0, values: Vec::new(), neighbors: Vec::new() }
    }

    /// The buffer length: the bounds cubed.
    pub fn cell_count(&self) -> (r: usize)
        requires
            0 <= self.bounds <= MAX_BOUNDS,
            self.volume() <= usize::MAX,
        ensures
            r == self.volume(),
    {
        proof {
            let b = self.bounds as int;
            assert(b == 0 || (b * b <= b * b * b && b <= b * b)) by (nonlinear_arith)
                requires 0 <= b;
        }
        let b = self.bounds as usize;
        if b == 0 {
            proof {
                let bz = self.bounds as int;
                assert(bz * bz * bz == 0) by (nonlinear_arith)
                    requires bz == 0;
            }
            0
        } else {
            let sq = b * b;
            let v = sq * b;
            proof {
                assert(sq == (self.bounds as int) * (self.bounds as int));
                assert(v == self.volume());
            }
            v
        }
    }

    /// Zeroes both buffers, keeping their size in step with the bounds.
    pub fn clear(&mut self)
        requires
            old(self).wf(),
        ensures
            final(self).wf(),
            final(self).bounds == old(self).bounds,
            final(self).values@ == Seq::new(old(self).volume() as nat, |i: int| 0u8),
            final(self).neighbors@ == Seq::new(old(self).volume() as nat, |i: int| 0u8),
    {
        let n = self.cell_count();
        self.values = zeroed_vec(n);
        self.neighbors = zeroed_vec(n);
    }

    /// Re-sizes the buffers for new bounds; changing the bounds zeroes all
    /// cell data, and re-stating the current bounds changes nothing.
    pub fn set_bounds(&mut self, new_bounds: i32)
        requires
            old(self).wf(),
            0 <= new_bounds <= MAX_BOUNDS,
            (new_bounds as int) * (new_bounds as int) * (new_bounds as int) <= usize::MAX,
        ensures
            final(self).wf(),
            final(self).bounds == new_bounds,
            new_bounds == old(self).bounds ==> *final(self) == *old(self),
            new_bounds != old(self).bounds ==> {
                &&& final(self).values@ == Seq::new(final(self).volume() as nat, |i: int| 0u8)
                &&& final(self).neighbors@ == Seq::new(final(self).volume() as nat, |i: int| 0u8)
            },
    {
        if new_bounds != self.bounds {
            self.bounds = new_bounds;
            let n = self.cell_count();
            self.values = zeroed_vec(n);
            self.neighbors = zeroed_vec(n);
        }
    }

    /// Writes one cell's value and neighbor count at a packed index.
    pub fn set(&mut self, idx: usize, value: u8, neighbors: u8)
        requires
            old(self).wf(),
            idx < old(self).volume(),
        ensures
            final(self).wf(),
            final(self).bounds == old(self).bounds,
            final(self).values@ == old(self).values@.update(idx as int, value),
            final(self).neighbors@ == old(self).neighbors@.update(idx as int, neighbors),
    {
        self.values[idx] = value;
        self.neighbors[idx] = neighbors;
    }

    /// Writes one cell's value and neighbor count at a coordinate.
    pub fn set_pos(&mut self, pos: Pos, value: u8, neighbors: u8)
        requires
            old(self).wf(),
            0 < old(self).bounds,
            in_domain(pos, old(self).bounds as int),
        ensures
            final(self).wf(),
            final(self).bounds == old(self).bounds,
            final(self).values@ == old(self).values@.update(
                pos_index(pos, old(self).bounds as int),
                value,
            ),
            final(self).neighbors@ == old(self).neighbors@.update(
                pos_index(pos, old(self).bounds as int),
                neighbors,
            ),
    {
        proof {
            crate::utils::lemma_pos_index_roundtrip(pos, self.bounds as int);
        }
        let idx = crate::utils::pos_to_idx(pos, self.bounds);
        self.set(idx as usize, value, neighbors);
    }
}

} // verus!
