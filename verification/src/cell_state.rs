//! The per-cell record the sparse grid stores.

use vstd::prelude::*;

verus! {

/// One stored cell: its current value in `[1, states]` and the count of
/// topology-adjacent fully-alive cells as of the last generation step.
#[derive(Clone, Copy, PartialEq, Eq, Structural, Debug)]
pub struct CellState {
    pub value: u8,
    pub neighbors: u8,
}

impl CellState {
    /// Builds a cell record from its parts.
    pub fn new(value: u8, neighbors: u8) -> (r: Self)
        ensures
            r == (CellState { value, neighbors }),
    {
        CellState { value, neighbors }
    }
}

} // verus!
