//! The automaton rule: which neighbor counts let a fully-alive cell survive,
//! which let a dead or fading cell be (re)born, how many fading states a cell
//! passes through, and which neighbor topology applies.

use vstd::prelude::*;
use crate::neighbors::NeighborMethod;

verus! {

/// A set of accepted neighbor counts, one flag per count in `[0, 26]`.
#[derive(Clone, Copy, PartialEq)]
pub struct Value(pub [bool; 27]);

impl Value {
    /// Whether neighbor count `n` is accepted.
    pub open spec fn spec_get(self, n: int) -> bool {
        0 <= n < 27 && self.0[n]
    }

    /// Whether neighbor count `n` is accepted, as executable code.
    pub fn get(&self, n: u8) -> (r: bool)
        requires
            n < 27,
        ensures
            r == self.spec_get(n as int),
    {
        self.0[n as usize]
    }

    /// Builds the set that accepts exactly the listed neighbor counts.
    pub fn new(indices: &[u8]) -> (result: Self)
        requires
            forall|i: int| 0 <= i < indices@.len() ==> indices@[i] < 27,
        ensures
            forall|n: int|
                0 <= n < 27 ==> (result.spec_get(n) <==> indices@.contains(n as u8)),
    {
        let mut result = Value([false; 27]);
        let mut i: usize = 0;
        while i < indices.len()
            invariant
                i <= indices@.len(),
                forall|j: int| 0 <= j < indices@.len() ==> indices@[j] < 27,
                forall|n: int|
                    0 <= n < 27 ==> (result.0@[n] <==> exists|j: int|
                        0 <= j < i && indices@[j] == n),
            decreases indices@.len() - i,
        {
            let index = indices[i];
            let ghost prev = result.0@;
            result.0[index as usize] = true;
            proof {
                assert forall|n: int| 0 <= n < 27 implies (result.0@[n] <==> exists|j: int|
                    0 <= j < i + 1 && indices@[j] == n) by {
                    if n == index as int {
                        assert(indices@[i as int] == n);
                        assert(0 <= (i as int) < i + 1);
                    } else {
                        assert(result.0@[n] == prev[n]);
                        assert forall|j: int| 0 <= j < i + 1 && indices@[j] == n implies 0 <= j
                            < i by {
                            assert(indices@[i as int] == index as int);
                        }
                    }
                }
            }
            i = i + 1;
        }
        proof {
            assert forall|n: int| 0 <= n < 27 implies (result.spec_get(n)
                <==> indices@.contains(n as u8)) by {
                if result.spec_get(n) {
                    let j = choose|j: int| 0 <= j < indices@.len() && indices@[j] == n;
                    assert(indices@[j] == n as u8);
                }
                if indices@.contains(n as u8) {
                    let j = choose|j: int| 0 <= j < indices@.len() && indices@[j] == n as u8;
                    assert(indices@[j] == n);
                }
            }
        }
        result
    }

    /// Builds the set that accepts exactly the neighbor counts in the
    /// inclusive range `[lo, hi]` (empty when `lo > hi`).
    pub fn from_range(lo: i32, hi: i32) -> (result: Value)
        requires
            lo <= hi ==> 0 <= lo && hi < 27,
        ensures
            forall|n: int| result.spec_get(n) <==> lo <= n <= hi,
    {
        let mut result = Value([false; 27]);
        if lo <= hi {
            let mut idx: i32 = lo;
            while idx <= hi
                invariant
                    lo <= idx <= hi + 1,
                    0 <= lo,
                    hi < 27,
                    forall|n: int| 0 <= n < 27 ==> (result.0@[n] <==> lo <= n < idx),
                decreases hi + 1 - idx,
            {
                let ghost prev = result.0@;
                result.0[idx as usize] = true;
                proof {
                    assert forall|n: int| 0 <= n < 27 implies (result.0@[n] <==> lo <= n < idx
                        + 1) by {
                        if n != idx as int {
                            assert(result.0@[n] == prev[n]);
                        }
                    }
                }
                idx = idx + 1;
            }
        }
        result
    }
}

/// An immutable description of one automaton: survival counts, birth counts,
/// the number of discrete cell states, and the neighbor topology.
#[derive(Clone, PartialEq)]
pub struct Rule {
    pub survival_rule: Value,
    pub birth_rule: Value,
    pub states: u8,
    pub neighbor_method: NeighborMethod,
}

impl Rule {
    /// A rule is well formed when it has at least one state, so that the
    /// fully-alive value the masks speak of exists.
    pub open spec fn wf(self) -> bool {
        self.states >= 1
    }

    /// Builds a rule; a rule with no states is rejected at construction.
    pub fn new(
        survival_rule: Value,
        birth_rule: Value,
        states: u8,
        neighbor_method: NeighborMethod,
    ) -> (r: Rule)
        requires
            states >= 1,
        ensures
            r == (Rule { survival_rule, birth_rule, states, neighbor_method }),
            r.wf(),
    {
        Rule { survival_rule, birth_rule, states, neighbor_method }
    }
}

} // verus!
