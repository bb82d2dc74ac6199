use vstd::prelude::*;
use vstd::pervasive::VecAdditionalExecFns;

verus! {

/// A growable set of dense small integers, one bit per position.
pub struct BitSet {
    pub bits: Vec<bool>,
}

impl BitSet {
    /// Membership: positions beyond the allocated width are absent.
    pub open spec fn spec_contains(&self, i: int) -> bool {
        0 <= i < self.bits@.len() && self.bits@[i]
    }

    pub fn new() -> (r: BitSet)
        ensures
            r.bits@.len() == 0,
            forall|i: int| !r.spec_contains(i),
    {
        BitSet { bits: Vec::new() }
    }

    /// Grows the set so that positions below `n` can be stored.
    pub fn ensure(&mut self, n: usize)
        ensures
            final(self).bits@.len() >= n,
            final(self).bits@.len() >= old(self).bits@.len(),
            forall|i: int| final(self).spec_contains(i) == old(self).spec_contains(i),
    {
        while self.bits.len() < n
            invariant
                self.bits@.len() >= old(self).bits@.len(),
                forall|i: int| self.spec_contains(i) == old(self).spec_contains(i),
            decreases n - self.bits@.len(),
        {
            self.bits.push(false);
        }
    }

    pub fn contains(&self, i: usize) -> (r: bool)
        ensures
            r == self.spec_contains(i as int),
    {
        i < self.bits.len() && self.bits[i]
    }

    pub fn insert(&mut self, i: usize)
        requires
            i < old(self).bits@.len(),
        ensures
            final(self).bits@.len() == old(self).bits@.len(),
            final(self).spec_contains(i as int),
            forall|j: int| j != i ==> final(self).spec_contains(j) == old(self).spec_contains(j),
    {
        self.bits.set(i, true);
    }

    pub fn remove(&mut self, i: usize)
        ensures
            final(self).bits@.len() == old(self).bits@.len(),
            !final(self).spec_contains(i as int),
            forall|j: int| j != i ==> final(self).spec_contains(j) == old(self).spec_contains(j),
    {
        if i < self.bits.len() {
            self.bits.set(i, false);
        }
    }
}

} // verus!
