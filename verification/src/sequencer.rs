//! The sequencer: assigns each completed sentence a monotonically increasing
//! position number, starting at 1, with no reuse and no gaps.

use vstd::prelude::*;

verus! {

/// Hands out position numbers 1, 2, 3, ... in order.
pub struct Sequencer {
    next: u64,
}

impl Sequencer {
    /// The position the next completed sentence will receive.
    pub closed spec fn next_position(&self) -> u64 {
        self.next
    }

    /// Positions start at 1.
    pub closed spec fn wf(&self) -> bool {
        self.next >= 1
    }

    /// A fresh sequencer; the first sentence gets position 1.
    pub fn new() -> (s: Self)
        ensures
            s.wf(),
            s.next_position() == 1,
    {
        Sequencer { next: 1 }
    }

    /// Reads the next position without assigning it.
    pub fn peek(&self) -> (p: u64)
        ensures
            p == self.next_position(),
    {
        self.next
    }

    /// Assigns the next position: returns it and moves on by exactly one.
    pub fn assign(&mut self) -> (p: u64)
        requires
            old(self).wf(),
            old(self).next_position() < u64::MAX,
        ensures
            final(self).wf(),
            p == old(self).next_position(),
            p >= 1,
            final(self).next_position() == p + 1,
    {
        let p = self.next;
        self.next = self.next + 1;
        p
    }
}

} // verus!
