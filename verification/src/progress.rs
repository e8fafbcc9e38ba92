//! A per-item progress counter.
//!
//! The counter only tracks how many of `total` items have been handled; what
//! an observer does with the returned snapshots — printing a percentage, say
//! — is outside the library and cannot affect its output.

use vstd::prelude::*;

verus! {

/// Counts handled items out of a fixed total.
pub struct Progress {
    pub total: usize,
    pub current: usize,
}

impl Progress {
    pub fn new(total: usize) -> (r: Progress)
        ensures
            r.total == total,
            r.current == 0,
    {
        Progress { total, current: 0 }
    }

    /// Records one more handled item.
    pub fn increment(&mut self)
        requires
            old(self).current < old(self).total,
        ensures
            final(self).current == old(self).current + 1,
            final(self).total == old(self).total,
    {
        self.current = self.current + 1;
    }

    /// Records one more handled item and reports what an observer should
    /// show: the count before the increment, and whether the total was
    /// reached, so the observer can show the final count once more.
    pub fn print_and_increment(&mut self) -> (r: (usize, bool))
        requires
            old(self).current < old(self).total,
        ensures
            final(self).current == old(self).current + 1,
            final(self).total == old(self).total,
            r.0 == old(self).current,
            r.1 == (old(self).current + 1 == old(self).total),
    {
        let shown: usize = self.current;
        self.increment();
        (shown, self.current == self.total)
    }
}

} // verus!
