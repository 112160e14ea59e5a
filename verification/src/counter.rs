//! The shared count of matches emitted so far, and the reservation step
//! that keeps it below the configured cap.

use vstd::prelude::*;

verus! {

/// The cumulative number of matches emitted this run.  In a concurrent run
/// it is touched only under exclusive access; `try_reserve` is then one
/// atomic check-and-increment, which is what keeps racing workers from
/// pushing the count past the cap.
pub struct MatchCount {
    count: u32,
}

impl MatchCount {
    /// How many matches have been emitted.
    pub closed spec fn count(&self) -> nat {
        self.count as nat
    }

    /// A fresh counter: nothing emitted yet.
    pub fn new() -> (r: MatchCount)
        ensures
            r.count() == 0,
    {
        MatchCount { count: 0 }
    }

    /// The current count.
    pub fn get(&self) -> (r: u32)
        ensures
            r as nat == self.count(),
    {
        self.count
    }

    /// Checks the count against `cap` and increments it in the same step.
    /// The reservation is granted exactly when the count was still below
    /// `cap`; once the cap is reached the count never moves again, so no
    /// caller can emit past it.
    pub fn try_reserve(&mut self, cap: u32) -> (granted: bool)
        ensures
            old(self).count() < cap ==> granted && final(self).count() == old(self).count() + 1,
            old(self).count() >= cap ==> !granted && final(self).count() == old(self).count(),
            final(self).count() <= vstd::math::max(old(self).count() as int, cap as int),
    {
        if self.count < cap {
            self.count = self.count + 1;
            true
        } else {
            false
        }
    }
}

} // verus!
