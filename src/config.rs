//! Tuning values shared by the simulation.
use vstd::prelude::*;

verus! {

/// An inclusive range of tuning values, such as the gap between two obstacles.
pub struct MinMax<T> {
    pub min: T,
    pub max: T,
}

impl<T: Copy> MinMax<T> {
    /// The inclusive range `min..=max`.
    pub fn range(&self) -> (r: core::ops::RangeInclusive<T>)
        ensures
            r@.start == self.min,
            r@.end == self.max,
            !r@.exhausted,
    {
        core::ops::RangeInclusive::new(self.min, self.max)
    }
}

} // verus!
