//! Statistics gathered while the simulation runs.

use vstd::prelude::*;

verus! {

/// A collection of statistics to be used later when analysing the results.
pub struct Statistics {
    /// The number of vehicles which have fully traversed the junction and have now despawned.
    pub total_vehicles_passed: u32,
}

impl Statistics {
    /// No vehicle has passed yet.
    pub fn new() -> (r: Self)
        ensures
            r.total_vehicles_passed == 0,
    {
        Statistics { total_vehicles_passed: 0 }
    }

    /// Counts one more vehicle that has traversed the junction.
    pub fn increment_total_vehicles_passed(&mut self)
        requires
            old(self).total_vehicles_passed < u32::MAX,
        ensures
            final(self).total_vehicles_passed == old(self).total_vehicles_passed + 1,
    {
        self.total_vehicles_passed = self.total_vehicles_passed + 1;
    }
}

} // verus!
