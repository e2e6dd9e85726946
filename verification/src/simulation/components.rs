//! The components of a vehicle that decide where it goes.

use crate::EntityId;
use crate::simulation::statistics::Statistics;
use vstd::prelude::*;

verus! {

/// Decides how the vehicle navigates the map: the route it follows and the segment of
/// the route it is on.
pub struct Navigator {
    /// The route for the vehicle to follow.
    route: Vec<EntityId>,
    /// An index of route to identify the current segment.
    current_segment_index: usize,
}

impl Navigator {
    /// The route is never empty and the current segment is always one of its segments.
    #[verifier::type_invariant]
    spec fn well_formed(self) -> bool {
        self.current_segment_index < self.route@.len()
    }

    /// The route for the vehicle to follow.
    pub closed spec fn route_view(self) -> Seq<EntityId> {
        self.route@
    }

    /// The index in the route of the segment the vehicle is on.
    pub closed spec fn index_view(self) -> int {
        self.current_segment_index as int
    }

    /// The segment the vehicle is on.
    pub open spec fn current_view(self) -> EntityId {
        self.route_view()[self.index_view()]
    }

    /// The segment after the one the vehicle is on, if there is one.
    pub open spec fn next_view(self) -> Option<EntityId> {
        if self.index_view() + 1 < self.route_view().len() {
            Some(self.route_view()[self.index_view() + 1])
        } else {
            None
        }
    }

    /// Creates a navigator at the start of `route`; fails where `route` is empty.
    pub fn try_new(route: Vec<EntityId>) -> (r: Result<Self, &'static str>)
        ensures
            r is Err <==> route@.len() == 0,
            r matches Ok(navigator) ==> navigator.route_view() == route@ && navigator.index_view() == 0,
    {
        if route.len() == 0 {
            Err("route cannot be empty")
        } else {
            Ok(Navigator { route, current_segment_index: 0 })
        }
    }

    /// Moves onto the next segment of the route: returns `Ok(())` if there is one, and
    /// `Err(())` (staying on the last segment) where the end of the route is reached.
    pub fn increment_current_segment_index(&mut self) -> (r: Result<(), ()>)
        ensures
            final(self).route_view() == old(self).route_view(),
            r is Ok <==> old(self).next_view() is Some,
            r is Ok ==> final(self).index_view() == old(self).index_view() + 1,
            r is Err ==> final(self).index_view() == old(self).index_view(),
    {
        proof {
            use_type_invariant(&*self);
        }
        let length = self.route.len();
        if self.current_segment_index + 1 >= length {
            Err(())
        } else {
            self.current_segment_index = self.current_segment_index + 1;
            Ok(())
        }
    }

    /// The segment the vehicle is on.
    pub fn current_segment_id(&self) -> (r: EntityId)
        ensures
            r == self.current_view(),
    {
        proof {
            use_type_invariant(self);
        }
        self.route[self.current_segment_index]
    }

    /// The segment after the current one, or `None` if the current segment is the last.
    pub fn next_segment_id(&self) -> (r: Option<EntityId>)
        ensures
            r == self.next_view(),
    {
        proof {
            use_type_invariant(self);
        }
        let length = self.route.len();
        if self.current_segment_index + 1 < length {
            Some(self.route[self.current_segment_index + 1])
        } else {
            None
        }
    }

    /// The route for the vehicle to follow.
    pub fn route(&self) -> (r: &[EntityId])
        ensures
            r@ == self.route_view(),
    {
        self.route.as_slice()
    }

    /// The index in the route of the segment the vehicle is on.
    pub fn current_segment_index(&self) -> (r: usize)
        ensures
            r == self.index_view(),
    {
        self.current_segment_index
    }
}

/// Moving onto the next segment gives the segment that was next: after a successful
/// `increment_current_segment_index`, the current segment is the one that
/// `next_segment_id` returned before, and the route is unchanged.
pub proof fn lemma_increment_reaches_next(before: Navigator, after: Navigator)
    requires
        after.route_view() == before.route_view(),
        after.index_view() == before.index_view() + 1,
        before.next_view() is Some,
    ensures
        after.current_view() == before.next_view()->Some_0,
{
}

/// What happens to a vehicle that reaches the end of its current segment.
#[derive(Clone, Copy, Debug, PartialEq, Eq, Structural)]
pub enum SegmentEnd {
    /// The vehicle moves onto the next segment of its route.
    NextSegment,
    /// The vehicle has reached the end of its route; it has been counted as passed and
    /// is to be despawned.
    RouteFinished,
}

/// A vehicle has reached the end of its current segment: it moves onto the next segment
/// of its route, or, at the end of the route, it is counted as having passed.
pub fn finish_segment(navigator: &mut Navigator, statistics: &mut Statistics) -> (r: SegmentEnd)
    requires
        old(statistics).total_vehicles_passed < u32::MAX,
    ensures
        final(navigator).route_view() == old(navigator).route_view(),
        match old(navigator).next_view() {
            Some(next) => {
                &&& r == SegmentEnd::NextSegment
                &&& final(navigator).current_view() == next
                &&& final(navigator).index_view() == old(navigator).index_view() + 1
                &&& final(statistics).total_vehicles_passed == old(statistics).total_vehicles_passed
            },
            None => {
                &&& r == SegmentEnd::RouteFinished
                &&& final(navigator).index_view() == old(navigator).index_view()
                &&& final(statistics).total_vehicles_passed == old(statistics).total_vehicles_passed
                    + 1
            },
        },
{
    match navigator.increment_current_segment_index() {
        Ok(()) => SegmentEnd::NextSegment,
        Err(()) => {
            statistics.increment_total_vehicles_passed();
            SegmentEnd::RouteFinished
        },
    }
}

} // verus!
