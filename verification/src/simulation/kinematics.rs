//! The discrete decisions of vehicle movement: which sectors an entering vehicle
//! watches, where circulating vehicles are, and which vehicle leads another.

use crate::EntityId;
use crate::layout::components::{find_by_id, lookup, Segment, SegmentType};
use crate::layout::conflict_points::ConflictPointIndex;
use crate::simulation::sector_map::{
    bimap_pairs, pairs_after_insert, sector_map_get_by_left, sector_map_insert, sector_map_new,
    SectorMap,
};
use vstd::prelude::*;

verus! {

/// The pairs of sector and lane that a map built from the first `n` segments holds:
/// each segment of type `segment_type` on the arm with index `arm_index` is inserted,
/// in order, paired with its lane index.
pub open spec fn sector_pairs(
    segments: Seq<(EntityId, Segment)>,
    segment_type: SegmentType,
    arm_index: int,
    n: int,
) -> Map<EntityId, usize>
    decreases n,
{
    if n <= 0 || n > segments.len() {
        Map::empty()
    } else {
        let prev = sector_pairs(segments, segment_type, arm_index, n - 1);
        let (id, segment) = segments[n - 1];
        if segment.segment_type == segment_type && segment.arm_index == arm_index {
            pairs_after_insert(prev, id, segment.lane_index)
        } else {
            prev
        }
    }
}

/// The arm before arm `arm_index` around the circle.
pub open spec fn previous_arm(arm_index: int, number_of_arms: int) -> int {
    (arm_index + number_of_arms - 1) % number_of_arms
}

fn sectors_of(segments: &Vec<(EntityId, Segment)>, segment_type: SegmentType, arm_index: usize) -> (r:
    SectorMap)
    ensures
        bimap_pairs(r) == sector_pairs(segments@, segment_type, arm_index as int, segments@.len() as int),
{
    let mut map = sector_map_new();
    let mut i: usize = 0;
    assert(bimap_pairs(map) =~= sector_pairs(segments@, segment_type, arm_index as int, 0));
    while i < segments.len()
        invariant
            0 <= i <= segments@.len(),
            bimap_pairs(map) == sector_pairs(segments@, segment_type, arm_index as int, i as int),
        decreases segments.len() - i,
    {
        let (id, segment) = segments[i];
        if segment.segment_type == segment_type && segment.arm_index == arm_index {
            sector_map_insert(&mut map, id, segment.lane_index);
        }
        i = i + 1;
    }
    map
}

/// Gets the sectors that vehicles entering at arm `entry_arm_index` yield to, each with
/// its lane index: `.0` maps the intra arm sectors of that arm, `.1` the inter arm
/// sectors of the arm before it (the sectors behind the intra arm sectors).
pub fn get_sectors(entry_arm_index: usize, number_of_arms: usize, segments: &Vec<(EntityId, Segment)>) -> (r:
    (SectorMap, SectorMap))
    requires
        number_of_arms > 0,
        entry_arm_index + number_of_arms <= usize::MAX,
    ensures
        bimap_pairs(r.0) == sector_pairs(
            segments@,
            SegmentType::IntraArmSector,
            entry_arm_index as int,
            segments@.len() as int,
        ),
        bimap_pairs(r.1) == sector_pairs(
            segments@,
            SegmentType::InterArmSector,
            previous_arm(entry_arm_index as int, number_of_arms as int),
            segments@.len() as int,
        ),
{
    let intra_arm_sectors = sectors_of(segments, SegmentType::IntraArmSector, entry_arm_index);
    // The inter arm sectors are the sectors behind the intra arm sectors.
    let prev_arm_index = (entry_arm_index + number_of_arms - 1) % number_of_arms;
    let inter_arm_sectors = sectors_of(segments, SegmentType::InterArmSector, prev_arm_index);
    (intra_arm_sectors, inter_arm_sectors)
}

/// Every sector in the map is a sector of that type on that arm, paired with its lane.
pub proof fn lemma_sector_pairs_sound(
    segments: Seq<(EntityId, Segment)>,
    segment_type: SegmentType,
    arm_index: int,
    n: int,
    id: EntityId,
)
    requires
        sector_pairs(segments, segment_type, arm_index, n).contains_key(id),
    ensures
        exists|i: int|
            0 <= i < n && i < segments.len() && (#[trigger] segments[i]).0 == id && segments[i].1.segment_type
                == segment_type && segments[i].1.arm_index == arm_index && segments[i].1.lane_index
                == sector_pairs(segments, segment_type, arm_index, n)[id],
    decreases n,
{
    if 0 < n <= segments.len() {
        let prev = sector_pairs(segments, segment_type, arm_index, n - 1);
        let (sid, segment) = segments[n - 1];
        if segment.segment_type == segment_type && segment.arm_index == arm_index && sid != id {
            lemma_sector_pairs_sound(segments, segment_type, arm_index, n - 1, id);
        } else if !(segment.segment_type == segment_type && segment.arm_index == arm_index) {
            lemma_sector_pairs_sound(segments, segment_type, arm_index, n - 1, id);
        } else {
            assert(segments[n - 1].0 == id);
        }
    }
}

/// Where the sectors of the type on the arm have distinct entities and distinct lanes,
/// every one of them is in the map, paired with its lane.
pub proof fn lemma_sector_pairs_complete(
    segments: Seq<(EntityId, Segment)>,
    segment_type: SegmentType,
    arm_index: int,
    n: int,
    i: int,
)
    requires
        0 <= i < n <= segments.len(),
        segments[i].1.segment_type == segment_type,
        segments[i].1.arm_index == arm_index,
        forall|j: int, k: int|
            0 <= j < n && 0 <= k < n && j != k && (#[trigger] segments[j]).1.segment_type == segment_type
                && segments[j].1.arm_index == arm_index && (#[trigger] segments[k]).1.segment_type
                == segment_type && segments[k].1.arm_index == arm_index ==> segments[j].0
                != segments[k].0 && segments[j].1.lane_index != segments[k].1.lane_index,
    ensures
        sector_pairs(segments, segment_type, arm_index, n).contains_key(segments[i].0),
        sector_pairs(segments, segment_type, arm_index, n)[segments[i].0] == segments[i].1.lane_index,
    decreases n,
{
    if i < n - 1 {
        lemma_sector_pairs_complete(segments, segment_type, arm_index, n - 1, i);
        let (sid, segment) = segments[n - 1];
        if segment.segment_type == segment_type && segment.arm_index == arm_index {
            assert(segments[n - 1].0 != segments[i].0);
            assert(segments[n - 1].1.lane_index != segments[i].1.lane_index);
        }
    }
}

/// Where a circulating vehicle is: the lane it circulates in, whether it is on the inter
/// arm sector (before the intra arm sector of the entry arm), and the conflict point
/// that it approaches.
#[derive(Clone, Copy, Debug, PartialEq, Eq, Structural)]
pub struct CirculatingPosition {
    pub circulating_lane_index: usize,
    pub is_inter_arm: bool,
    pub conflict_point_index: ConflictPointIndex,
}

/// The conflict point index of a circulating lane inside the entry lane cannot be made.
#[derive(Clone, Copy, Debug, PartialEq, Eq, Structural)]
pub enum CirculationError {
    ConflictPointIndexUnavailable,
}

/// `segments` holds an exit deflection with entity `id`.
pub open spec fn is_exit_deflection(segments: Seq<(EntityId, Segment)>, id: EntityId) -> bool {
    lookup(segments, id) matches Some(segment) && segment.segment_type == SegmentType::ExitDeflection
}

/// Where the vehicle `vehicle_id`, on `current_segment_id` with `next_segment_id` ahead,
/// circulates relative to the vehicle `entry_vehicle_id` entering at arm
/// `entry_arm_index` in lane `entry_lane_index`; `None` where it does not matter to it.
pub open spec fn spec_circulating_position(
    entry_vehicle_id: EntityId,
    entry_lane_index: usize,
    entry_arm_index: usize,
    vehicle_id: EntityId,
    current_segment_id: EntityId,
    next_segment_id: Option<EntityId>,
    segments: Seq<(EntityId, Segment)>,
    intra_arm_sectors: Map<EntityId, usize>,
    inter_arm_sectors: Map<EntityId, usize>,
) -> Result<Option<CirculatingPosition>, CirculationError> {
    if vehicle_id == entry_vehicle_id {
        Ok(None)
    } else {
        match next_segment_id {
            // On the last segment of its route, so not circulating.
            None => Ok(None),
            Some(next) => if is_exit_deflection(segments, next) {
                // Entering vehicles do not yield to exiting vehicles.
                Ok(None)
            } else {
                let lane = if intra_arm_sectors.contains_key(current_segment_id) {
                    Some((intra_arm_sectors[current_segment_id], false))
                } else if inter_arm_sectors.contains_key(current_segment_id) {
                    Some((inter_arm_sectors[current_segment_id], true))
                } else {
                    None
                };
                match lane {
                    None => Ok(None),
                    Some((circulating_lane_index, is_inter_arm)) => if circulating_lane_index
                        >= entry_lane_index {
                        Ok(
                            Some(
                                CirculatingPosition {
                                    circulating_lane_index,
                                    is_inter_arm,
                                    conflict_point_index: ConflictPointIndex {
                                        arm_index: entry_arm_index,
                                        entry_lane_index,
                                        circulating_lane_index,
                                    },
                                },
                            ),
                        )
                    } else {
                        Err(CirculationError::ConflictPointIndexUnavailable)
                    },
                }
            },
        }
    }
}

/// Decides where the vehicle `vehicle_id` circulates relative to the vehicle
/// `entry_vehicle_id` entering at arm `entry_arm_index` in lane `entry_lane_index`:
/// `Ok(None)` for the entering vehicle itself, a vehicle on its last segment or about
/// to exit, and a vehicle on none of the watched sectors.
pub fn circulating_position(
    entry_vehicle_id: EntityId,
    entry_lane_index: usize,
    entry_arm_index: usize,
    vehicle_id: EntityId,
    current_segment_id: EntityId,
    next_segment_id: Option<EntityId>,
    segments: &Vec<(EntityId, Segment)>,
    intra_arm_sectors: &SectorMap,
    inter_arm_sectors: &SectorMap,
) -> (r: Result<Option<CirculatingPosition>, CirculationError>)
    ensures
        r == spec_circulating_position(
            entry_vehicle_id,
            entry_lane_index,
            entry_arm_index,
            vehicle_id,
            current_segment_id,
            next_segment_id,
            segments@,
            bimap_pairs(*intra_arm_sectors),
            bimap_pairs(*inter_arm_sectors),
        ),
{
    if vehicle_id == entry_vehicle_id {
        return Ok(None);
    }
    let next = match next_segment_id {
        Some(next) => next,
        None => {
            return Ok(None);
        },
    };
    match find_by_id(segments, next) {
        Some(segment) => {
            if segment.segment_type == SegmentType::ExitDeflection {
                return Ok(None);
            }
        },
        None => {},
    }
    let (circulating_lane_index, is_inter_arm) = match sector_map_get_by_left(
        intra_arm_sectors,
        current_segment_id,
    ) {
        Some(lane_index) => (lane_index, false),
        None => match sector_map_get_by_left(inter_arm_sectors, current_segment_id) {
            Some(lane_index) => (lane_index, true),
            None => {
                return Ok(None);
            },
        },
    };
    match ConflictPointIndex::try_new(entry_arm_index, entry_lane_index, circulating_lane_index) {
        Some((conflict_point_index, _)) => Ok(
            Some(CirculatingPosition { circulating_lane_index, is_inter_arm, conflict_point_index }),
        ),
        None => Err(CirculationError::ConflictPointIndexUnavailable),
    }
}

/// A vehicle that may lead another: its entity, the segment it is on, and its progress
/// along that segment as a key that orders as the progress does.
#[derive(Clone, Copy, Debug, PartialEq, Eq, Structural)]
pub struct LeadCandidate {
    pub vehicle_id: EntityId,
    pub current_segment_id: EntityId,
    pub progress_key: i64,
}

/// The vehicle ahead: its entity, the index of its segment in the route ahead (which
/// starts at `route_start` of the following vehicle's route), and its progress key.
#[derive(Clone, Copy, Debug, PartialEq, Eq, Structural)]
pub struct LeadVehicleChoice {
    pub vehicle_id: EntityId,
    pub route_start: usize,
    pub route_index: usize,
    pub progress_key: i64,
}

/// Why no vehicle ahead was found.
#[derive(Clone, Copy, Debug, PartialEq, Eq, Structural)]
pub enum LeadVehicleError {
    /// The vehicle's current segment is not on its route.
    CurrentSegmentNotOnRoute,
    /// No other vehicle is ahead on the vehicle's route.
    NoLeadVehicle,
}

/// The first position from `start` on at which `route` holds `id`.
pub open spec fn position_from(route: Seq<EntityId>, id: EntityId, start: int) -> Option<int>
    decreases route.len() - start,
{
    if start < 0 || start >= route.len() {
        None
    } else if route[start] == id {
        Some(start)
    } else {
        position_from(route, id, start + 1)
    }
}

/// The first position at which `route` holds `id`.
pub open spec fn position_of(route: Seq<EntityId>, id: EntityId) -> Option<int> {
    position_from(route, id, 0)
}

/// A position found holds `id`, within the route, and no earlier position from `start` holds it.
pub proof fn lemma_position_from(route: Seq<EntityId>, id: EntityId, start: int)
    ensures
        position_from(route, id, start) matches Some(i) ==> {
            &&& 0 <= start <= i < route.len()
            &&& route[i] == id
            &&& forall|j: int| start <= j < i ==> route[j] != id
        },
        position_from(route, id, start) is None ==> forall|j: int|
            0 <= start <= j < route.len() ==> route[j] != id,
    decreases route.len() - start,
{
    if 0 <= start < route.len() && route[start] != id {
        lemma_position_from(route, id, start + 1);
    }
}

/// Finds the first position at which `route` holds `id`.
pub fn find_position(route: &[EntityId], id: EntityId) -> (r: Option<usize>)
    ensures
        match r {
            Some(i) => position_of(route@, id) == Some(i as int),
            None => position_of(route@, id) is None,
        },
{
    let mut i: usize = 0;
    while i < route.len()
        invariant
            0 <= i <= route@.len(),
            position_of(route@, id) == position_from(route@, id, i as int),
        decreases route.len() - i,
    {
        if route[i] == id {
            return Some(i);
        }
        i = i + 1;
    }
    None
}

/// `(index_a, key_a)` ranks strictly before `(index_b, key_b)`: a smaller route index,
/// or the same one with a smaller progress.
pub open spec fn ranks_before(index_a: int, key_a: int, index_b: int, key_b: int) -> bool {
    index_a < index_b || (index_a == index_b && key_a < key_b)
}

/// The position of `candidate` in the route ahead (`ahead`), if it is ahead of the
/// vehicle `this_vehicle_id` whose progress key is `this_progress_key`: another vehicle
/// on the route ahead, and beyond this vehicle where it is on the same segment.
pub open spec fn ahead_index(
    this_vehicle_id: EntityId,
    this_progress_key: i64,
    ahead: Seq<EntityId>,
    candidate: LeadCandidate,
) -> Option<int> {
    if candidate.vehicle_id == this_vehicle_id {
        None
    } else {
        match position_of(ahead, candidate.current_segment_id) {
            None => None,
            Some(index) => if index == 0 && candidate.progress_key <= this_progress_key {
                None
            } else {
                Some(index)
            },
        }
    }
}

/// The best lead vehicle among the candidates from position `i` on, given the best
/// `(route index, progress key, vehicle)` so far: the first of the candidates that
/// rank first.
pub open spec fn best_lead_from(
    this_vehicle_id: EntityId,
    this_progress_key: i64,
    ahead: Seq<EntityId>,
    candidates: Seq<LeadCandidate>,
    i: int,
    best: Option<(int, i64, EntityId)>,
) -> Option<(int, i64, EntityId)>
    decreases candidates.len() - i,
{
    if i < 0 || i >= candidates.len() {
        best
    } else {
        let candidate = candidates[i];
        let next_best = match ahead_index(this_vehicle_id, this_progress_key, ahead, candidate) {
            None => best,
            Some(index) => match best {
                None => Some((index, candidate.progress_key, candidate.vehicle_id)),
                Some((best_index, best_key, _)) => if ranks_before(
                    index,
                    candidate.progress_key as int,
                    best_index,
                    best_key as int,
                ) {
                    Some((index, candidate.progress_key, candidate.vehicle_id))
                } else {
                    best
                },
            },
        };
        best_lead_from(this_vehicle_id, this_progress_key, ahead, candidates, i + 1, next_best)
    }
}

/// The vehicle ahead of `this_vehicle_id`, whose route is `this_route`, on its current
/// segment `this_current_segment_id` with progress key `this_progress_key`.
pub open spec fn spec_select_lead_vehicle(
    this_vehicle_id: EntityId,
    this_route: Seq<EntityId>,
    this_current_segment_id: EntityId,
    this_progress_key: i64,
    candidates: Seq<LeadCandidate>,
) -> Result<LeadVehicleChoice, LeadVehicleError> {
    match position_of(this_route, this_current_segment_id) {
        None => Err(LeadVehicleError::CurrentSegmentNotOnRoute),
        Some(start) => match best_lead_from(
            this_vehicle_id,
            this_progress_key,
            this_route.skip(start),
            candidates,
            0,
            None,
        ) {
            None => Err(LeadVehicleError::NoLeadVehicle),
            Some((index, key, vehicle_id)) => Ok(
                LeadVehicleChoice {
                    vehicle_id,
                    route_start: start as usize,
                    route_index: index as usize,
                    progress_key: key,
                },
            ),
        },
    }
}

/// Finds the vehicle in front of vehicle `this_vehicle_id`: among the other vehicles on
/// its route from its current segment on (and beyond it on that segment), the one with
/// the smallest route index, then the smallest progress; the first such one on a tie.
pub fn select_lead_vehicle(
    this_vehicle_id: EntityId,
    this_route: &[EntityId],
    this_current_segment_id: EntityId,
    this_progress_key: i64,
    candidates: &Vec<LeadCandidate>,
) -> (r: Result<LeadVehicleChoice, LeadVehicleError>)
    ensures
        r == spec_select_lead_vehicle(
            this_vehicle_id,
            this_route@,
            this_current_segment_id,
            this_progress_key,
            candidates@,
        ),
{
    let start = match find_position(this_route, this_current_segment_id) {
        Some(start) => start,
        None => {
            return Err(LeadVehicleError::CurrentSegmentNotOnRoute);
        },
    };
    let ghost ahead = this_route@.skip(start as int);
    let ghost total = best_lead_from(this_vehicle_id, this_progress_key, ahead, candidates@, 0, None);
    proof {
        lemma_position_from(this_route@, this_current_segment_id, 0);
    }
    let ahead_route = &this_route[start..this_route.len()];
    assert(ahead_route@ =~= ahead);
    let mut best: Option<(usize, i64, EntityId)> = None;
    let mut i: usize = 0;
    while i < candidates.len()
        invariant
            0 <= i <= candidates@.len(),
            start < this_route@.len(),
            ahead == this_route@.skip(start as int),
            ahead_route@ == ahead,
            total == best_lead_from(
                this_vehicle_id,
                this_progress_key,
                ahead,
                candidates@,
                i as int,
                match best {
                    None => None,
                    Some((index, key, id)) => Some((index as int, key, id)),
                },
            ),
            best matches Some((index, _, _)) ==> index < ahead.len(),
        decreases candidates.len() - i,
    {
        let candidate = candidates[i];
        if candidate.vehicle_id != this_vehicle_id {
            match find_position(ahead_route, candidate.current_segment_id) {
                Some(index) => {
                    proof {
                        lemma_position_from(ahead, candidate.current_segment_id, 0);
                    }
                    if !(index == 0 && candidate.progress_key <= this_progress_key) {
                        match best {
                            None => {
                                best = Some((index, candidate.progress_key, candidate.vehicle_id));
                            },
                            Some((best_index, best_key, _)) => {
                                if index < best_index || (index == best_index && candidate.progress_key
                                    < best_key) {
                                    best = Some((index, candidate.progress_key, candidate.vehicle_id));
                                }
                            },
                        }
                    }
                },
                None => {},
            }
        }
        i = i + 1;
    }
    match best {
        None => Err(LeadVehicleError::NoLeadVehicle),
        Some((index, key, vehicle_id)) => Ok(
            LeadVehicleChoice { vehicle_id, route_start: start, route_index: index, progress_key: key },
        ),
    }
}

/// The best so far is one of the candidates before position `i` that are ahead, and
/// none of those ranks before it; with no best so far, none of them is ahead.
pub open spec fn best_so_far(
    this_vehicle_id: EntityId,
    this_progress_key: i64,
    ahead: Seq<EntityId>,
    candidates: Seq<LeadCandidate>,
    i: int,
    best: Option<(int, i64, EntityId)>,
) -> bool {
    match best {
        None => forall|j: int|
            0 <= j < i ==> ahead_index(this_vehicle_id, this_progress_key, ahead, #[trigger] candidates[j])
                is None,
        Some((best_index, best_key, best_id)) => {
            &&& exists|j: int|
                0 <= j < i && ahead_index(this_vehicle_id, this_progress_key, ahead, #[trigger] candidates[j])
                    == Some(best_index) && candidates[j].progress_key == best_key && candidates[j].vehicle_id
                    == best_id
            &&& forall|j: int|
                0 <= j < i ==> (ahead_index(this_vehicle_id, this_progress_key, ahead, #[trigger] candidates[j])
                    matches Some(index) ==> !ranks_before(
                    index,
                    candidates[j].progress_key as int,
                    best_index,
                    best_key as int,
                ))
        },
    }
}

proof fn lemma_best_lead_from(
    this_vehicle_id: EntityId,
    this_progress_key: i64,
    ahead: Seq<EntityId>,
    candidates: Seq<LeadCandidate>,
    i: int,
    best: Option<(int, i64, EntityId)>,
)
    requires
        0 <= i <= candidates.len(),
        best_so_far(this_vehicle_id, this_progress_key, ahead, candidates, i, best),
    ensures
        best_so_far(
            this_vehicle_id,
            this_progress_key,
            ahead,
            candidates,
            candidates.len() as int,
            best_lead_from(this_vehicle_id, this_progress_key, ahead, candidates, i, best),
        ),
    decreases candidates.len() - i,
{
    if i < candidates.len() {
        let candidate = candidates[i];
        let next_best = match ahead_index(this_vehicle_id, this_progress_key, ahead, candidate) {
            None => best,
            Some(index) => match best {
                None => Some((index, candidate.progress_key, candidate.vehicle_id)),
                Some((best_index, best_key, _)) => if ranks_before(
                    index,
                    candidate.progress_key as int,
                    best_index,
                    best_key as int,
                ) {
                    Some((index, candidate.progress_key, candidate.vehicle_id))
                } else {
                    best
                },
            },
        };
        assert(best_so_far(this_vehicle_id, this_progress_key, ahead, candidates, i + 1, next_best)) by {
            match next_best {
                None => {},
                Some((bi, bk, bid)) => {
                    if next_best != best {
                        assert(ahead_index(this_vehicle_id, this_progress_key, ahead, candidates[i])
                            == Some(bi));
                    } else {
                        let best_pair = best->Some_0;
                        let j = choose|j: int|
                            0 <= j < i && ahead_index(
                                this_vehicle_id,
                                this_progress_key,
                                ahead,
                                #[trigger] candidates[j],
                            ) == Some(best_pair.0) && candidates[j].progress_key == best_pair.1
                                && candidates[j].vehicle_id == best_pair.2;
                        assert(0 <= j < i + 1);
                    }
                },
            }
        }
        lemma_best_lead_from(this_vehicle_id, this_progress_key, ahead, candidates, i + 1, next_best);
    }
}

/// The vehicle found ahead is another vehicle on the route ahead, ahead of this one
/// where on the same segment, and no such vehicle is nearer: none has a smaller route
/// index, or the same one with a smaller progress. No vehicle is found only where no
/// other vehicle is ahead.
pub proof fn lemma_lead_vehicle_is_nearest(
    this_vehicle_id: EntityId,
    this_route: Seq<EntityId>,
    this_current_segment_id: EntityId,
    this_progress_key: i64,
    candidates: Seq<LeadCandidate>,
)
    requires
        this_route.len() <= usize::MAX,
    ensures
        ({
            let ahead = this_route.skip(position_of(this_route, this_current_segment_id)->Some_0);
            match spec_select_lead_vehicle(
                this_vehicle_id,
                this_route,
                this_current_segment_id,
                this_progress_key,
                candidates,
            ) {
                Ok(choice) => {
                    &&& exists|j: int|
                        0 <= j < candidates.len() && ahead_index(
                            this_vehicle_id,
                            this_progress_key,
                            ahead,
                            #[trigger] candidates[j],
                        ) == Some(choice.route_index as int) && candidates[j].progress_key
                            == choice.progress_key && candidates[j].vehicle_id == choice.vehicle_id
                    &&& forall|j: int|
                        0 <= j < candidates.len() ==> (ahead_index(
                            this_vehicle_id,
                            this_progress_key,
                            ahead,
                            #[trigger] candidates[j],
                        ) matches Some(index) ==> !ranks_before(
                            index,
                            candidates[j].progress_key as int,
                            choice.route_index as int,
                            choice.progress_key as int,
                        ))
                },
                Err(LeadVehicleError::NoLeadVehicle) => forall|j: int|
                    0 <= j < candidates.len() ==> ahead_index(
                        this_vehicle_id,
                        this_progress_key,
                        ahead,
                        #[trigger] candidates[j],
                    ) is None,
                Err(LeadVehicleError::CurrentSegmentNotOnRoute) => position_of(
                    this_route,
                    this_current_segment_id,
                ) is None,
            }
        }),
{
    match position_of(this_route, this_current_segment_id) {
        None => {},
        Some(start) => {
            let ahead = this_route.skip(start);
            lemma_best_lead_from(this_vehicle_id, this_progress_key, ahead, candidates, 0, None);
            let best = best_lead_from(this_vehicle_id, this_progress_key, ahead, candidates, 0, None);
            match best {
                None => {},
                Some((index, key, id)) => {
                    lemma_position_from(this_route, this_current_segment_id, 0);
                    let j = choose|j: int|
                        0 <= j < candidates.len() && ahead_index(
                            this_vehicle_id,
                            this_progress_key,
                            ahead,
                            #[trigger] candidates[j],
                        ) == Some(index) && candidates[j].progress_key == key && candidates[j].vehicle_id
                            == id;
                    lemma_position_from(ahead, candidates[j].current_segment_id, 0);
                    assert(0 <= index < ahead.len());
                    assert(index as usize as int == index);
                },
            }
        },
    }
}

/// Every other vehicle on the rest of the route is a lead candidate. No lead vehicle is
/// found only where every other vehicle stands off the route from the current segment
/// to its end, or on the current segment at or behind this vehicle. A lead vehicle found
/// is another vehicle, standing on the route at the index given (counted from the
/// current segment), beyond this vehicle where on the current segment, and no other such
/// vehicle stands at a smaller index, or at the same index with a smaller progress.
pub proof fn lemma_lead_vehicle_on_rest_of_route(
    this_vehicle_id: EntityId,
    this_route: Seq<EntityId>,
    this_current_segment_id: EntityId,
    this_progress_key: i64,
    candidates: Seq<LeadCandidate>,
)
    requires
        this_route.len() <= usize::MAX,
    ensures
        ({
            let start = position_of(this_route, this_current_segment_id)->Some_0;
            let rest = this_route.skip(start);
            match spec_select_lead_vehicle(
                this_vehicle_id,
                this_route,
                this_current_segment_id,
                this_progress_key,
                candidates,
            ) {
                Err(LeadVehicleError::CurrentSegmentNotOnRoute) => position_of(
                    this_route,
                    this_current_segment_id,
                ) is None,
                Err(LeadVehicleError::NoLeadVehicle) => {
                    &&& position_of(this_route, this_current_segment_id) is Some
                    &&& forall|j: int|
                        0 <= j < candidates.len() && (#[trigger] candidates[j]).vehicle_id != this_vehicle_id
                            ==> (position_of(rest, candidates[j].current_segment_id) matches Some(index) ==> index
                            == 0 && candidates[j].progress_key <= this_progress_key)
                },
                Ok(choice) => {
                    &&& position_of(this_route, this_current_segment_id) == Some(choice.route_start as int)
                    &&& !(choice.route_index == 0 && choice.progress_key <= this_progress_key)
                    &&& exists|j: int|
                        0 <= j < candidates.len() && (#[trigger] candidates[j]).vehicle_id == choice.vehicle_id
                            && choice.vehicle_id != this_vehicle_id && position_of(
                            rest,
                            candidates[j].current_segment_id,
                        ) == Some(choice.route_index as int) && candidates[j].progress_key
                            == choice.progress_key
                    &&& forall|j: int|
                        0 <= j < candidates.len() && (#[trigger] candidates[j]).vehicle_id != this_vehicle_id
                            ==> (position_of(rest, candidates[j].current_segment_id) matches Some(index) ==> (
                        index == 0 && candidates[j].progress_key <= this_progress_key) || index
                            > choice.route_index || (index == choice.route_index && candidates[j].progress_key
                            >= choice.progress_key))
                },
            }
        }),
{
    lemma_lead_vehicle_is_nearest(
        this_vehicle_id,
        this_route,
        this_current_segment_id,
        this_progress_key,
        candidates,
    );
    let start = position_of(this_route, this_current_segment_id)->Some_0;
    let rest = this_route.skip(start);
    let result = spec_select_lead_vehicle(
        this_vehicle_id,
        this_route,
        this_current_segment_id,
        this_progress_key,
        candidates,
    );
    match result {
        Err(LeadVehicleError::NoLeadVehicle) => {
            assert(position_of(this_route, this_current_segment_id) is Some);
            assert forall|j: int|
                0 <= j < candidates.len() && (#[trigger] candidates[j]).vehicle_id != this_vehicle_id
                    implies (position_of(rest, candidates[j].current_segment_id) matches Some(index) ==> index
                    == 0 && candidates[j].progress_key <= this_progress_key) by {
                assert(ahead_index(this_vehicle_id, this_progress_key, rest, candidates[j]) is None);
            }
        },
        Ok(choice) => {
            lemma_position_from(this_route, this_current_segment_id, 0);
            let j = choose|j: int|
                0 <= j < candidates.len() && ahead_index(
                    this_vehicle_id,
                    this_progress_key,
                    rest,
                    #[trigger] candidates[j],
                ) == Some(choice.route_index as int) && candidates[j].progress_key == choice.progress_key
                    && candidates[j].vehicle_id == choice.vehicle_id;
            assert(candidates[j].vehicle_id == choice.vehicle_id);
            assert forall|k: int|
                0 <= k < candidates.len() && (#[trigger] candidates[k]).vehicle_id != this_vehicle_id
                    implies (position_of(rest, candidates[k].current_segment_id) matches Some(index) ==> (index
                    == 0 && candidates[k].progress_key <= this_progress_key) || index > choice.route_index || (
                index == choice.route_index && candidates[k].progress_key >= choice.progress_key)) by {
                let found = ahead_index(this_vehicle_id, this_progress_key, rest, candidates[k]);
            }
        },
        _ => {},
    }
}

/// Entering vehicles do not yield to exiting vehicles: a vehicle whose next segment is
/// an exit deflection is never a circulating vehicle to an entering one, whichever
/// sector (if any) it stands on. Nor is the entering vehicle itself, nor a vehicle on the
/// last segment of its route. A vehicle on a watched intra arm sector whose next segment
/// is no exit deflection is circulating in that sector's lane.
pub proof fn lemma_exiting_vehicles_do_not_circulate(
    entry_vehicle_id: EntityId,
    entry_lane_index: usize,
    entry_arm_index: usize,
    vehicle_id: EntityId,
    current_segment_id: EntityId,
    next_segment_id: Option<EntityId>,
    segments: Seq<(EntityId, Segment)>,
    intra_arm_sectors: Map<EntityId, usize>,
    inter_arm_sectors: Map<EntityId, usize>,
)
    ensures
        ({
            let r = spec_circulating_position(
                entry_vehicle_id,
                entry_lane_index,
                entry_arm_index,
                vehicle_id,
                current_segment_id,
                next_segment_id,
                segments,
                intra_arm_sectors,
                inter_arm_sectors,
            );
            &&& (next_segment_id is Some && lookup(segments, next_segment_id->Some_0) is Some && lookup(
                segments,
                next_segment_id->Some_0,
            )->Some_0.segment_type == SegmentType::ExitDeflection) ==> r == Ok::<
                Option<CirculatingPosition>,
                CirculationError,
            >(None)
            &&& (vehicle_id == entry_vehicle_id || next_segment_id is None) ==> r == Ok::<
                Option<CirculatingPosition>,
                CirculationError,
            >(None)
            &&& (vehicle_id != entry_vehicle_id && next_segment_id is Some && !(lookup(
                segments,
                next_segment_id->Some_0,
            ) is Some && lookup(segments, next_segment_id->Some_0)->Some_0.segment_type
                == SegmentType::ExitDeflection) && intra_arm_sectors.contains_key(current_segment_id)
                && intra_arm_sectors[current_segment_id] >= entry_lane_index) ==> (r is Ok && r->Ok_0 is Some
                && r->Ok_0->Some_0.circulating_lane_index == intra_arm_sectors[current_segment_id]
                && !r->Ok_0->Some_0.is_inter_arm)
        }),
{
}

} // verus!
