//! Queues of vehicles waiting to spawn, and the choice of which of them spawn now.

use crate::EntityId;
use crate::layout::components::{
    arm_index_lookup, find_arm_index, keys_distinct, Arm, DestinationWeights, SpawnPoint,
};
use crate::simulation::pathfinding::{
    lane_selection_defined, select_destination_arm, select_lane_index_of, spec_select_lane_index,
    weight_values,
};
use crate::simulation::random::weight_sum;
use rand::rngs::StdRng;
use std::collections::VecDeque;
use vstd::prelude::*;

verus! {

/// The destination arms of the vehicles waiting to spawn at an arm, in order.
pub struct VehicleSpawnQueue {
    /// Holds destination arms of vehicles waiting to spawn.
    pub pending_destinations: VecDeque<EntityId>,
}

impl VehicleSpawnQueue {
    /// An empty queue.
    pub fn new() -> (r: Self)
        ensures
            r.pending_destinations@ == Seq::<EntityId>::empty(),
    {
        VehicleSpawnQueue { pending_destinations: VecDeque::new() }
    }

    /// Queues `number_to_spawn` vehicles, each with a destination chosen at random by
    /// `destination_weights`.
    pub fn enqueue_destinations(
        &mut self,
        spawner_rng: &mut StdRng,
        destination_weights: &DestinationWeights,
        number_to_spawn: u32,
    )
        requires
            number_to_spawn > 0 ==> {
                &&& destination_weights@.len() > 0
                &&& keys_distinct(destination_weights@)
                &&& 0 < weight_sum(weight_values(destination_weights@)) <= u32::MAX
            },
        ensures
            final(self).pending_destinations@.len() == old(self).pending_destinations@.len()
                + number_to_spawn,
            final(self).pending_destinations@.take(old(self).pending_destinations@.len() as int)
                == old(self).pending_destinations@,
            forall|j: int|
                old(self).pending_destinations@.len() <= j < final(self).pending_destinations@.len()
                    ==> is_weighted_destination(
                    destination_weights@,
                    #[trigger] final(self).pending_destinations@[j],
                ),
    {
        let ghost start = self.pending_destinations@;
        let mut n: u32 = 0;
        while n < number_to_spawn
            invariant
                0 <= n <= number_to_spawn,
                number_to_spawn > 0 ==> {
                    &&& destination_weights@.len() > 0
                    &&& keys_distinct(destination_weights@)
                    &&& 0 < weight_sum(weight_values(destination_weights@)) <= u32::MAX
                },
                self.pending_destinations@.len() == start.len() + n,
                self.pending_destinations@.take(start.len() as int) == start,
                forall|j: int|
                    start.len() <= j < self.pending_destinations@.len() ==> is_weighted_destination(
                        destination_weights@,
                        #[trigger] self.pending_destinations@[j],
                    ),
            decreases number_to_spawn - n,
        {
            let end_arm_id = select_destination_arm(spawner_rng, destination_weights);
            let ghost before = self.pending_destinations@;
            self.pending_destinations.push_back(end_arm_id);
            assert(self.pending_destinations@.take(start.len() as int) =~= before.take(start.len() as int));
            n = n + 1;
        }
    }
}

/// `arm` is one of the destinations of `destination_weights` with a positive weight.
pub open spec fn is_weighted_destination(destination_weights: Seq<(EntityId, u32)>, arm: EntityId) -> bool {
    exists|i: int|
        0 <= i < destination_weights.len() && destination_weights[i].0 == arm
            && destination_weights[i].1 > 0
}

/// The first spawn point from position `start` on of arm `arm` and lane `lane_index`.
pub open spec fn find_spawn_point_from(
    spawn_points: Seq<SpawnPoint>,
    arm: EntityId,
    lane_index: int,
    start: int,
) -> Option<SpawnPoint>
    decreases spawn_points.len() - start,
{
    if start < 0 || start >= spawn_points.len() {
        None
    } else if spawn_points[start].arm == arm && spawn_points[start].lane_index == lane_index {
        Some(spawn_points[start])
    } else {
        find_spawn_point_from(spawn_points, arm, lane_index, start + 1)
    }
}

/// The spawn point of arm `arm` and lane `lane_index`.
pub open spec fn find_spawn_point(spawn_points: Seq<SpawnPoint>, arm: EntityId, lane_index: int) -> Option<
    SpawnPoint,
> {
    find_spawn_point_from(spawn_points, arm, lane_index, 0)
}

/// Finds the spawn point of arm `arm` and lane `lane_index`.
pub fn find_spawn_point_of(spawn_points: &Vec<SpawnPoint>, arm: EntityId, lane_index: usize) -> (r: Option<
    SpawnPoint,
>)
    ensures
        r == find_spawn_point(spawn_points@, arm, lane_index as int),
{
    let mut i: usize = 0;
    while i < spawn_points.len()
        invariant
            0 <= i <= spawn_points@.len(),
            find_spawn_point(spawn_points@, arm, lane_index as int) == find_spawn_point_from(
                spawn_points@,
                arm,
                lane_index as int,
                i as int,
            ),
        decreases spawn_points.len() - i,
    {
        let spawn_point = spawn_points[i];
        if spawn_point.arm == arm && spawn_point.lane_index == lane_index {
            return Some(spawn_point);
        }
        i = i + 1;
    }
    None
}

/// What spawning needs to know about the arm vehicles spawn at.
pub struct SpawnSite {
    /// The arm's entity.
    pub arm_id: EntityId,
    /// The arm's index.
    pub arm_index: usize,
    /// The number of arms of the roundabout.
    pub number_of_arms: usize,
    /// The number of lanes of the roundabout.
    pub number_of_lanes: usize,
}

/// A vehicle that spawns now: its destination and the spawn point it spawns at.
#[derive(Clone, Copy, Debug, PartialEq, Eq, Structural)]
pub struct SpawnDecision {
    pub destination: EntityId,
    pub spawn_point: SpawnPoint,
}

/// The lane that a vehicle to `destination` spawns in.
pub open spec fn destination_lane(site: SpawnSite, target_arms: Seq<(EntityId, Arm)>, destination: EntityId) -> int {
    spec_select_lane_index(
        site.arm_index as int,
        arm_index_lookup(target_arms, destination)->Some_0 as int,
        site.number_of_arms as int,
        site.number_of_lanes as int,
    )
}

/// The spawn point that a vehicle to `destination` spawns at.
pub open spec fn destination_spawn_point(
    site: SpawnSite,
    target_arms: Seq<(EntityId, Arm)>,
    spawn_points: Seq<SpawnPoint>,
    destination: EntityId,
) -> SpawnPoint {
    find_spawn_point(spawn_points, site.arm_id, destination_lane(site, target_arms, destination))->Some_0
}

/// Every queued destination is an arm, its lane can be selected, and that lane has a spawn point.
pub open spec fn spawn_inputs_valid(
    site: SpawnSite,
    target_arms: Seq<(EntityId, Arm)>,
    spawn_points: Seq<SpawnPoint>,
    queue: Seq<EntityId>,
) -> bool {
    forall|i: int|
        0 <= i < queue.len() ==> {
            &&& arm_index_lookup(target_arms, #[trigger] queue[i]) is Some
            &&& lane_selection_defined(
                site.arm_index as int,
                arm_index_lookup(target_arms, queue[i])->Some_0 as int,
                site.number_of_arms as int,
                site.number_of_lanes as int,
            )
            &&& find_spawn_point(
                spawn_points,
                site.arm_id,
                destination_lane(site, target_arms, queue[i]),
            ) is Some
        }
}

/// Goes through the queue from position `i`, where the entry segments in `used` have
/// already been spawned on this frame: a queued vehicle spawns unless its entry segment
/// is blocked by an existing vehicle or was spawned on this frame. Returns the vehicles
/// that spawn and the destinations that stay queued, both in queue order.
pub open spec fn spawn_plan(
    site: SpawnSite,
    target_arms: Seq<(EntityId, Arm)>,
    spawn_points: Seq<SpawnPoint>,
    blocked_segments: Seq<EntityId>,
    queue: Seq<EntityId>,
    i: int,
    used: Seq<EntityId>,
) -> (Seq<SpawnDecision>, Seq<EntityId>)
    decreases queue.len() - i,
{
    if i < 0 || i >= queue.len() {
        (Seq::empty(), Seq::empty())
    } else {
        let spawn_point = destination_spawn_point(site, target_arms, spawn_points, queue[i]);
        let segment = spawn_point.segment;
        if blocked_segments.contains(segment) || used.contains(segment) {
            let rest = spawn_plan(site, target_arms, spawn_points, blocked_segments, queue, i + 1, used);
            (rest.0, seq![queue[i]] + rest.1)
        } else {
            let rest = spawn_plan(
                site,
                target_arms,
                spawn_points,
                blocked_segments,
                queue,
                i + 1,
                used.push(segment),
            );
            (seq![SpawnDecision { destination: queue[i], spawn_point }] + rest.0, rest.1)
        }
    }
}

fn contains_id(ids: &Vec<EntityId>, id: EntityId) -> (r: bool)
    ensures
        r == ids@.contains(id),
{
    let mut i: usize = 0;
    while i < ids.len()
        invariant
            0 <= i <= ids@.len(),
            forall|j: int| 0 <= j < i ==> ids@[j] != id,
        decreases ids.len() - i,
    {
        if ids[i] == id {
            assert(ids@[i as int] == id);
            return true;
        }
        i = i + 1;
    }
    false
}

/// Decides which queued vehicles spawn now, and removes them from the queue.
///
/// `blocked_segments` are the entry segments on which an existing vehicle is still too
/// near the start. A vehicle spawns unless its entry segment is blocked or has already
/// had a vehicle spawn on it on this frame; the others stay queued, in order.
pub fn take_spawns(
    queue: &mut VehicleSpawnQueue,
    site: &SpawnSite,
    target_arms: &Vec<(EntityId, Arm)>,
    spawn_points: &Vec<SpawnPoint>,
    blocked_segments: &Vec<EntityId>,
) -> (r: Vec<SpawnDecision>)
    requires
        spawn_inputs_valid(*site, target_arms@, spawn_points@, old(queue).pending_destinations@),
    ensures
        ({
            let plan = spawn_plan(
                *site,
                target_arms@,
                spawn_points@,
                blocked_segments@,
                old(queue).pending_destinations@,
                0,
                Seq::empty(),
            );
            &&& r@ == plan.0
            &&& final(queue).pending_destinations@ == plan.1
        }),
{
    let ghost queue0 = queue.pending_destinations@;
    let ghost total = spawn_plan(
        *site,
        target_arms@,
        spawn_points@,
        blocked_segments@,
        queue0,
        0,
        Seq::empty(),
    );
    let mut decisions: Vec<SpawnDecision> = Vec::new();
    let mut kept: VecDeque<EntityId> = VecDeque::new();
    let mut frame_spawned_segments: Vec<EntityId> = Vec::new();
    let mut i: usize = 0;
    let length = queue.pending_destinations.len();
    while i < length
        invariant
            0 <= i <= length,
            length == queue0.len(),
            queue.pending_destinations@ == queue0,
            spawn_inputs_valid(*site, target_arms@, spawn_points@, queue0),
            decisions@ + spawn_plan(
                *site,
                target_arms@,
                spawn_points@,
                blocked_segments@,
                queue0,
                i as int,
                frame_spawned_segments@,
            ).0 == total.0,
            kept@ + spawn_plan(
                *site,
                target_arms@,
                spawn_points@,
                blocked_segments@,
                queue0,
                i as int,
                frame_spawned_segments@,
            ).1 == total.1,
        decreases length - i,
    {
        let end_arm_id = queue.pending_destinations[i];
        assert(arm_index_lookup(target_arms@, queue0[i as int]) is Some);
        let end_arm_index = match find_arm_index(target_arms, end_arm_id) {
            Some(index) => index,
            None => {
                proof {
                    assert(false);
                }
                0
            },
        };
        let lane_index = select_lane_index_of(
            site.arm_index,
            end_arm_index,
            site.number_of_arms,
            site.number_of_lanes,
        );
        let spawn_point = match find_spawn_point_of(spawn_points, site.arm_id, lane_index) {
            Some(spawn_point) => spawn_point,
            None => {
                proof {
                    assert(false);
                }
                SpawnPoint { arm: 0, lane_index: 0, segment: 0 }
            },
        };
        let entry_segment_id = spawn_point.segment;
        let ghost rest = spawn_plan(
            *site,
            target_arms@,
            spawn_points@,
            blocked_segments@,
            queue0,
            i as int,
            frame_spawned_segments@,
        );
        let is_blocked_existing = contains_id(blocked_segments, entry_segment_id);
        let is_blocked_this_frame = contains_id(&frame_spawned_segments, entry_segment_id);
        if is_blocked_existing || is_blocked_this_frame {
            // This lane cannot spawn another vehicle at the moment.
            let ghost before = kept@;
            kept.push_back(end_arm_id);
            assert(kept@ + spawn_plan(
                *site,
                target_arms@,
                spawn_points@,
                blocked_segments@,
                queue0,
                i + 1,
                frame_spawned_segments@,
            ).1 =~= before + rest.1);
        } else {
            let ghost before = decisions@;
            decisions.push(SpawnDecision { destination: end_arm_id, spawn_point });
            frame_spawned_segments.push(entry_segment_id);
            assert(decisions@ + spawn_plan(
                *site,
                target_arms@,
                spawn_points@,
                blocked_segments@,
                queue0,
                i + 1,
                frame_spawned_segments@,
            ).0 =~= before + rest.0);
        }
        i = i + 1;
    }
    assert(decisions@ =~= total.0);
    assert(kept@ =~= total.1);
    queue.pending_destinations = kept;
    decisions
}

/// The destinations of `decisions`.
pub open spec fn destinations(decisions: Seq<SpawnDecision>) -> Seq<EntityId> {
    decisions.map_values(|decision: SpawnDecision| decision.destination)
}

/// Taking spawns loses and invents no vehicle: together, the destinations of the
/// vehicles that spawn and the destinations that stay queued are the queued ones.
pub proof fn lemma_spawn_plan_conserves(
    site: SpawnSite,
    target_arms: Seq<(EntityId, Arm)>,
    spawn_points: Seq<SpawnPoint>,
    blocked_segments: Seq<EntityId>,
    queue: Seq<EntityId>,
    i: int,
    used: Seq<EntityId>,
)
    requires
        0 <= i <= queue.len(),
    ensures
        ({
            let plan = spawn_plan(site, target_arms, spawn_points, blocked_segments, queue, i, used);
            destinations(plan.0).to_multiset().add(plan.1.to_multiset()) == queue.skip(i).to_multiset()
        }),
    decreases queue.len() - i,
{
    broadcast use vstd::multiset::group_multiset_axioms;
    broadcast use vstd::seq_lib::group_to_multiset_ensures;

    let plan = spawn_plan(site, target_arms, spawn_points, blocked_segments, queue, i, used);
    if i == queue.len() {
        assert(destinations(plan.0) =~= Seq::<EntityId>::empty());
        assert(queue.skip(i) =~= Seq::<EntityId>::empty());
        assert(destinations(plan.0).to_multiset().add(plan.1.to_multiset()) =~= queue.skip(
            i,
        ).to_multiset());
    } else {
        let head = seq![queue[i]];
        assert(queue.skip(i) =~= head + queue.skip(i + 1));
        vstd::seq_lib::lemma_multiset_commutative(head, queue.skip(i + 1));
        let spawn_point = destination_spawn_point(site, target_arms, spawn_points, queue[i]);
        let segment = spawn_point.segment;
        if blocked_segments.contains(segment) || used.contains(segment) {
            let rest = spawn_plan(site, target_arms, spawn_points, blocked_segments, queue, i + 1, used);
            lemma_spawn_plan_conserves(site, target_arms, spawn_points, blocked_segments, queue, i + 1, used);
            vstd::seq_lib::lemma_multiset_commutative(head, rest.1);
            assert(destinations(plan.0).to_multiset().add(plan.1.to_multiset()) =~= queue.skip(
                i,
            ).to_multiset());
        } else {
            let rest = spawn_plan(
                site,
                target_arms,
                spawn_points,
                blocked_segments,
                queue,
                i + 1,
                used.push(segment),
            );
            lemma_spawn_plan_conserves(
                site,
                target_arms,
                spawn_points,
                blocked_segments,
                queue,
                i + 1,
                used.push(segment),
            );
            assert(destinations(plan.0) =~= head + destinations(rest.0));
            vstd::seq_lib::lemma_multiset_commutative(head, destinations(rest.0));
            assert(destinations(plan.0).to_multiset().add(plan.1.to_multiset()) =~= queue.skip(
                i,
            ).to_multiset());
        }
    }
}

/// The vehicles that spawn on one frame spawn on entry segments that are not blocked
/// and not spawned on before in the frame (not in `used`), each on a different one, at
/// the spawn point of their arm for the lane of their destination.
pub proof fn lemma_spawn_plan_segments(
    site: SpawnSite,
    target_arms: Seq<(EntityId, Arm)>,
    spawn_points: Seq<SpawnPoint>,
    blocked_segments: Seq<EntityId>,
    queue: Seq<EntityId>,
    i: int,
    used: Seq<EntityId>,
)
    ensures
        ({
            let spawns = spawn_plan(site, target_arms, spawn_points, blocked_segments, queue, i, used).0;
            &&& forall|j: int|
                0 <= j < spawns.len() ==> {
                    &&& !blocked_segments.contains(#[trigger] spawns[j].spawn_point.segment)
                    &&& !used.contains(spawns[j].spawn_point.segment)
                    &&& spawns[j].spawn_point == destination_spawn_point(
                        site,
                        target_arms,
                        spawn_points,
                        spawns[j].destination,
                    )
                }
            &&& forall|j: int, k: int|
                0 <= j < spawns.len() && 0 <= k < spawns.len() && j != k
                    ==> #[trigger] spawns[j].spawn_point.segment != #[trigger] spawns[k].spawn_point.segment
        }),
    decreases queue.len() - i,
{
    if 0 <= i < queue.len() {
        let spawn_point = destination_spawn_point(site, target_arms, spawn_points, queue[i]);
        let segment = spawn_point.segment;
        if blocked_segments.contains(segment) || used.contains(segment) {
            lemma_spawn_plan_segments(site, target_arms, spawn_points, blocked_segments, queue, i + 1, used);
            assert(spawn_plan(site, target_arms, spawn_points, blocked_segments, queue, i, used).0
                == spawn_plan(site, target_arms, spawn_points, blocked_segments, queue, i + 1, used).0);
        } else {
            let used2 = used.push(segment);
            lemma_spawn_plan_segments(site, target_arms, spawn_points, blocked_segments, queue, i + 1, used2);
            let rest = spawn_plan(site, target_arms, spawn_points, blocked_segments, queue, i + 1, used2).0;
            let spawns = spawn_plan(site, target_arms, spawn_points, blocked_segments, queue, i, used).0;
            assert forall|j: int| 0 <= j < rest.len() implies !used.contains(
                #[trigger] rest[j].spawn_point.segment,
            ) && rest[j].spawn_point.segment != segment by {
                if used.contains(rest[j].spawn_point.segment) {
                    let k = choose|k: int| 0 <= k < used.len() && used[k] == rest[j].spawn_point.segment;
                    assert(used2[k] == rest[j].spawn_point.segment);
                }
                assert(used2[used.len() as int] == segment);
            }
            assert forall|j: int| 0 <= j < spawns.len() implies !blocked_segments.contains(
                #[trigger] spawns[j].spawn_point.segment,
            ) && !used.contains(spawns[j].spawn_point.segment) && spawns[j].spawn_point
                == destination_spawn_point(
                site,
                target_arms,
                spawn_points,
                spawns[j].destination,
            ) by {
                if j > 0 {
                    assert(spawns[j] == rest[j - 1]);
                }
            }
            assert forall|j: int, k: int|
                0 <= j < spawns.len() && 0 <= k < spawns.len() && j != k
                    implies #[trigger] spawns[j].spawn_point.segment
                != #[trigger] spawns[k].spawn_point.segment by {
                if j > 0 {
                    assert(spawns[j] == rest[j - 1]);
                }
                if k > 0 {
                    assert(spawns[k] == rest[k - 1]);
                }
            }
        }
    }
}

/// Why a queued vehicle cannot be placed.
#[derive(Clone, Copy, Debug, PartialEq, Eq, Structural)]
pub enum SpawnInputError {
    /// The destination is not an arm.
    MissingTargetArm { destination: EntityId },
    /// The lane for the destination cannot be selected.
    LaneUndefined { destination: EntityId },
    /// The lane for the destination has no spawn point.
    MissingSpawnPoint { destination: EntityId, lane_index: usize },
}

/// Checks that every queued destination is an arm whose lane can be selected and has a
/// spawn point, as `take_spawns` expects; returns the first problem otherwise.
pub fn check_spawn_inputs(
    site: &SpawnSite,
    target_arms: &Vec<(EntityId, Arm)>,
    spawn_points: &Vec<SpawnPoint>,
    queue: &VehicleSpawnQueue,
) -> (r: Result<(), SpawnInputError>)
    ensures
        r is Ok <==> spawn_inputs_valid(*site, target_arms@, spawn_points@, queue.pending_destinations@),
{
    let ghost queue0 = queue.pending_destinations@;
    let mut i: usize = 0;
    while i < queue.pending_destinations.len()
        invariant
            0 <= i <= queue0.len(),
            queue0 == queue.pending_destinations@,
            forall|j: int|
                0 <= j < i ==> {
                    &&& arm_index_lookup(target_arms@, #[trigger] queue0[j]) is Some
                    &&& lane_selection_defined(
                        site.arm_index as int,
                        arm_index_lookup(target_arms@, queue0[j])->Some_0 as int,
                        site.number_of_arms as int,
                        site.number_of_lanes as int,
                    )
                    &&& find_spawn_point(
                        spawn_points@,
                        site.arm_id,
                        destination_lane(*site, target_arms@, queue0[j]),
                    ) is Some
                },
        decreases queue0.len() - i,
    {
        let destination = queue.pending_destinations[i];
        let exit_index = match find_arm_index(target_arms, destination) {
            Some(index) => index,
            None => {
                return Err(SpawnInputError::MissingTargetArm { destination });
            },
        };
        if site.number_of_lanes > 1 {
            let defined = site.number_of_arms >= 2 && exit_index <= usize::MAX - site.number_of_arms
                && site.arm_index <= exit_index + site.number_of_arms;
            if !defined {
                return Err(SpawnInputError::LaneUndefined { destination });
            }
        }
        let lane_index = select_lane_index_of(
            site.arm_index,
            exit_index,
            site.number_of_arms,
            site.number_of_lanes,
        );
        if find_spawn_point_of(spawn_points, site.arm_id, lane_index).is_none() {
            return Err(SpawnInputError::MissingSpawnPoint { destination, lane_index });
        }
        i = i + 1;
    }
    Ok(())
}

/// Every queued vehicle that can spawn does: a vehicle stays queued only where the
/// entry segment of its spawn point is blocked, was spawned on before this call (is in
/// `used`), or is the entry segment of a vehicle that spawns in this call. A vehicle
/// kept back by a lane in use never holds back vehicles bound for other, free lanes.
pub proof fn lemma_spawn_plan_is_maximal(
    site: SpawnSite,
    target_arms: Seq<(EntityId, Arm)>,
    spawn_points: Seq<SpawnPoint>,
    blocked_segments: Seq<EntityId>,
    queue: Seq<EntityId>,
    i: int,
    used: Seq<EntityId>,
)
    ensures
        ({
            let plan = spawn_plan(site, target_arms, spawn_points, blocked_segments, queue, i, used);
            forall|k: int|
                0 <= k < plan.1.len() ==> {
                    let segment = destination_spawn_point(site, target_arms, spawn_points, #[trigger] plan.1[k]).segment;
                    ||| blocked_segments.contains(segment)
                    ||| used.contains(segment)
                    ||| exists|j: int| 0 <= j < plan.0.len() && (#[trigger] plan.0[j]).spawn_point.segment == segment
                }
        }),
    decreases queue.len() - i,
{
    if 0 <= i < queue.len() {
        let spawn_point = destination_spawn_point(site, target_arms, spawn_points, queue[i]);
        let segment = spawn_point.segment;
        let plan = spawn_plan(site, target_arms, spawn_points, blocked_segments, queue, i, used);
        if blocked_segments.contains(segment) || used.contains(segment) {
            lemma_spawn_plan_is_maximal(site, target_arms, spawn_points, blocked_segments, queue, i + 1, used);
            let rest = spawn_plan(site, target_arms, spawn_points, blocked_segments, queue, i + 1, used);
            assert forall|k: int| 0 <= k < plan.1.len() implies {
                let s = destination_spawn_point(site, target_arms, spawn_points, #[trigger] plan.1[k]).segment;
                ||| blocked_segments.contains(s)
                ||| used.contains(s)
                ||| exists|j: int| 0 <= j < plan.0.len() && (#[trigger] plan.0[j]).spawn_point.segment == s
            } by {
                assert(plan.0 == rest.0);
                if k > 0 {
                    assert(plan.1[k] == rest.1[k - 1]);
                    let s = destination_spawn_point(site, target_arms, spawn_points, rest.1[k - 1]).segment;
                    assert(blocked_segments.contains(s) || used.contains(s) || exists|j: int|
                        0 <= j < rest.0.len() && (#[trigger] rest.0[j]).spawn_point.segment == s);
                } else {
                    assert(plan.1[0] == queue[i]);
                }
            }
        } else {
            let used2 = used.push(segment);
            lemma_spawn_plan_is_maximal(site, target_arms, spawn_points, blocked_segments, queue, i + 1, used2);
            let rest = spawn_plan(site, target_arms, spawn_points, blocked_segments, queue, i + 1, used2);
            assert(plan.0[0].spawn_point.segment == segment);
            assert forall|k: int| 0 <= k < plan.1.len() implies {
                let s = destination_spawn_point(site, target_arms, spawn_points, #[trigger] plan.1[k]).segment;
                ||| blocked_segments.contains(s)
                ||| used.contains(s)
                ||| exists|j: int| 0 <= j < plan.0.len() && (#[trigger] plan.0[j]).spawn_point.segment == s
            } by {
                assert(plan.1[k] == rest.1[k]);
                let s = destination_spawn_point(site, target_arms, spawn_points, plan.1[k]).segment;
                if used2.contains(s) && !used.contains(s) {
                    assert(s == segment);
                    assert(plan.0[0].spawn_point.segment == s);
                } else if !blocked_segments.contains(s) && !used2.contains(s) {
                    let j = choose|j: int| 0 <= j < rest.0.len() && (#[trigger] rest.0[j]).spawn_point.segment == s;
                    assert(plan.0[j + 1] == rest.0[j]);
                }
            }
        }
    }
}

} // verus!
