//! What holds of every assembled layout: the search for conflict points, the yield
//! points and the placing of queued vehicles find in it all that they need.

use crate::EntityId;
use crate::layout::assembly::{plan_position, planned_segment, LayoutPlan};
use crate::layout::components::{arm_index_lookup_from, Arm, Segment, SegmentType};
use crate::layout::conflict_points::{
    conflict_inputs_valid, entry_deflection_valid, has_intra_arm_sector, ConflictPointIndex,
};
use crate::layout::routes::{
    expected_route, lemma_assembled_route, lemma_decode_position, lemma_plan_arm_lookup, lemma_plan_segment_lookup,
    lemma_planned_id,
};
use crate::layout::topology::{
    ids_distinct, lemma_built_from_distinct, required_entity_count, ENTRY_DEFLECTION, ENTRY_LINE,
};
use crate::layout::yield_points::{yield_candidates_from, YieldCandidate, YieldPointIndex};
use crate::simulation::pathfinding::{
    exit_rank, lane_selection_defined, round_ratio, route_from, spec_select_lane_index, RouteError,
};
use crate::simulation::spawning::{
    destination_lane, destinations, find_spawn_point, find_spawn_point_from, is_weighted_destination,
    lemma_spawn_plan_conserves, lemma_spawn_plan_segments, spawn_inputs_valid, spawn_plan, SpawnSite,
};
use crate::layout::components::{arm_index_lookup, keys_distinct, lookup, Connection, SpawnPoint};
use crate::simulation::kinematics::previous_arm;
use vstd::arithmetic::div_mod::{
    lemma_div_pos_is_pos, lemma_fundamental_div_mod, lemma_fundamental_div_mod_converse, lemma_mod_pos_bound,
};
use vstd::prelude::*;

verus! {

/// Looking up an entity that `arms` holds at or after `start` finds an arm, whose
/// index is below any bound on the indices of all arms.
proof fn lemma_arm_lookup_some(arms: Seq<(EntityId, Arm)>, id: EntityId, start: int, index: int, bound: int)
    requires
        0 <= start <= index < arms.len(),
        arms[index].0 == id,
        forall|j: int| 0 <= j < arms.len() ==> #[trigger] arms[j].1.index < bound,
    ensures
        arm_index_lookup_from(arms, id, start) matches Some(found) && found < bound,
    decreases index - start,
{
    if arms[start].0 != id {
        lemma_arm_lookup_some(arms, id, start + 1, index, bound);
    }
}

/// Every entry deflection of an assembled roundabout lies on one of its arms, and that
/// arm has an intra arm sector: the conflict points of every assembled roundabout can be
/// searched for.
pub proof fn lemma_assembled_conflict_inputs_valid(
    plan: LayoutPlan,
    end_point_ids: Seq<EntityId>,
    weights: Seq<Seq<u32>>,
    number_of_arms: int,
    number_of_lanes: int,
)
    requires
        number_of_lanes >= 0,
        plan.assembled_from(end_point_ids, weights, number_of_arms, number_of_lanes),
    ensures
        conflict_inputs_valid(plan.arms@, plan.segments@),
{
    let arms = plan.arms@;
    let segments = plan.segments@;
    assert forall|i: int| 0 <= i < segments.len() implies #[trigger] entry_deflection_valid(
        arms,
        segments,
        i,
    ) by {
        let (a, l, k) = lemma_decode_position(i, number_of_arms, number_of_lanes);
        assert(segments[i] == planned_segment(
            plan.topology,
            end_point_ids,
            number_of_arms,
            number_of_lanes,
            a,
            l,
            k,
        ));
        if segments[i].1.segment_type == SegmentType::EntryDeflection {
            let arm_id = plan.topology.arm_entity(a);
            assert(arms[a].0 == arm_id);
            assert forall|j: int| 0 <= j < arms.len() implies #[trigger] arms[j].1.index < number_of_arms by {
                assert(arms[j].1.index == j);
            }
            lemma_arm_lookup_some(arms, arm_id, 0, a, number_of_arms);
            let sector = plan_position(number_of_lanes, a, l, 4);
            assert(0 <= sector < 6 * (number_of_arms * number_of_lanes)) by (nonlinear_arith)
                requires
                    0 <= a < number_of_arms,
                    0 <= l < number_of_lanes,
                    sector == 6 * (a * number_of_lanes + l) + 4,
            ;
            assert(segments[sector] == planned_segment(
                plan.topology,
                end_point_ids,
                number_of_arms,
                number_of_lanes,
                a,
                l,
                4,
            ));
            reveal(has_intra_arm_sector);
            assert(segments[sector].1.segment_type == SegmentType::IntraArmSector && segments[sector].1.arm_id
                == arm_id);
        }
    }
}

/// The yield candidate of an entry deflection.
pub open spec fn yield_candidate_of(id: EntityId, segment: Segment, number_of_lanes: int) -> YieldCandidate {
    YieldCandidate {
        entry_deflection_id: id,
        index: YieldPointIndex { arm_index: segment.arm_index, lane_index: segment.lane_index },
        conflict_point_index: ConflictPointIndex {
            arm_index: segment.arm_index,
            entry_lane_index: segment.lane_index,
            circulating_lane_index: (number_of_lanes - 1) as usize,
        },
    }
}

/// Every entry deflection at position `i` that merges onto the circle, with a lane not
/// outside the outermost circulating lane, gets its yield candidate among the candidates
/// from every position up to `i`.
pub proof fn lemma_yield_candidate_found(segments: Seq<(EntityId, Segment)>, number_of_lanes: int, start: int, i: int)
    requires
        0 <= start <= i < segments.len(),
        segments[i].1.segment_type == SegmentType::EntryDeflection,
        segments[i].1.connection is Merge,
        segments[i].1.lane_index <= number_of_lanes - 1,
    ensures
        yield_candidates_from(segments, number_of_lanes, start).contains(
            yield_candidate_of(segments[i].0, segments[i].1, number_of_lanes),
        ),
    decreases i - start,
{
    let candidate = yield_candidate_of(segments[i].0, segments[i].1, number_of_lanes);
    let candidates = yield_candidates_from(segments, number_of_lanes, start);
    if start == i {
        assert(candidates[0] == candidate);
    } else {
        lemma_yield_candidate_found(segments, number_of_lanes, start + 1, i);
        let rest = yield_candidates_from(segments, number_of_lanes, start + 1);
        let k = choose|k: int| 0 <= k < rest.len() && rest[k] == candidate;
        if candidates.len() == rest.len() + 1 {
            assert(candidates[k + 1] == candidate);
        } else {
            assert(candidates[k] == candidate);
        }
    }
}

/// Every entry lane of an assembled roundabout gets a yield point, before the conflict
/// point of its entry with the outermost circulating lane.
pub proof fn lemma_assembled_yield_points(
    plan: LayoutPlan,
    end_point_ids: Seq<EntityId>,
    weights: Seq<Seq<u32>>,
    number_of_arms: int,
    number_of_lanes: int,
    a: int,
    l: int,
)
    requires
        plan.assembled_from(end_point_ids, weights, number_of_arms, number_of_lanes),
        0 <= a < number_of_arms,
        0 <= l < number_of_lanes,
    ensures
        yield_candidates_from(plan.segments@, number_of_lanes, 0).contains(
            YieldCandidate {
                entry_deflection_id: plan.topology.lane_entity(a, l, ENTRY_DEFLECTION()),
                index: YieldPointIndex { arm_index: a as usize, lane_index: l as usize },
                conflict_point_index: ConflictPointIndex {
                    arm_index: a as usize,
                    entry_lane_index: l as usize,
                    circulating_lane_index: (number_of_lanes - 1) as usize,
                },
            },
        ),
{
    let p = plan_position(number_of_lanes, a, l, 0);
    assert(0 <= p < 6 * (number_of_arms * number_of_lanes)) by (nonlinear_arith)
        requires
            0 <= a < number_of_arms,
            0 <= l < number_of_lanes,
            p == 6 * (a * number_of_lanes + l),
    ;
    assert(plan.segments@[p] == planned_segment(
        plan.topology,
        end_point_ids,
        number_of_arms,
        number_of_lanes,
        a,
        l,
        0,
    ));
    lemma_yield_candidate_found(plan.segments@, number_of_lanes, 0, p);
}

/// The lane selected for a vehicle entering at an arm of a roundabout is one of its lanes.
proof fn lemma_selected_lane_in_range(entry: int, exit: int, number_of_arms: int, number_of_lanes: int)
    requires
        number_of_lanes >= 1,
        number_of_lanes > 1 ==> number_of_arms >= 2,
        0 <= entry < number_of_arms,
        0 <= exit,
    ensures
        0 <= spec_select_lane_index(entry, exit, number_of_arms, number_of_lanes) < number_of_lanes,
{
    if number_of_lanes > 1 {
        let max_rank = number_of_arms - 1;
        let exit_r = exit_rank(entry, exit, number_of_arms);
        lemma_mod_pos_bound(exit + number_of_arms - entry, number_of_arms);
        let rank = if exit_r == 0 || exit_r > max_rank {
            max_rank
        } else {
            exit_r
        };
        if max_rank - 1 != 0 {
            let d = (max_rank - 1) * (max_rank - 1);
            let n = (rank - 1) * (rank - 1) * (number_of_lanes - 1);
            assert(0 <= n <= d * (number_of_lanes - 1) && d > 0) by (nonlinear_arith)
                requires
                    1 <= rank <= max_rank,
                    max_rank >= 2,
                    number_of_lanes >= 1,
                    n == (rank - 1) * (rank - 1) * (number_of_lanes - 1),
                    d == (max_rank - 1) * (max_rank - 1),
            ;
            assert(0 <= round_ratio(n, d) <= number_of_lanes - 1) by (nonlinear_arith)
                requires
                    0 <= n <= d * (number_of_lanes - 1),
                    d > 0,
            ;
        }
    }
}

/// Searching from `start` finds a spawn point of the arm and lane where one lies at or after it.
proof fn lemma_spawn_point_found(spawn_points: Seq<SpawnPoint>, arm: EntityId, lane_index: int, start: int, index: int)
    requires
        0 <= start <= index < spawn_points.len(),
        spawn_points[index].arm == arm,
        spawn_points[index].lane_index == lane_index,
    ensures
        find_spawn_point_from(spawn_points, arm, lane_index, start) is Some,
    decreases index - start,
{
    if !(spawn_points[start].arm == arm && spawn_points[start].lane_index == lane_index) {
        lemma_spawn_point_found(spawn_points, arm, lane_index, start + 1, index);
    }
}

/// Vehicles queued at an arm of an assembled roundabout, each to a destination drawn
/// from that arm's destination weights, can all be placed: every destination is an arm
/// of the roundabout, the lane for it can be selected, and that lane has a spawn point
/// on the arm.
pub proof fn lemma_assembled_spawn_inputs_valid(
    plan: LayoutPlan,
    end_point_ids: Seq<EntityId>,
    weights: Seq<Seq<u32>>,
    number_of_arms: int,
    number_of_lanes: int,
    site: SpawnSite,
    queue: Seq<EntityId>,
)
    requires
        plan.assembled_from(end_point_ids, weights, number_of_arms, number_of_lanes),
        number_of_lanes >= 1,
        number_of_lanes > 1 ==> number_of_arms >= 2,
        0 <= site.arm_index < number_of_arms,
        site.arm_id == plan.topology.arm_entity(site.arm_index as int),
        site.number_of_arms == number_of_arms,
        site.number_of_lanes == number_of_lanes,
        weights[site.arm_index as int].len() <= number_of_arms,
        forall|i: int|
            0 <= i < queue.len() ==> is_weighted_destination(
                plan.arms@[site.arm_index as int].1.destination_weights@,
                #[trigger] queue[i],
            ),
    ensures
        spawn_inputs_valid(site, plan.arms@, plan.spawn_points@, queue),
{
    let arms = plan.arms@;
    let spawn_points = plan.spawn_points@;
    let s = site.arm_index as int;
    assert forall|j: int| 0 <= j < arms.len() implies #[trigger] arms[j].1.index < number_of_arms by {
        assert(arms[j].1.index == j);
    }
    assert(plan.segments@.len() == plan.segments.len());
    assert(2 * number_of_arms <= usize::MAX + 1) by (nonlinear_arith)
        requires
            6 * (number_of_arms * number_of_lanes) <= usize::MAX,
            number_of_lanes >= 1,
            number_of_arms >= 1,
    ;
    assert forall|i: int| 0 <= i < queue.len() implies {
        &&& arm_index_lookup(arms, #[trigger] queue[i]) is Some
        &&& lane_selection_defined(
            site.arm_index as int,
            arm_index_lookup(arms, queue[i])->Some_0 as int,
            site.number_of_arms as int,
            site.number_of_lanes as int,
        )
        &&& find_spawn_point(spawn_points, site.arm_id, destination_lane(site, arms, queue[i])) is Some
    } by {
        let destination = queue[i];
        let destination_weights = arms[s].1.destination_weights@;
        assert(is_weighted_destination(destination_weights, destination));
        let j = choose|j: int|
            0 <= j < destination_weights.len() && destination_weights[j].0 == destination
                && destination_weights[j].1 > 0;
        assert(arms[j].0 == destination);
        lemma_arm_lookup_some(arms, destination, 0, j, number_of_arms);
        let exit = arm_index_lookup(arms, destination)->Some_0 as int;
        lemma_selected_lane_in_range(s, exit, number_of_arms, number_of_lanes);
        let lane = destination_lane(site, arms, destination);
        let p = s * number_of_lanes + lane;
        assert(0 <= p < number_of_arms * number_of_lanes) by (nonlinear_arith)
            requires
                0 <= s < number_of_arms,
                0 <= lane < number_of_lanes,
                p == s * number_of_lanes + lane,
        ;
        assert(spawn_points[p].arm == site.arm_id && spawn_points[p].lane_index == lane);
        lemma_spawn_point_found(spawn_points, site.arm_id, lane, 0, p);
    }
}

/// Searching from `start` finds the spawn point at `index` where it is of the arm and
/// lane and none between them is.
proof fn lemma_spawn_point_first(spawn_points: Seq<SpawnPoint>, arm: EntityId, lane_index: int, start: int, index: int)
    requires
        0 <= start <= index < spawn_points.len(),
        spawn_points[index].arm == arm,
        spawn_points[index].lane_index == lane_index,
        forall|j: int|
            start <= j < index ==> !(spawn_points[j].arm == arm && spawn_points[j].lane_index == lane_index),
    ensures
        find_spawn_point_from(spawn_points, arm, lane_index, start) == Some(spawn_points[index]),
    decreases index - start,
{
    if start < index {
        lemma_spawn_point_first(spawn_points, arm, lane_index, start + 1, index);
    }
}

/// In a roundabout assembled from distinct entities, the spawn point of arm `a` and lane
/// `l` is the one at position `a * number_of_lanes + l`.
proof fn lemma_plan_spawn_point_lookup(
    plan: LayoutPlan,
    end_point_ids: Seq<EntityId>,
    weights: Seq<Seq<u32>>,
    number_of_arms: int,
    number_of_lanes: int,
    a: int,
    l: int,
)
    requires
        plan.assembled_from(end_point_ids, weights, number_of_arms, number_of_lanes),
        plan.topology.entities_distinct(number_of_arms, number_of_lanes),
        0 <= a < number_of_arms,
        0 <= l < number_of_lanes <= usize::MAX,
    ensures
        0 <= a * number_of_lanes + l < number_of_arms * number_of_lanes,
        find_spawn_point(plan.spawn_points@, plan.topology.arm_entity(a), l) == Some(
            plan.spawn_points@[a * number_of_lanes + l],
        ),
{
    let spawn_points = plan.spawn_points@;
    let p = a * number_of_lanes + l;
    assert(0 <= p < number_of_arms * number_of_lanes) by (nonlinear_arith)
        requires
            0 <= a < number_of_arms,
            0 <= l < number_of_lanes,
            p == a * number_of_lanes + l,
    ;
    assert forall|j: int| 0 <= j < p implies !(spawn_points[j].arm == plan.topology.arm_entity(a)
        && spawn_points[j].lane_index == l) by {
        lemma_fundamental_div_mod(j, number_of_lanes);
        lemma_mod_pos_bound(j, number_of_lanes);
        lemma_div_pos_is_pos(j, number_of_lanes);
        let aj = j / number_of_lanes;
        let lj = j % number_of_lanes;
        assert(j == aj * number_of_lanes + lj) by (nonlinear_arith)
            requires
                j == number_of_lanes * (j / number_of_lanes) + (j % number_of_lanes),
                aj == j / number_of_lanes,
                lj == j % number_of_lanes,
        ;
        assert(aj <= a) by (nonlinear_arith)
            requires
                j == aj * number_of_lanes + lj,
                p == a * number_of_lanes + l,
                j < p,
                0 <= lj < number_of_lanes,
                0 <= l < number_of_lanes,
        ;
        if aj == a {
            assert(lj != l);
        } else {
            assert(plan.topology.arm_entity(aj) != plan.topology.arm_entity(a));
        }
        assert(spawn_points[aj * number_of_lanes + lj].arm == plan.topology.arm_entity(aj));
        assert(spawn_points[aj * number_of_lanes + lj].lane_index == lj as usize);
    }
    assert(spawn_points[p].arm == plan.topology.arm_entity(a));
    lemma_spawn_point_first(spawn_points, plan.topology.arm_entity(a), l, 0, p);
}

/// Every vehicle that spawns at an arm of a roundabout assembled from distinct entities,
/// queued to a destination drawn from that arm's destination weights, spawns on that arm
/// and has a route to its destination: the expected route from its lane's entry line,
/// around the circle in that lane, to the destination arm's exit line.
pub proof fn lemma_spawned_vehicles_have_routes(
    plan: LayoutPlan,
    entity_ids: Seq<EntityId>,
    end_point_ids: Seq<EntityId>,
    weights: Seq<Seq<u32>>,
    number_of_arms: int,
    number_of_lanes: int,
    site: SpawnSite,
    blocked_segments: Seq<EntityId>,
    queue: Seq<EntityId>,
)
    requires
        plan.topology.built_from(entity_ids, number_of_arms, number_of_lanes),
        entity_ids.len() == required_entity_count(number_of_arms, number_of_lanes),
        ids_distinct(entity_ids),
        plan.assembled_from(end_point_ids, weights, number_of_arms, number_of_lanes),
        ids_distinct(end_point_ids),
        end_point_ids.len() == number_of_arms * number_of_lanes,
        number_of_lanes >= 1,
        number_of_lanes > 1 ==> number_of_arms >= 2,
        0 <= site.arm_index < number_of_arms,
        site.arm_id == plan.topology.arm_entity(site.arm_index as int),
        site.number_of_arms == number_of_arms,
        site.number_of_lanes == number_of_lanes,
        weights[site.arm_index as int].len() <= number_of_arms,
        forall|i: int|
            0 <= i < queue.len() ==> is_weighted_destination(
                plan.arms@[site.arm_index as int].1.destination_weights@,
                #[trigger] queue[i],
            ),
    ensures
        ({
            let spawns = spawn_plan(site, plan.arms@, plan.spawn_points@, blocked_segments, queue, 0, Seq::empty()).0;
            forall|j: int|
                0 <= j < spawns.len() ==> {
                    &&& arm_index_lookup(plan.arms@, (#[trigger] spawns[j]).destination) matches Some(end)
                    &&& spawns[j].spawn_point.arm == site.arm_id
                    &&& route_from(
                        plan.arms@,
                        plan.end_points@,
                        plan.segments@,
                        end,
                        seq![spawns[j].spawn_point.segment],
                    ) == Ok::<Seq<EntityId>, RouteError>(
                        expected_route(
                            plan.topology,
                            number_of_arms,
                            site.arm_index as int,
                            spawns[j].spawn_point.lane_index as int,
                            end as int,
                        ),
                    )
                }
        }),
{
    let arms = plan.arms@;
    let spawn_points = plan.spawn_points@;
    let s = site.arm_index as int;
    let empty = Seq::<EntityId>::empty();
    let spawns = spawn_plan(site, arms, spawn_points, blocked_segments, queue, 0, empty).0;
    let stay = spawn_plan(site, arms, spawn_points, blocked_segments, queue, 0, empty).1;
    lemma_built_from_distinct(plan.topology, entity_ids, number_of_arms, number_of_lanes);
    lemma_spawn_plan_conserves(site, arms, spawn_points, blocked_segments, queue, 0, empty);
    lemma_spawn_plan_segments(site, arms, spawn_points, blocked_segments, queue, 0, empty);
    assert(queue.skip(0) =~= queue);
    assert(plan.segments@.len() == plan.segments.len());
    assert(number_of_arms <= usize::MAX) by (nonlinear_arith)
        requires
            6 * (number_of_arms * number_of_lanes) <= usize::MAX,
            number_of_lanes >= 1,
    ;
    assert forall|j: int| 0 <= j < spawns.len() implies {
        &&& arm_index_lookup(arms, (#[trigger] spawns[j]).destination) matches Some(end)
        &&& spawns[j].spawn_point.arm == site.arm_id
        &&& route_from(arms, plan.end_points@, plan.segments@, end, seq![spawns[j].spawn_point.segment])
            == Ok::<Seq<EntityId>, RouteError>(
            expected_route(
                plan.topology,
                number_of_arms,
                s,
                spawns[j].spawn_point.lane_index as int,
                end as int,
            ),
        )
    } by {
        broadcast use vstd::seq_lib::group_to_multiset_ensures;

        let destination = spawns[j].destination;
        let spawned = destinations(spawns);
        assert(spawned[j] == destination);
        assert(spawned.contains(destination));
        assert(spawned.to_multiset().count(destination) > 0);
        assert(queue.to_multiset().count(destination) > 0);
        assert(queue.contains(destination));
        let i = choose|i: int| 0 <= i < queue.len() && queue[i] == destination;
        let destination_weights = arms[s].1.destination_weights@;
        assert(is_weighted_destination(destination_weights, queue[i]));
        let t = choose|t: int|
            0 <= t < destination_weights.len() && destination_weights[t].0 == destination
                && destination_weights[t].1 > 0;
        assert(destination == plan.topology.arm_entity(t));
        lemma_plan_arm_lookup(plan, end_point_ids, weights, number_of_arms, number_of_lanes, t);
        lemma_selected_lane_in_range(s, t, number_of_arms, number_of_lanes);
        let lane = destination_lane(site, arms, destination);
        lemma_plan_spawn_point_lookup(plan, end_point_ids, weights, number_of_arms, number_of_lanes, s, lane);
        assert(spawns[j].spawn_point == spawn_points[s * number_of_lanes + lane]);
        lemma_assembled_route(plan, end_point_ids, weights, number_of_arms, number_of_lanes, s, lane, t);
    }
}

/// The destination weights of every arm of a roundabout assembled from distinct
/// entities name each destination arm at most once, as a map of destinations would.
pub proof fn lemma_assembled_destinations_distinct(
    plan: LayoutPlan,
    end_point_ids: Seq<EntityId>,
    weights: Seq<Seq<u32>>,
    number_of_arms: int,
    number_of_lanes: int,
    a: int,
)
    requires
        plan.assembled_from(end_point_ids, weights, number_of_arms, number_of_lanes),
        plan.topology.entities_distinct(number_of_arms, number_of_lanes),
        0 <= a < number_of_arms,
        weights[a].len() <= number_of_arms,
    ensures
        keys_distinct(plan.arms@[a].1.destination_weights@),
{
    let destination_weights = plan.arms@[a].1.destination_weights@;
    assert forall|i: int, j: int|
        0 <= i < destination_weights.len() && 0 <= j < destination_weights.len() && i != j
            implies destination_weights[i].0 != destination_weights[j].0 by {
        assert(destination_weights[i].0 == plan.topology.arm_entity(i));
        assert(destination_weights[j].0 == plan.topology.arm_entity(j));
    }
}

/// Every segment that the assembly makes for lane `l` of arm `a` (its entry line, entry
/// deflection, exit line, exit deflection, intra and inter arm sector, as topology kinds
/// `0..6`) lies on arm `a`: looking up its entity finds a segment whose arm index is `a`,
/// whose arm entity is arm `a`'s entity and whose lane is `l`.
pub proof fn lemma_assembled_segments_on_their_arm(
    plan: LayoutPlan,
    end_point_ids: Seq<EntityId>,
    weights: Seq<Seq<u32>>,
    number_of_arms: int,
    number_of_lanes: int,
    a: int,
    l: int,
    kind: int,
)
    requires
        plan.assembled_from(end_point_ids, weights, number_of_arms, number_of_lanes),
        plan.topology.entities_distinct(number_of_arms, number_of_lanes),
        0 <= a < number_of_arms,
        0 <= l < number_of_lanes,
        0 <= kind < 6,
    ensures
        lookup(plan.segments@, plan.topology.lane_entity(a, l, kind)) matches Some(segment) && segment.arm_index
            == a && segment.arm_id == plan.topology.arm_entity(a) && segment.lane_index == l,
{
    assert(plan.segments@.len() == plan.segments.len());
    assert(number_of_arms * number_of_lanes <= usize::MAX) by (nonlinear_arith)
        requires
            6 * (number_of_arms * number_of_lanes) <= usize::MAX,
            number_of_lanes >= 1,
    ;
    assert(a <= usize::MAX && l <= usize::MAX) by (nonlinear_arith)
        requires
            number_of_arms * number_of_lanes <= usize::MAX,
            0 <= a < number_of_arms,
            0 <= l < number_of_lanes,
    ;
    let k = if kind == ENTRY_LINE() {
        1
    } else if kind == ENTRY_DEFLECTION() {
        0
    } else {
        kind
    };
    lemma_planned_id(plan.topology, end_point_ids, number_of_arms, number_of_lanes, a, l, k);
    lemma_plan_segment_lookup(plan, end_point_ids, weights, number_of_arms, number_of_lanes, a, l, k);
}

/// The inter arm sectors of an assembled roundabout lead, in the same lane, into the
/// intra arm sectors of the next arm around the circle: the inter arm sectors whose arm
/// index is the arm before arm `e` are the ones that lead into arm `e`'s intra arm sectors.
pub proof fn lemma_assembled_inter_sectors_lead_to_next_arm(
    plan: LayoutPlan,
    end_point_ids: Seq<EntityId>,
    weights: Seq<Seq<u32>>,
    number_of_arms: int,
    number_of_lanes: int,
    i: int,
)
    requires
        plan.assembled_from(end_point_ids, weights, number_of_arms, number_of_lanes),
        plan.topology.entities_distinct(number_of_arms, number_of_lanes),
        number_of_lanes >= 0,
        0 <= i < plan.segments@.len(),
        plan.segments@[i].1.segment_type == SegmentType::InterArmSector,
    ensures
        plan.segments@[i].1.connection matches Connection::Diverge { circulating_segment_id, .. } && lookup(
            plan.segments@,
            circulating_segment_id,
        ) matches Some(next) && next.segment_type == SegmentType::IntraArmSector && next.lane_index
            == plan.segments@[i].1.lane_index && previous_arm(next.arm_index as int, number_of_arms)
            == plan.segments@[i].1.arm_index,
{
    assert(plan.segments@.len() == plan.segments.len());
    assert(number_of_lanes >= 1 && number_of_arms * number_of_lanes <= usize::MAX) by (nonlinear_arith)
        requires
            0 <= i < 6 * (number_of_arms * number_of_lanes),
            6 * (number_of_arms * number_of_lanes) <= usize::MAX,
            number_of_lanes >= 0,
    ;
    let (a, l, k) = lemma_decode_position(i, number_of_arms, number_of_lanes);
    assert(plan.segments@[i] == planned_segment(
        plan.topology,
        end_point_ids,
        number_of_arms,
        number_of_lanes,
        a,
        l,
        k,
    ));
    let next = if a + 1 == number_of_arms {
        0
    } else {
        a + 1
    };
    assert(a <= usize::MAX && l <= usize::MAX && next <= usize::MAX) by (nonlinear_arith)
        requires
            number_of_arms * number_of_lanes <= usize::MAX,
            0 <= a < number_of_arms,
            0 <= l < number_of_lanes,
            0 <= next < number_of_arms,
    ;
    lemma_planned_id(plan.topology, end_point_ids, number_of_arms, number_of_lanes, next, l, 4);
    lemma_plan_segment_lookup(plan, end_point_ids, weights, number_of_arms, number_of_lanes, next, l, 4);
    if next == 0 {
        lemma_fundamental_div_mod_converse(number_of_arms - 1, number_of_arms, 0, number_of_arms - 1);
    } else {
        lemma_fundamental_div_mod_converse(a + number_of_arms, number_of_arms, 1, a);
    }
}

/// The yield candidates from position `start` on are made only by entry deflections at or
/// after `start` that merge onto the circle and whose lane is not outside the outermost
/// circulating lane: each has the yield point index of the deflection's arm and lane and
/// the conflict point index of that entry with the outermost circulating lane.
pub proof fn lemma_yield_candidates_sound(segments: Seq<(EntityId, Segment)>, number_of_lanes: int, start: int)
    requires
        0 <= start,
    ensures
        forall|c: YieldCandidate|
            #[trigger] yield_candidates_from(segments, number_of_lanes, start).contains(c) ==> exists|n: int|
                start <= n < segments.len() && (#[trigger] segments[n]).1.segment_type
                    == SegmentType::EntryDeflection && segments[n].1.connection is Merge
                    && segments[n].1.lane_index <= number_of_lanes - 1 && c == yield_candidate_of(
                    segments[n].0,
                    segments[n].1,
                    number_of_lanes,
                ),
    decreases segments.len() - start,
{
    if start < segments.len() {
        lemma_yield_candidates_sound(segments, number_of_lanes, start + 1);
        let all = yield_candidates_from(segments, number_of_lanes, start);
        let rest = yield_candidates_from(segments, number_of_lanes, start + 1);
        let segment = segments[start].1;
        let holds = segment.segment_type == SegmentType::EntryDeflection && segment.connection is Merge
            && segment.lane_index <= number_of_lanes - 1;
        assert forall|c: YieldCandidate| #[trigger] all.contains(c) implies exists|n: int|
            start <= n < segments.len() && (#[trigger] segments[n]).1.segment_type
                == SegmentType::EntryDeflection && segments[n].1.connection is Merge
                && segments[n].1.lane_index <= number_of_lanes - 1 && c == yield_candidate_of(
                segments[n].0,
                segments[n].1,
                number_of_lanes,
            ) by {
            let k = choose|k: int| 0 <= k < all.len() && all[k] == c;
            if holds && k == 0 {
                assert(segments[start] == segments[start]);
            } else {
                let r = if holds { k - 1 } else { k };
                assert(all[k] == rest[r]);
                assert(rest.contains(c));
            }
        }
    } else {
        assert(yield_candidates_from(segments, number_of_lanes, start) =~= Seq::<YieldCandidate>::empty());
    }
}

} // verus!
