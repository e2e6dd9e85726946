//! The routes through an assembled roundabout.

use crate::EntityId;
use crate::layout::assembly::{next_arm, plan_position, planned_segment, LayoutPlan};
use crate::layout::components::{
    arm_index_lookup, arm_index_lookup_from, keys_distinct, lemma_lookup_distinct,
    lemma_lookup_from_finds, lookup, Arm, Connection, EndPoint, Segment,
};
use crate::layout::topology::{
    ids_distinct, RoundaboutTopology, ENTRY_DEFLECTION, ENTRY_LINE, EXIT_DEFLECTION, EXIT_LINE,
    INTER_ARM_SECTOR, INTRA_ARM_SECTOR,
};
use crate::simulation::pathfinding::{route_from, route_step, RouteError, RouteStep};
use vstd::arithmetic::div_mod::{lemma_div_pos_is_pos, lemma_fundamental_div_mod, lemma_mod_pos_bound};
use vstd::prelude::*;

verus! {

/// The number of arms a vehicle passes from arm `start` to exit at arm `end`
/// (all of them, for a U-turn).
pub open spec fn hops(start: int, end: int, number_of_arms: int) -> int {
    if end > start {
        end - start
    } else {
        end + number_of_arms - start
    }
}

/// The arm `steps` arms after arm `start` around the circle (for `steps <= number_of_arms`).
pub open spec fn arm_after(start: int, steps: int, number_of_arms: int) -> int {
    if start + steps < number_of_arms {
        start + steps
    } else {
        start + steps - number_of_arms
    }
}

/// The route from the spawn point of lane `lane` of arm `start` to arm `end`: the entry
/// line and entry deflection, then the inter arm sector of each arm passed and the intra
/// arm sector of the arm after it, until the exit deflection and exit line of arm `end`.
pub open spec fn expected_route(
    topology: RoundaboutTopology,
    number_of_arms: int,
    start: int,
    lane: int,
    end: int,
) -> Seq<EntityId> {
    let h = hops(start, end, number_of_arms);
    Seq::new(
        (2 * h + 3) as nat,
        |i: int|
            if i == 0 {
                topology.lane_entity(start, lane, ENTRY_LINE())
            } else if i == 1 {
                topology.lane_entity(start, lane, ENTRY_DEFLECTION())
            } else if i == 2 * h + 1 {
                topology.lane_entity(end, lane, EXIT_DEFLECTION())
            } else if i == 2 * h + 2 {
                topology.lane_entity(end, lane, EXIT_LINE())
            } else if i % 2 == 0 {
                topology.lane_entity(
                    arm_after(start, i / 2 - 1, number_of_arms),
                    lane,
                    INTER_ARM_SECTOR(),
                )
            } else {
                topology.lane_entity(
                    arm_after(start, (i - 1) / 2, number_of_arms),
                    lane,
                    INTRA_ARM_SECTOR(),
                )
            },
    )
}

/// The topology kind of the entity of the segment of plan kind `k`.
pub(crate) open spec fn topology_kind(k: int) -> int {
    if k == 0 {
        ENTRY_DEFLECTION()
    } else if k == 1 {
        ENTRY_LINE()
    } else {
        k
    }
}

pub(crate) proof fn lemma_planned_id(
    topology: RoundaboutTopology,
    end_point_ids: Seq<EntityId>,
    number_of_arms: int,
    number_of_lanes: int,
    a: int,
    l: int,
    k: int,
)
    requires
        0 <= k < 6,
    ensures
        planned_segment(topology, end_point_ids, number_of_arms, number_of_lanes, a, l, k).0
            == topology.lane_entity(a, l, topology_kind(k)),
{
}

/// Splits a position of the plan's segments into its arm, lane and plan kind.
pub(crate) proof fn lemma_decode_position(j: int, number_of_arms: int, number_of_lanes: int) -> (t: (int, int, int))
    requires
        0 <= j < 6 * (number_of_arms * number_of_lanes),
        number_of_lanes >= 0,
    ensures
        0 <= t.0 < number_of_arms,
        0 <= t.1 < number_of_lanes,
        0 <= t.2 < 6,
        j == plan_position(number_of_lanes, t.0, t.1, t.2),
{
    lemma_fundamental_div_mod(j, 6);
    lemma_mod_pos_bound(j, 6);
    lemma_div_pos_is_pos(j, 6);
    let q = j / 6;
    let k = j % 6;
    assert(q < number_of_arms * number_of_lanes);
    assert(number_of_lanes > 0) by (nonlinear_arith)
        requires
            0 <= q < number_of_arms * number_of_lanes,
            number_of_lanes >= 0,
    ;
    lemma_fundamental_div_mod(q, number_of_lanes);
    lemma_mod_pos_bound(q, number_of_lanes);
    lemma_div_pos_is_pos(q, number_of_lanes);
    let a = q / number_of_lanes;
    let l = q % number_of_lanes;
    assert(q == a * number_of_lanes + l) by (nonlinear_arith)
        requires
            q == number_of_lanes * (q / number_of_lanes) + (q % number_of_lanes),
            a == q / number_of_lanes,
            l == q % number_of_lanes,
    ;
    assert(a < number_of_arms) by (nonlinear_arith)
        requires
            q == a * number_of_lanes + l,
            0 <= l,
            q < number_of_arms * number_of_lanes,
            number_of_lanes > 0,
    ;
    (a, l, k)
}

/// The segments of an assembled plan have distinct entities.
proof fn lemma_plan_segments_distinct(
    plan: LayoutPlan,
    end_point_ids: Seq<EntityId>,
    weights: Seq<Seq<u32>>,
    number_of_arms: int,
    number_of_lanes: int,
)
    requires
        number_of_lanes >= 0,
        plan.assembled_from(end_point_ids, weights, number_of_arms, number_of_lanes),
        plan.topology.entities_distinct(number_of_arms, number_of_lanes),
    ensures
        keys_distinct(plan.segments@),
{
    let table = plan.segments@;
    assert forall|i: int, j: int|
        0 <= i < table.len() && 0 <= j < table.len() && i != j implies table[i].0 != table[j].0 by {
        let ti = lemma_decode_position(i, number_of_arms, number_of_lanes);
        let tj = lemma_decode_position(j, number_of_arms, number_of_lanes);
        assert(table[i] == planned_segment(
            plan.topology,
            end_point_ids,
            number_of_arms,
            number_of_lanes,
            ti.0,
            ti.1,
            ti.2,
        ));
        assert(table[j] == planned_segment(
            plan.topology,
            end_point_ids,
            number_of_arms,
            number_of_lanes,
            tj.0,
            tj.1,
            tj.2,
        ));
        lemma_planned_id(plan.topology, end_point_ids, number_of_arms, number_of_lanes, ti.0, ti.1, ti.2);
        lemma_planned_id(plan.topology, end_point_ids, number_of_arms, number_of_lanes, tj.0, tj.1, tj.2);
        assert(plan.topology.lane_entity(ti.0, ti.1, topology_kind(ti.2)) != plan.topology.lane_entity(
            tj.0,
            tj.1,
            topology_kind(tj.2),
        ));
    }
}

/// Looking up the entity of a planned segment gives that segment.
pub proof fn lemma_plan_segment_lookup(
    plan: LayoutPlan,
    end_point_ids: Seq<EntityId>,
    weights: Seq<Seq<u32>>,
    number_of_arms: int,
    number_of_lanes: int,
    a: int,
    l: int,
    k: int,
)
    requires
        plan.assembled_from(end_point_ids, weights, number_of_arms, number_of_lanes),
        plan.topology.entities_distinct(number_of_arms, number_of_lanes),
        0 <= a < number_of_arms,
        0 <= l < number_of_lanes,
        0 <= k < 6,
    ensures
        lookup(
            plan.segments@,
            planned_segment(plan.topology, end_point_ids, number_of_arms, number_of_lanes, a, l, k).0,
        ) == Some(
            planned_segment(plan.topology, end_point_ids, number_of_arms, number_of_lanes, a, l, k).1,
        ),
{
    lemma_plan_segments_distinct(plan, end_point_ids, weights, number_of_arms, number_of_lanes);
    let p = plan_position(number_of_lanes, a, l, k);
    assert(0 <= p < 6 * (number_of_arms * number_of_lanes)) by (nonlinear_arith)
        requires
            0 <= a < number_of_arms,
            0 <= l < number_of_lanes,
            0 <= k < 6,
            p == 6 * (a * number_of_lanes + l) + k,
    ;
    assert(plan.segments@[p] == planned_segment(
        plan.topology,
        end_point_ids,
        number_of_arms,
        number_of_lanes,
        a,
        l,
        k,
    ));
    lemma_lookup_distinct(plan.segments@, p);
}

/// Looking up the end point of lane `l` of arm `a` gives its `EndPoint`.
proof fn lemma_plan_end_point_lookup(
    plan: LayoutPlan,
    end_point_ids: Seq<EntityId>,
    weights: Seq<Seq<u32>>,
    number_of_arms: int,
    number_of_lanes: int,
    a: int,
    l: int,
)
    requires
        plan.assembled_from(end_point_ids, weights, number_of_arms, number_of_lanes),
        ids_distinct(end_point_ids),
        end_point_ids.len() == number_of_arms * number_of_lanes,
        0 <= a < number_of_arms,
        0 <= l < number_of_lanes,
    ensures
        lookup(plan.end_points@, end_point_ids[a * number_of_lanes + l]) == Some(
            EndPoint { arm: plan.topology.arm_entity(a), lane_index: l as usize },
        ),
{
    let p = a * number_of_lanes + l;
    assert(0 <= p < number_of_arms * number_of_lanes) by (nonlinear_arith)
        requires
            0 <= a < number_of_arms,
            0 <= l < number_of_lanes,
            p == a * number_of_lanes + l,
    ;
    let table = plan.end_points@;
    assert(keys_distinct(table)) by {
        assert forall|i: int, j: int|
            0 <= i < table.len() && 0 <= j < table.len() && i != j implies table[i].0 != table[j].0 by {
            assert(table[i].0 == end_point_ids[i]);
            assert(table[j].0 == end_point_ids[j]);
        }
    }
    assert(table[p].0 == end_point_ids[p]);
    assert(plan.spawn_points@[a * number_of_lanes + l].lane_index == l as usize);
    lemma_lookup_distinct(table, p);
}

proof fn lemma_arm_index_lookup_finds(arms: Seq<(EntityId, Arm)>, id: EntityId, start: int, index: int)
    requires
        0 <= start <= index < arms.len(),
        arms[index].0 == id,
        forall|j: int| start <= j < index ==> arms[j].0 != id,
    ensures
        arm_index_lookup_from(arms, id, start) == Some(arms[index].1.index),
    decreases index - start,
{
    if start < index {
        lemma_arm_index_lookup_finds(arms, id, start + 1, index);
    }
}

/// Looking up the entity of arm `a` gives its index.
pub(crate) proof fn lemma_plan_arm_lookup(
    plan: LayoutPlan,
    end_point_ids: Seq<EntityId>,
    weights: Seq<Seq<u32>>,
    number_of_arms: int,
    number_of_lanes: int,
    a: int,
)
    requires
        plan.assembled_from(end_point_ids, weights, number_of_arms, number_of_lanes),
        plan.topology.entities_distinct(number_of_arms, number_of_lanes),
        0 <= a < number_of_arms,
    ensures
        arm_index_lookup(plan.arms@, plan.topology.arm_entity(a)) == Some(a as usize),
{
    let arms = plan.arms@;
    assert forall|j: int| 0 <= j < a implies arms[j].0 != plan.topology.arm_entity(a) by {
        assert(arms[j].0 == plan.topology.arm_entity(j));
    }
    assert(arms[a].0 == plan.topology.arm_entity(a));
    lemma_arm_index_lookup_finds(arms, plan.topology.arm_entity(a), 0, a);
}

/// Following the route steps along `route` from its prefix of length `m` gives `route`.
proof fn lemma_walk(
    arms: Seq<(EntityId, Arm)>,
    end_points: Seq<(EntityId, EndPoint)>,
    segments: Seq<(EntityId, Segment)>,
    end_arm_index: usize,
    route: Seq<EntityId>,
    m: int,
)
    requires
        1 <= m <= route.len(),
        route.len() <= segments.len(),
        forall|i: int|
            0 <= i < route.len() - 1 ==> #[trigger] route_step(
                arms,
                end_points,
                segments,
                end_arm_index,
                route[i],
            ) == RouteStep::Next(route[i + 1]),
        route_step(arms, end_points, segments, end_arm_index, route.last()) == RouteStep::Arrive,
    ensures
        route_from(arms, end_points, segments, end_arm_index, route.take(m)) == Ok::<
            Seq<EntityId>,
            RouteError,
        >(route),
    decreases route.len() - m,
{
    let prefix = route.take(m);
    assert(prefix.last() == route[m - 1]);
    if m == route.len() {
        assert(prefix =~= route);
    } else {
        assert(route_step(arms, end_points, segments, end_arm_index, route[m - 1]) == RouteStep::Next(
            route[m],
        ));
        assert(prefix.push(route[m]) =~= route.take(m + 1));
        lemma_walk(arms, end_points, segments, end_arm_index, route, m + 1);
    }
}

proof fn lemma_arm_after_facts(start: int, end: int, number_of_arms: int, j: int)
    requires
        0 <= start < number_of_arms,
        0 <= end < number_of_arms,
        0 <= j < hops(start, end, number_of_arms),
    ensures
        0 <= arm_after(start, j, number_of_arms) < number_of_arms,
        0 <= arm_after(start, j + 1, number_of_arms) < number_of_arms,
        next_arm(arm_after(start, j, number_of_arms), number_of_arms) == arm_after(
            start,
            j + 1,
            number_of_arms,
        ),
        (arm_after(start, j + 1, number_of_arms) == end) == (j + 1 == hops(
            start,
            end,
            number_of_arms,
        )),
{
}

/// Every lane of every arm of an assembled roundabout leads to every arm: the route
/// from the lane's spawn point to any arm is found, and it is the expected route
/// (entry line, entry deflection, around the circle, exit deflection, exit line),
/// staying in the lane it started in.
pub proof fn lemma_assembled_route(
    plan: LayoutPlan,
    end_point_ids: Seq<EntityId>,
    weights: Seq<Seq<u32>>,
    number_of_arms: int,
    number_of_lanes: int,
    start: int,
    lane: int,
    end: int,
)
    requires
        plan.assembled_from(end_point_ids, weights, number_of_arms, number_of_lanes),
        plan.topology.entities_distinct(number_of_arms, number_of_lanes),
        ids_distinct(end_point_ids),
        end_point_ids.len() == number_of_arms * number_of_lanes,
        0 <= start < number_of_arms,
        0 <= lane < number_of_lanes,
        0 <= end < number_of_arms,
        number_of_arms <= usize::MAX,
    ensures
        plan.spawn_points@[start * number_of_lanes + lane].segment == plan.topology.lane_entity(
            start,
            lane,
            ENTRY_LINE(),
        ),
        route_from(
            plan.arms@,
            plan.end_points@,
            plan.segments@,
            end as usize,
            seq![plan.spawn_points@[start * number_of_lanes + lane].segment],
        ) == Ok::<Seq<EntityId>, RouteError>(
            expected_route(plan.topology, number_of_arms, start, lane, end),
        ),
{
    let topology = plan.topology;
    let route = expected_route(topology, number_of_arms, start, lane, end);
    let h = hops(start, end, number_of_arms);
    let arms = plan.arms@;
    let end_points = plan.end_points@;
    let segments = plan.segments@;
    let e = end as usize;
    assert(2 * h + 3 <= 6 * (number_of_arms * number_of_lanes)) by (nonlinear_arith)
        requires
            1 <= h <= number_of_arms,
            0 <= lane < number_of_lanes,
    ;
    assert forall|i: int|
        0 <= i < route.len() - 1 implies #[trigger] route_step(
        arms,
        end_points,
        segments,
        e,
        route[i],
    ) == RouteStep::Next(route[i + 1]) by {
        if i == 0 {
            lemma_plan_segment_lookup(plan, end_point_ids, weights, number_of_arms, number_of_lanes, start, lane, 1);
        } else if i == 1 {
            lemma_plan_segment_lookup(plan, end_point_ids, weights, number_of_arms, number_of_lanes, start, lane, 0);
            lemma_arm_after_facts(start, end, number_of_arms, 0);
        } else if i == 2 * h + 1 {
            lemma_plan_segment_lookup(plan, end_point_ids, weights, number_of_arms, number_of_lanes, end, lane, 3);
        } else if i % 2 == 0 {
            let j = i / 2 - 1;
            lemma_arm_after_facts(start, end, number_of_arms, j);
            let b = arm_after(start, j, number_of_arms);
            lemma_plan_segment_lookup(plan, end_point_ids, weights, number_of_arms, number_of_lanes, b, lane, 5);
        } else {
            let j = (i - 1) / 2;
            lemma_arm_after_facts(start, end, number_of_arms, j - 1);
            let b = arm_after(start, j, number_of_arms);
            lemma_plan_segment_lookup(plan, end_point_ids, weights, number_of_arms, number_of_lanes, b, lane, 4);
        }
    }
    lemma_plan_segment_lookup(plan, end_point_ids, weights, number_of_arms, number_of_lanes, end, lane, 2);
    lemma_plan_end_point_lookup(plan, end_point_ids, weights, number_of_arms, number_of_lanes, end, lane);
    lemma_plan_arm_lookup(plan, end_point_ids, weights, number_of_arms, number_of_lanes, end);
    assert(route.last() == topology.lane_entity(end, lane, EXIT_LINE()));
    assert(route_step(arms, end_points, segments, e, route.last()) == RouteStep::Arrive);
    lemma_walk(arms, end_points, segments, e, route, 1);
    assert(route.take(1) =~= seq![plan.spawn_points@[start * number_of_lanes + lane].segment]);
}

/// For a roundabout assembled from distinct entities, the route from every spawn point
/// to every arm is found and is the expected route: every entry reaches every exit,
/// U-turns included.
pub proof fn lemma_assembled_roundabout_routes(
    plan: LayoutPlan,
    entity_ids: Seq<EntityId>,
    end_point_ids: Seq<EntityId>,
    weights: Seq<Seq<u32>>,
    number_of_arms: int,
    number_of_lanes: int,
    start: int,
    lane: int,
    end: int,
)
    requires
        plan.topology.built_from(entity_ids, number_of_arms, number_of_lanes),
        entity_ids.len() == crate::layout::topology::required_entity_count(number_of_arms, number_of_lanes),
        ids_distinct(entity_ids),
        plan.assembled_from(end_point_ids, weights, number_of_arms, number_of_lanes),
        ids_distinct(end_point_ids),
        end_point_ids.len() == number_of_arms * number_of_lanes,
        0 <= start < number_of_arms,
        0 <= lane < number_of_lanes,
        0 <= end < number_of_arms,
        number_of_arms <= usize::MAX,
    ensures
        route_from(
            plan.arms@,
            plan.end_points@,
            plan.segments@,
            end as usize,
            seq![plan.spawn_points@[start * number_of_lanes + lane].segment],
        ) == Ok::<Seq<EntityId>, RouteError>(
            expected_route(plan.topology, number_of_arms, start, lane, end),
        ),
{
    crate::layout::topology::lemma_built_from_distinct(plan.topology, entity_ids, number_of_arms, number_of_lanes);
    lemma_assembled_route(plan, end_point_ids, weights, number_of_arms, number_of_lanes, start, lane, end);
}

} // verus!
