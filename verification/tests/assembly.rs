use roundabout_simulation::blueprint::arrange_arms;
use roundabout_simulation::layout::assembly::{assemble_roundabout, destination_weights_for, LayoutPlan};
use roundabout_simulation::layout::components::{Connection, SegmentType, SpawnPoint};
use roundabout_simulation::layout::topology::{required_entity_count_of, RoundaboutTopology};
use rand::rngs::StdRng;
use rand::SeedableRng;
use roundabout_simulation::layout::conflict_points::{
    conflict_inputs_are_valid, conflict_point_candidates, ConflictPointIndex,
};
use roundabout_simulation::layout::yield_points::{yield_point_candidates, YieldCandidate, YieldPointIndex};
use roundabout_simulation::simulation::pathfinding::{calculate_route, check_destination_weights, RouteError};
use roundabout_simulation::simulation::spawning::{
    check_spawn_inputs, take_spawns, SpawnSite, VehicleSpawnQueue,
};
use roundabout_simulation::EntityId;

/// Allocates `count` fresh entities starting at `first`.
fn allocate(first: EntityId, count: usize) -> Vec<EntityId> {
    (0..count as EntityId).map(|offset| first + offset).collect()
}

/// Assembles a roundabout of `arms` arms and `lanes` lanes with equal destination weights.
fn assemble(arms: usize, lanes: usize) -> LayoutPlan {
    let count = required_entity_count_of(arms, lanes).expect("too many entities");
    let entity_ids = allocate(1_000, count);
    let end_point_ids = allocate(100_000, arms * lanes);
    let weights = vec![vec![50; arms]; arms];
    assemble_roundabout(arms, lanes, &entity_ids, &end_point_ids, &weights)
}

#[test]
fn assemble_roundabout_spawns_correct_topology() {
    // Three arms at 0, 120 and 240 degrees, two lanes.
    let order = arrange_arms(&vec![0, 120, 240], 2).expect("failed to create");
    assert_eq!(order, vec![2, 1, 0]);
    let plan = assemble(3, 2);
    assert!(plan.segments.len() > 0);
}

#[test]
fn test_assemble_roundabout_spawns_correct_topology() {
    let order = arrange_arms(&vec![0, 120, 240], 2).expect("failed to create");
    assert_eq!(order.len(), 3);
    let plan = assemble(3, 2);
    assert!(plan.segments.len() > 0);
}

#[test]
fn assembly_has_every_component() {
    let plan = assemble(4, 3);
    assert_eq!(plan.segments.len(), 6 * 4 * 3);
    assert_eq!(plan.spawn_points.len(), 4 * 3);
    assert_eq!(plan.end_points.len(), 4 * 3);
    assert_eq!(plan.arms.len(), 4);
    for (index, (id, arm)) in plan.arms.iter().enumerate() {
        assert_eq!(arm.index, index);
        assert_eq!(*id, plan.topology.get_arm_id_at(index));
        assert_eq!(arm.destination_weights.len(), 4);
    }
    let count = |segment_type: SegmentType| {
        plan.segments.iter().filter(|(_, segment)| segment.segment_type == segment_type).count()
    };
    for segment_type in [
        SegmentType::EntryLine,
        SegmentType::EntryDeflection,
        SegmentType::InterArmSector,
        SegmentType::IntraArmSector,
        SegmentType::ExitLine,
        SegmentType::ExitDeflection,
    ] {
        assert_eq!(count(segment_type), 12);
    }
}

#[test]
fn inter_arm_sector_diverges_to_next_arm() {
    let plan = assemble(3, 1);
    let ids = plan.topology.get_ids_for(2, 0, 0);
    let (_, inter) = plan.segments.iter().find(|(id, _)| *id == ids.inter_arm_sector).unwrap();
    assert_eq!(
        inter.connection,
        Connection::Diverge {
            exit_arm_index: 0,
            exit_segment_id: ids.next_exit_deflection,
            circulating_segment_id: ids.next_intra_arm_sector,
        }
    );
    let (_, entry) = plan.segments.iter().find(|(id, _)| *id == ids.entry_deflection).unwrap();
    assert_eq!(entry.connection, Connection::Merge { next_segment_id: ids.inter_arm_sector });
}

#[test]
fn every_spawn_point_reaches_every_arm() {
    for arms in 3..=6 {
        for lanes in 1..=3 {
            let plan = assemble(arms, lanes);
            for start in 0..arms {
                for lane in 0..lanes {
                    let spawn_point = plan.spawn_points[start * lanes + lane];
                    for end in 0..arms {
                        let route = calculate_route(
                            &plan.arms,
                            &plan.end_points,
                            &plan.segments,
                            &spawn_point,
                            end,
                        )
                        .expect("route");
                        let hops = if end > start { end - start } else { end + arms - start };
                        assert_eq!(route.len(), 2 * hops + 3);
                        let exit = plan.topology.get_ids_for(end, lane, 0);
                        assert_eq!(*route.last().unwrap(), exit.exit_line);
                        assert_eq!(route[route.len() - 2], exit.exit_deflection);
                        // The route stays in its lane.
                        for id in &route {
                            let (_, segment) = plan.segments.iter().find(|(s, _)| s == id).unwrap();
                            assert_eq!(segment.lane_index, lane);
                        }
                    }
                }
            }
        }
    }
}

#[test]
fn route_to_next_arm_is_shortest() {
    let plan = assemble(4, 2);
    let spawn_point = plan.spawn_points[1 * 2 + 1];
    let route = calculate_route(&plan.arms, &plan.end_points, &plan.segments, &spawn_point, 2).unwrap();
    let start = plan.topology.get_ids_for(1, 1, 2);
    let end = plan.topology.get_ids_for(2, 1, 3);
    assert_eq!(
        route,
        vec![
            start.entry_line,
            start.entry_deflection,
            start.inter_arm_sector,
            end.exit_deflection,
            end.exit_line
        ]
    );
}

#[test]
fn route_errors() {
    let plan = assemble(3, 1);
    // A spawn point on a segment that does not exist.
    let missing = SpawnPoint::new(0, 0, 7);
    assert_eq!(
        calculate_route(&plan.arms, &plan.end_points, &plan.segments, &missing, 0),
        Err(RouteError::MissingSegment { segment_id: 7 })
    );
    // No end point components.
    let spawn_point = plan.spawn_points[0];
    let exit = plan.topology.get_ids_for(1, 0, 2);
    let result = calculate_route(&plan.arms, &Vec::new(), &plan.segments, &spawn_point, 1);
    let end_point_id = match plan.segments.iter().find(|(id, _)| *id == exit.exit_line).unwrap().1.connection {
        Connection::EndPoint { end_point_id } => end_point_id,
        _ => panic!("exit line should end at an end point"),
    };
    assert_eq!(result, Err(RouteError::MissingEndPoint { end_point_id }));
    // No arm components.
    let result = calculate_route(&Vec::new(), &plan.end_points, &plan.segments, &spawn_point, 1);
    assert_eq!(result, Err(RouteError::MissingArm { arm_id: plan.topology.get_arm_id_at(1) }));
    // An arm index that no arm has: the route circles until it is too long.
    let result = calculate_route(&plan.arms, &plan.end_points, &plan.segments, &spawn_point, 9);
    assert_eq!(
        result,
        Err(RouteError::RouteTooLong { route_length: 19, number_of_segments: 18 })
    );
}

#[test]
fn route_end_point_mismatch() {
    let plan = assemble(3, 1);
    let spawn_point = plan.spawn_points[0];
    // The arm of index 1 claims index 2: the exit at arm 1 ends at an end point of "arm 2".
    let mut arms = Vec::new();
    for (id, arm) in &plan.arms {
        let index = if arm.index == 1 { 2 } else { arm.index };
        arms.push((*id, roundabout_simulation::layout::components::Arm::new(index, Vec::new())));
    }
    let result = calculate_route(&arms, &plan.end_points, &plan.segments, &spawn_point, 1);
    assert_eq!(result, Err(RouteError::EndPointMismatch));
}

#[test]
fn topology_takes_entities_in_order() {
    let ids = allocate(1, 2 * (1 + 6 * 2));
    let topology = RoundaboutTopology::new(2, 2, &ids);
    assert_eq!(topology.get_arm_id_at(0), 1);
    assert_eq!(topology.get_arm_id_at(1), 14);
    let lane = topology.get_ids_for(1, 1, 0);
    assert_eq!(lane.entry_line, 14 + 7);
    assert_eq!(lane.entry_deflection, 14 + 8);
    assert_eq!(lane.exit_line, 14 + 9);
    assert_eq!(lane.exit_deflection, 14 + 10);
    assert_eq!(lane.intra_arm_sector, 14 + 11);
    assert_eq!(lane.inter_arm_sector, 14 + 12);
    assert_eq!(lane.next_exit_deflection, 1 + 7 + 3);
    assert_eq!(lane.next_intra_arm_sector, 1 + 7 + 4);
    assert_eq!(required_entity_count_of(2, 2), Some(26));
    assert_eq!(required_entity_count_of(0, usize::MAX), Some(0));
    assert_eq!(required_entity_count_of(2, usize::MAX), None);
    assert_eq!(required_entity_count_of(usize::MAX, 1), None);
}

#[test]
fn destination_weights_pair_arms_with_weights() {
    let ids = allocate(1, 3 * 7);
    let topology = RoundaboutTopology::new(1, 3, &ids);
    let weights = destination_weights_for(&topology, &vec![5, 100, 53]);
    assert_eq!(weights, vec![(1, 5), (8, 100), (15, 53)]);
}

#[test]
fn assembled_layouts_have_conflict_and_yield_points() {
    for arms in 3..=6 {
        for lanes in 1..=3 {
            let plan = assemble(arms, lanes);
            assert!(conflict_inputs_are_valid(&plan.arms, &plan.segments));
            // Each entry lane crosses its own lane and every lane outside it.
            let candidates = conflict_point_candidates(&plan.arms, &plan.segments);
            assert_eq!(candidates.len(), arms * lanes * (lanes + 1) / 2);
            let yields = yield_point_candidates(&plan.segments, lanes);
            assert_eq!(yields.len(), arms * lanes);
            for arm in 0..arms {
                for lane in 0..lanes {
                    let ids = plan.topology.get_ids_for(arm, lane, (arm + 1) % arms);
                    assert!(yields.contains(&YieldCandidate {
                        entry_deflection_id: ids.entry_deflection,
                        index: YieldPointIndex { arm_index: arm, lane_index: lane },
                        conflict_point_index: ConflictPointIndex {
                            arm_index: arm,
                            entry_lane_index: lane,
                            circulating_lane_index: lanes - 1,
                        },
                    }));
                }
            }
        }
    }
}

#[test]
fn vehicles_queued_at_an_assembled_roundabout_can_be_placed() {
    let mut rng = StdRng::seed_from_u64(7);
    for arms in 3..=6 {
        for lanes in 1..=3 {
            let plan = assemble(arms, lanes);
            for (arm_index, (arm_id, arm)) in plan.arms.iter().enumerate() {
                // Each destination arm has one weight.
                assert_eq!(check_destination_weights(&arm.destination_weights), Ok(()));
                let mut queue = VehicleSpawnQueue::new();
                queue.enqueue_destinations(&mut rng, &arm.destination_weights, 20);
                let site = SpawnSite {
                    arm_id: *arm_id,
                    arm_index,
                    number_of_arms: arms,
                    number_of_lanes: lanes,
                };
                assert_eq!(check_spawn_inputs(&site, &plan.arms, &plan.spawn_points, &queue), Ok(()));
                let spawned = take_spawns(&mut queue, &site, &plan.arms, &plan.spawn_points, &Vec::new());
                // One vehicle per lane at most, and every queued vehicle is accounted for.
                assert!(!spawned.is_empty() && spawned.len() <= lanes);
                assert_eq!(spawned.len() + queue.pending_destinations.len(), 20);
                // Every vehicle that spawns has a route to its destination.
                for decision in &spawned {
                    assert_eq!(decision.spawn_point.arm, *arm_id);
                    let end = plan.arms.iter().position(|(id, _)| *id == decision.destination).unwrap();
                    let route = calculate_route(
                        &plan.arms,
                        &plan.end_points,
                        &plan.segments,
                        &decision.spawn_point,
                        end,
                    )
                    .expect("route");
                    let hops = if end > arm_index { end - arm_index } else { end + arms - arm_index };
                    assert_eq!(route.len(), 2 * hops + 3);
                    assert_eq!(route[0], decision.spawn_point.segment);
                }
            }
        }
    }
}
