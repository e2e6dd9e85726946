use roundabout_simulation::layout::components::{Arm, Connection, Segment, SegmentType, SpawnPoint};
use roundabout_simulation::simulation::components::{finish_segment, Navigator, SegmentEnd};
use roundabout_simulation::simulation::kinematics::{
    circulating_position, get_sectors, select_lead_vehicle, CirculatingPosition, CirculationError,
    LeadCandidate, LeadVehicleChoice, LeadVehicleError,
};
use roundabout_simulation::layout::conflict_points::ConflictPointIndex;
use roundabout_simulation::simulation::spawning::{
    check_spawn_inputs, take_spawns, SpawnDecision, SpawnInputError, SpawnSite, VehicleSpawnQueue,
};
use roundabout_simulation::simulation::statistics::Statistics;
use roundabout_simulation::simulation::yielding::{
    yield_context, YieldApproach, YieldContext, YieldContextError,
};

#[test]
fn navigator_follows_its_route() {
    assert_eq!(Navigator::try_new(Vec::new()).err(), Some("route cannot be empty"));
    let mut navigator = Navigator::try_new(vec![10, 20, 30]).unwrap();
    assert_eq!(navigator.current_segment_id(), 10);
    assert_eq!(navigator.next_segment_id(), Some(20));
    assert_eq!(navigator.increment_current_segment_index(), Ok(()));
    assert_eq!(navigator.current_segment_id(), 20);
    assert_eq!(navigator.current_segment_index(), 1);
    assert_eq!(navigator.increment_current_segment_index(), Ok(()));
    assert_eq!(navigator.next_segment_id(), None);
    assert_eq!(navigator.increment_current_segment_index(), Err(()));
    assert_eq!(navigator.current_segment_id(), 30);
    assert_eq!(navigator.route(), &[10, 20, 30]);
}

#[test]
fn finishing_segments_counts_passed_vehicles() {
    let mut statistics = Statistics::new();
    let mut navigator = Navigator::try_new(vec![1, 2]).unwrap();
    assert_eq!(finish_segment(&mut navigator, &mut statistics), SegmentEnd::NextSegment);
    assert_eq!(navigator.current_segment_id(), 2);
    assert_eq!(statistics.total_vehicles_passed, 0);
    assert_eq!(finish_segment(&mut navigator, &mut statistics), SegmentEnd::RouteFinished);
    assert_eq!(statistics.total_vehicles_passed, 1);
    statistics.increment_total_vehicles_passed();
    assert_eq!(statistics.total_vehicles_passed, 2);
}

fn sector(arm_index: usize, lane_index: usize, segment_type: SegmentType) -> Segment {
    Segment::new(segment_type, 0, arm_index, lane_index, Connection::Direct { next_segment_id: 0 })
}

#[test]
fn circulating_positions() {
    let segments = vec![
        (1, sector(1, 0, SegmentType::IntraArmSector)),
        (2, sector(1, 1, SegmentType::IntraArmSector)),
        (3, sector(0, 1, SegmentType::InterArmSector)),
        (4, sector(1, 1, SegmentType::ExitDeflection)),
    ];
    let (intra, inter) = get_sectors(1, 3, &segments);
    // A vehicle on the inner intra arm sector, seen from the outer entry lane 1.
    assert_eq!(
        circulating_position(9, 1, 1, 8, 2, Some(5), &segments, &intra, &inter),
        Ok(Some(CirculatingPosition {
            circulating_lane_index: 1,
            is_inter_arm: false,
            conflict_point_index: ConflictPointIndex {
                arm_index: 1,
                entry_lane_index: 1,
                circulating_lane_index: 1
            },
        }))
    );
    // On the inter arm sector behind.
    assert_eq!(
        circulating_position(9, 0, 1, 8, 3, Some(5), &segments, &intra, &inter),
        Ok(Some(CirculatingPosition {
            circulating_lane_index: 1,
            is_inter_arm: true,
            conflict_point_index: ConflictPointIndex {
                arm_index: 1,
                entry_lane_index: 0,
                circulating_lane_index: 1
            },
        }))
    );
    // The entering vehicle itself, one on its last segment, one about to exit, one elsewhere.
    assert_eq!(circulating_position(9, 0, 1, 9, 2, Some(5), &segments, &intra, &inter), Ok(None));
    assert_eq!(circulating_position(9, 0, 1, 8, 2, None, &segments, &intra, &inter), Ok(None));
    assert_eq!(circulating_position(9, 0, 1, 8, 2, Some(4), &segments, &intra, &inter), Ok(None));
    assert_eq!(circulating_position(9, 0, 1, 8, 77, Some(5), &segments, &intra, &inter), Ok(None));
    // A circulating lane inside the entry lane has no conflict point.
    assert_eq!(
        circulating_position(9, 1, 1, 8, 1, Some(5), &segments, &intra, &inter),
        Err(CirculationError::ConflictPointIndexUnavailable)
    );
}

#[test]
fn lead_vehicle_is_the_nearest_ahead() {
    let route = [1, 2, 3, 4];
    let candidates = vec![
        LeadCandidate { vehicle_id: 100, current_segment_id: 2, progress_key: 5 }, // this vehicle
        LeadCandidate { vehicle_id: 101, current_segment_id: 2, progress_key: 3 }, // behind
        LeadCandidate { vehicle_id: 102, current_segment_id: 4, progress_key: 0 },
        LeadCandidate { vehicle_id: 103, current_segment_id: 3, progress_key: 9 },
        LeadCandidate { vehicle_id: 104, current_segment_id: 3, progress_key: 2 },
        LeadCandidate { vehicle_id: 105, current_segment_id: 3, progress_key: 2 }, // tie: first wins
        LeadCandidate { vehicle_id: 106, current_segment_id: 7, progress_key: 0 }, // off route
    ];
    assert_eq!(
        select_lead_vehicle(100, &route, 2, 5, &candidates),
        Ok(LeadVehicleChoice { vehicle_id: 104, route_start: 1, route_index: 1, progress_key: 2 })
    );
    // Ahead on the same segment.
    let candidates_same = vec![
        LeadCandidate { vehicle_id: 101, current_segment_id: 2, progress_key: 8 },
        LeadCandidate { vehicle_id: 102, current_segment_id: 3, progress_key: 0 },
    ];
    assert_eq!(
        select_lead_vehicle(100, &route, 2, 5, &candidates_same),
        Ok(LeadVehicleChoice { vehicle_id: 101, route_start: 1, route_index: 0, progress_key: 8 })
    );
    assert_eq!(
        select_lead_vehicle(100, &route, 4, 5, &candidates[..3].to_vec()),
        Err(LeadVehicleError::NoLeadVehicle)
    );
    assert_eq!(
        select_lead_vehicle(100, &route, 9, 5, &candidates),
        Err(LeadVehicleError::CurrentSegmentNotOnRoute)
    );
}

/// Spawn points of arm 50: lane `l` starts on segment `200 + l`.
fn spawn_points() -> Vec<SpawnPoint> {
    (0..2).map(|lane| SpawnPoint::new(50, lane, 200 + lane as u64)).collect()
}

/// Three arms (entities 50, 51, 52) with indices 0, 1, 2.
fn target_arms() -> Vec<(u64, Arm)> {
    (0..3).map(|index| (50 + index as u64, Arm::new(index, Vec::new()))).collect()
}

#[test]
fn spawning_takes_one_vehicle_per_free_lane() {
    let site = SpawnSite { arm_id: 50, arm_index: 0, number_of_arms: 3, number_of_lanes: 2 };
    let mut queue = VehicleSpawnQueue::new();
    // To arm 1 (first exit: outer lane 1), arm 2 (last exit: lane 0), arm 1 again, arm 0 (U-turn: lane 0).
    for destination in [51, 52, 51, 50] {
        queue.pending_destinations.push_back(destination);
    }
    let decisions = take_spawns(&mut queue, &site, &target_arms(), &spawn_points(), &Vec::new());
    assert_eq!(
        decisions,
        vec![
            SpawnDecision { destination: 51, spawn_point: SpawnPoint::new(50, 1, 201) },
            SpawnDecision { destination: 52, spawn_point: SpawnPoint::new(50, 0, 200) },
        ]
    );
    assert_eq!(queue.pending_destinations.iter().copied().collect::<Vec<_>>(), vec![51, 50]);
}

#[test]
fn spawning_skips_blocked_lanes() {
    let site = SpawnSite { arm_id: 50, arm_index: 0, number_of_arms: 3, number_of_lanes: 2 };
    let mut queue = VehicleSpawnQueue::new();
    for destination in [51, 52] {
        queue.pending_destinations.push_back(destination);
    }
    let decisions = take_spawns(&mut queue, &site, &target_arms(), &spawn_points(), &vec![201]);
    assert_eq!(
        decisions,
        vec![SpawnDecision { destination: 52, spawn_point: SpawnPoint::new(50, 0, 200) }]
    );
    assert_eq!(queue.pending_destinations.iter().copied().collect::<Vec<_>>(), vec![51]);
}

#[test]
fn spawn_inputs_are_checked() {
    let site = SpawnSite { arm_id: 50, arm_index: 0, number_of_arms: 3, number_of_lanes: 2 };
    let mut queue = VehicleSpawnQueue::new();
    assert_eq!(check_spawn_inputs(&site, &target_arms(), &spawn_points(), &queue), Ok(()));
    queue.pending_destinations.push_back(51);
    queue.pending_destinations.push_back(52);
    assert_eq!(check_spawn_inputs(&site, &target_arms(), &spawn_points(), &queue), Ok(()));
    // Arm 51 is reached by the outer lane 1, which has no spawn point here.
    let only_inner = vec![SpawnPoint::new(50, 0, 200)];
    assert_eq!(
        check_spawn_inputs(&site, &target_arms(), &only_inner, &queue),
        Err(SpawnInputError::MissingSpawnPoint { destination: 51, lane_index: 1 })
    );
    // An unknown destination.
    queue.pending_destinations.push_back(77);
    assert_eq!(
        check_spawn_inputs(&site, &target_arms(), &spawn_points(), &queue),
        Err(SpawnInputError::MissingTargetArm { destination: 77 })
    );
    // With one arm no lane can be chosen on a road of two lanes.
    let lone = SpawnSite { arm_id: 50, arm_index: 0, number_of_arms: 1, number_of_lanes: 2 };
    let mut queue = VehicleSpawnQueue::new();
    queue.pending_destinations.push_back(50);
    assert_eq!(
        check_spawn_inputs(&lone, &target_arms(), &spawn_points(), &queue),
        Err(SpawnInputError::LaneUndefined { destination: 50 })
    );
}

#[test]
fn yield_contexts_of_approaching_vehicles() {
    let segment = |segment_type, lane_index, next| {
        Segment::new(segment_type, 70, 3, lane_index, Connection::Direct { next_segment_id: next })
    };
    let segments = vec![
        (1, segment(SegmentType::EntryLine, 1, 2)),
        (2, segment(SegmentType::EntryDeflection, 1, 5)),
        (3, segment(SegmentType::IntraArmSector, 1, 4)),
        (4, segment(SegmentType::EntryLine, 0, 0)),
    ];
    let context = |approach| Ok(Some(YieldContext { entry_arm_index: 3, entry_lane_index: 1, approach }));
    assert_eq!(yield_context(&segments, 1, Some(1)), context(YieldApproach::OnCurrentSegment));
    assert_eq!(
        yield_context(&segments, 1, Some(2)),
        context(YieldApproach::OnEntryDeflection { deflection_id: 2 })
    );
    assert_eq!(yield_context(&segments, 1, Some(9)), context(YieldApproach::Elsewhere));
    assert_eq!(yield_context(&segments, 1, None), Ok(None));
    assert_eq!(yield_context(&segments, 2, Some(2)), context(YieldApproach::OnCurrentSegment));
    // Past the entry line, a yield point on it no longer counts.
    assert_eq!(yield_context(&segments, 2, Some(1)), Ok(None));
    assert_eq!(yield_context(&segments, 3, Some(3)), Ok(None));
    assert_eq!(yield_context(&segments, 8, Some(8)), Ok(None));
    // An entry line of a lane without an entry deflection.
    assert_eq!(yield_context(&segments, 4, Some(4)), Err(YieldContextError::MissingEntryDeflection));
}
