use roundabout_simulation::blueprint::{arrange_arms, check_dimensions, reverse_angle_order, BlueprintError};
use roundabout_simulation::graphics::{GizmoColors, SegmentInspectorState};
use roundabout_simulation::layout::components::{
    find_entry_deflection, Arm, Connection, EndPoint, Segment, SegmentType,
};
use roundabout_simulation::layout::conflict_points::{
    conflict_inputs_are_valid, conflict_point_candidates, first_conflict_point_index,
    ConflictCandidate, ConflictPointIndex,
};
use roundabout_simulation::layout::yield_points::{yield_point_candidates, YieldCandidate, YieldPointIndex};

#[test]
fn try_new_roundabout_blueprint() {
    // Arms at 0, 90 and 180 degrees, two lanes.
    let order = arrange_arms(&vec![0, 90, 180], 2).expect("failed to create");
    assert_eq!(order, vec![2, 1, 0]);
}

#[test]
fn blueprint_dimension_errors() {
    assert_eq!(arrange_arms(&vec![0, 90], 2), Err(BlueprintError::ArmCount { found: 2 }));
    assert_eq!(
        arrange_arms(&vec![0, 1, 2, 3, 4, 5, 6], 2),
        Err(BlueprintError::ArmCount { found: 7 })
    );
    assert_eq!(arrange_arms(&vec![0, 90, 180], 0), Err(BlueprintError::LaneCount { found: 0 }));
    assert_eq!(arrange_arms(&vec![0, 90, 180], 4), Err(BlueprintError::LaneCount { found: 4 }));
    // The arms are checked before the lanes.
    assert_eq!(check_dimensions(9, 9), Err(BlueprintError::ArmCount { found: 9 }));
    assert_eq!(check_dimensions(6, 3), Ok(()));
    assert_eq!(check_dimensions(4, 3), Ok(()));
    assert_eq!(check_dimensions(3, 2), Ok(()));
    // A roundabout of 3 arms has at most 2 lanes.
    assert_eq!(check_dimensions(3, 3), Err(BlueprintError::LanesForThreeArms { found: 3 }));
    assert_eq!(
        arrange_arms(&vec![0, 120, 240], 3),
        Err(BlueprintError::LanesForThreeArms { found: 3 })
    );
    assert_eq!(arrange_arms(&vec![0, 120, 240], 4), Err(BlueprintError::LaneCount { found: 4 }));
}

#[test]
fn reverse_angle_order_is_stable() {
    assert_eq!(reverse_angle_order(&vec![-90, 0, 90, 0, -180]), vec![2, 1, 3, 0, 4]);
    assert_eq!(reverse_angle_order(&vec![]), Vec::<usize>::new());
    assert_eq!(reverse_angle_order(&vec![5, 5, 5]), vec![0, 1, 2]);
}

#[test]
fn conflict_point_indices() {
    assert_eq!(
        ConflictPointIndex::try_new(2, 0, 1),
        Some((ConflictPointIndex { arm_index: 2, entry_lane_index: 0, circulating_lane_index: 1 }, false))
    );
    assert_eq!(
        ConflictPointIndex::try_new(2, 1, 1),
        Some((ConflictPointIndex { arm_index: 2, entry_lane_index: 1, circulating_lane_index: 1 }, true))
    );
    assert_eq!(ConflictPointIndex::try_new(2, 2, 1), None);
    let entry = Segment::new(SegmentType::EntryDeflection, 7, 3, 1, Connection::Merge { next_segment_id: 0 });
    assert_eq!(
        first_conflict_point_index(&entry, 3),
        Some((ConflictPointIndex { arm_index: 3, entry_lane_index: 1, circulating_lane_index: 2 }, false))
    );
    assert_eq!(first_conflict_point_index(&entry, 1), None);
    assert_eq!(YieldPointIndex::new(3, 1), YieldPointIndex { arm_index: 3, lane_index: 1 });
}

#[test]
fn conflict_candidates_pair_entries_with_sectors() {
    let arms = vec![(7, Arm::new(4, Vec::new())), (8, Arm::new(5, Vec::new()))];
    let segment = |segment_type, arm_id, lane_index| {
        Segment::new(segment_type, arm_id, 0, lane_index, Connection::Direct { next_segment_id: 0 })
    };
    let segments = vec![
        (1, segment(SegmentType::EntryDeflection, 7, 1)),
        (2, segment(SegmentType::IntraArmSector, 7, 0)),
        (3, segment(SegmentType::IntraArmSector, 7, 1)),
        (4, segment(SegmentType::IntraArmSector, 7, 2)),
        (5, segment(SegmentType::IntraArmSector, 8, 2)),
        (6, segment(SegmentType::EntryLine, 8, 0)),
    ];
    assert!(conflict_inputs_are_valid(&arms, &segments));
    let candidates = conflict_point_candidates(&arms, &segments);
    assert_eq!(
        candidates,
        vec![
            ConflictCandidate {
                index: ConflictPointIndex { arm_index: 4, entry_lane_index: 1, circulating_lane_index: 1 },
                is_merge: true,
                entry_deflection_id: 1,
                intra_arm_sector_id: 3,
            },
            ConflictCandidate {
                index: ConflictPointIndex { arm_index: 4, entry_lane_index: 1, circulating_lane_index: 2 },
                is_merge: false,
                entry_deflection_id: 1,
                intra_arm_sector_id: 4,
            },
        ]
    );
    // An entry deflection on an arm with no intra arm sector.
    let lonely = vec![(1, segment(SegmentType::EntryDeflection, 8, 0))];
    assert!(!conflict_inputs_are_valid(&arms, &lonely));
    // An entry deflection on no arm.
    let orphan = vec![(1, segment(SegmentType::EntryDeflection, 9, 0)), (2, segment(SegmentType::IntraArmSector, 9, 0))];
    assert!(!conflict_inputs_are_valid(&arms, &orphan));
    assert_eq!(
        find_entry_deflection(&segments, 7, 1).map(|(id, _)| id),
        Some(1)
    );
    assert_eq!(find_entry_deflection(&segments, 7, 0), None);
}

#[test]
fn components_keep_their_fields() {
    let end_point = EndPoint::new(4, 2);
    assert_eq!(end_point.arm(), 4);
    assert_eq!(end_point.lane_index, 2);
}

#[test]
fn gizmo_colors_by_connection() {
    let merge = GizmoColors::get_colors(&Connection::Merge { next_segment_id: 1 });
    assert_eq!((merge.segment, merge.point), ([200, 200, 46], [149, 149, 34]));
    let direct = GizmoColors::get_colors(&Connection::Direct { next_segment_id: 1 });
    assert_eq!((direct.segment, direct.point), ([203, 203, 203], [142, 142, 142]));
    let diverge = GizmoColors::get_colors(&Connection::Diverge {
        exit_arm_index: 0,
        exit_segment_id: 1,
        circulating_segment_id: 2,
    });
    assert_eq!((diverge.segment, diverge.point), ([100, 100, 100], [100, 100, 100]));
    let end = GizmoColors::get_colors(&Connection::EndPoint { end_point_id: 1 });
    assert_eq!((end.segment, end.point), ([200, 20, 32], [161, 16, 25]));
    let custom = GizmoColors::srgb_u8([0, 0, 255], [0, 0, 255]);
    assert_eq!((custom.segment, custom.point), ([0, 0, 255], [0, 0, 255]));
}

#[test]
fn segment_selection_cycles_and_clamps() {
    let mut state = SegmentInspectorState { selected_index: None };
    assert_eq!(state.cycle(false, 3), None);
    assert_eq!(state.cycle(true, 3), Some(0));
    assert_eq!(state.cycle(true, 3), Some(1));
    assert_eq!(state.cycle(true, 3), Some(2));
    assert_eq!(state.cycle(true, 3), Some(0));
    assert_eq!(state.cycle(false, 3), Some(0));
    // Past the end: clamped to the last segment, with nothing highlighted this frame.
    state.selected_index = Some(7);
    assert_eq!(state.cycle(false, 3), None);
    assert_eq!(state.selected_index, Some(2));
    // No segments: nothing changes.
    assert_eq!(state.cycle(true, 0), None);
    assert_eq!(state.selected_index, Some(2));
}

#[test]
fn yield_candidates_are_merging_entry_deflections() {
    let segment = |segment_type, arm_index, lane_index, connection| {
        Segment::new(segment_type, 70 + arm_index as u64, arm_index, lane_index, connection)
    };
    let merge = Connection::Merge { next_segment_id: 99 };
    let segments = vec![
        (1, segment(SegmentType::EntryDeflection, 0, 0, merge)),
        (2, segment(SegmentType::EntryLine, 0, 0, Connection::Direct { next_segment_id: 1 })),
        (3, segment(SegmentType::EntryDeflection, 1, 1, merge)),
        // Does not merge onto the circle.
        (4, segment(SegmentType::EntryDeflection, 2, 0, Connection::Direct { next_segment_id: 5 })),
        // Outside the outermost circulating lane of a two-lane roundabout.
        (6, segment(SegmentType::EntryDeflection, 2, 2, merge)),
    ];
    assert_eq!(
        yield_point_candidates(&segments, 2),
        vec![
            YieldCandidate {
                entry_deflection_id: 1,
                index: YieldPointIndex { arm_index: 0, lane_index: 0 },
                conflict_point_index: ConflictPointIndex {
                    arm_index: 0,
                    entry_lane_index: 0,
                    circulating_lane_index: 1
                },
            },
            YieldCandidate {
                entry_deflection_id: 3,
                index: YieldPointIndex { arm_index: 1, lane_index: 1 },
                conflict_point_index: ConflictPointIndex {
                    arm_index: 1,
                    entry_lane_index: 1,
                    circulating_lane_index: 1
                },
            },
        ]
    );
    assert_eq!(yield_point_candidates(&Vec::new(), 1), Vec::new());
}
