use roundabout_simulation::layout::components::{Connection, Segment, SegmentType};
use roundabout_simulation::simulation::kinematics::get_sectors;
use roundabout_simulation::EntityId;

/// Builds a segment on `arm_index` and `lane_index` of the given type.
fn spawn_segment(
    world: &mut Vec<(EntityId, Segment)>,
    arm_index: usize,
    lane_index: usize,
    segment_type: SegmentType,
) -> EntityId {
    let id = world.len() as EntityId + 1;
    let segment = Segment::new(
        segment_type,
        0,
        arm_index,
        lane_index,
        Connection::Direct { next_segment_id: 0 },
    );
    world.push((id, segment));
    id
}

#[test]
fn filters_matching_arms_and_lanes() {
    let mut world = Vec::new();

    // Entry arm index 1, number of arms 4 => prev_arm_index = (1 + 4 - 1) % 4 = 0.
    let entry_arm = 1;
    let number_of_arms = 4;

    let intra_target_lane0 = spawn_segment(&mut world, 1, 0, SegmentType::IntraArmSector);
    let intra_target_lane1 = spawn_segment(&mut world, 1, 1, SegmentType::IntraArmSector);
    let intra_ignored_arm = spawn_segment(&mut world, 2, 0, SegmentType::IntraArmSector);

    let inter_target_lane0 = spawn_segment(&mut world, 0, 0, SegmentType::InterArmSector);
    let inter_target_lane1 = spawn_segment(&mut world, 0, 1, SegmentType::InterArmSector);
    let inter_ignored_arm = spawn_segment(&mut world, 1, 0, SegmentType::InterArmSector);

    let (intra_map, inter_map) = get_sectors(entry_arm, number_of_arms, &world);

    assert_eq!(intra_map.len(), 2);
    assert_eq!(intra_map.get_by_left(&intra_target_lane0), Some(&0));
    assert_eq!(intra_map.get_by_left(&intra_target_lane1), Some(&1));
    assert!(!intra_map.contains_left(&intra_ignored_arm));

    assert_eq!(inter_map.len(), 2);
    assert_eq!(inter_map.get_by_left(&inter_target_lane0), Some(&0));
    assert_eq!(inter_map.get_by_left(&inter_target_lane1), Some(&1));
    assert!(!inter_map.contains_left(&inter_ignored_arm));
}

#[test]
fn handles_arm_zero_wraparound() {
    let mut world = Vec::new();

    // Entry arm index 0, number of arms 4 => prev_arm_index = (0 + 4 - 1) % 4 = 3.
    let entry_arm = 0;
    let number_of_arms = 4;

    let intra_arm0_lane0 = spawn_segment(&mut world, 0, 0, SegmentType::IntraArmSector);
    let inter_arm3_lane2 = spawn_segment(&mut world, 3, 2, SegmentType::InterArmSector);

    let (intra_map, inter_map) = get_sectors(entry_arm, number_of_arms, &world);

    assert_eq!(intra_map.len(), 1);
    assert_eq!(intra_map.get_by_left(&intra_arm0_lane0), Some(&0));

    assert_eq!(inter_map.len(), 1);
    assert_eq!(inter_map.get_by_left(&inter_arm3_lane2), Some(&2));
}

#[test]
fn returns_empty_maps_when_no_matching_sectors_exist() {
    let mut world = Vec::new();

    // Spawn segments for arm 2, but query for arm 0.
    spawn_segment(&mut world, 2, 0, SegmentType::IntraArmSector);
    spawn_segment(&mut world, 2, 0, SegmentType::InterArmSector);

    let (intra_map, inter_map) = get_sectors(0, 4, &world);

    assert!(intra_map.is_empty());
    assert!(inter_map.is_empty());
}

#[test]
fn handles_two_arm_roundabout() {
    let mut world = Vec::new();

    // Entry arm index 0, number of arms 2 => prev_arm_index = (0 + 2 - 1) % 2 = 1.
    let entry_arm = 0;
    let number_of_arms = 2;

    let intra_arm0_lane0 = spawn_segment(&mut world, 0, 0, SegmentType::IntraArmSector);
    let inter_arm1_lane0 = spawn_segment(&mut world, 1, 0, SegmentType::InterArmSector);

    let (intra_map, inter_map) = get_sectors(entry_arm, number_of_arms, &world);

    assert_eq!(intra_map.len(), 1);
    assert_eq!(intra_map.get_by_left(&intra_arm0_lane0), Some(&0));

    assert_eq!(inter_map.len(), 1);
    assert_eq!(inter_map.get_by_left(&inter_arm1_lane0), Some(&0));
}

#[test]
fn ignores_other_segment_types_on_same_arm() {
    let mut world = Vec::new();

    let entry_arm = 1;
    let number_of_arms = 4;

    let intra_target = spawn_segment(&mut world, 1, 0, SegmentType::IntraArmSector);
    let inter_target = spawn_segment(&mut world, 0, 0, SegmentType::InterArmSector);

    // Non-sector segments on the target arms.
    spawn_segment(&mut world, 1, 0, SegmentType::EntryLine);
    spawn_segment(&mut world, 0, 0, SegmentType::EntryDeflection);

    let (intra_map, inter_map) = get_sectors(entry_arm, number_of_arms, &world);

    assert_eq!(intra_map.len(), 1);
    assert!(intra_map.contains_left(&intra_target));

    assert_eq!(inter_map.len(), 1);
    assert!(inter_map.contains_left(&inter_target));
}

#[test]
fn sectors_sharing_a_lane_keep_the_later_one() {
    let mut world = Vec::new();
    let first = spawn_segment(&mut world, 1, 0, SegmentType::IntraArmSector);
    let second = spawn_segment(&mut world, 1, 0, SegmentType::IntraArmSector);

    let (intra_map, _) = get_sectors(1, 3, &world);

    // A pair with the same lane is replaced by the later one.
    assert_eq!(intra_map.len(), 1);
    assert!(!intra_map.contains_left(&first));
    assert_eq!(intra_map.get_by_left(&second), Some(&0));
}
