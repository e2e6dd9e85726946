use roundabout_simulation::layout::components::Arm;
use roundabout_simulation::simulation::pathfinding::{get_exit_rank, select_lane_index, select_lane_index_of};

/// The lane selection computed in single-precision floating point.
fn float_lane(entry: usize, exit: usize, arms: usize, lanes: usize) -> usize {
    if lanes <= 1 {
        return 0;
    }
    let exit_rank = (exit + arms - entry) % arms;
    let max_rank = arms - 1;
    let rank = if exit_rank == 0 || exit_rank > max_rank { max_rank } else { exit_rank };
    let raw_progress = (rank - 1) as f32 / (max_rank - 1) as f32;
    let biased_progress = raw_progress.powf(2.0);
    let inner_offset = (biased_progress * (lanes - 1) as f32).round() as usize;
    (lanes - 1) - inner_offset
}

#[test]
fn lane_selection_matches_float_computation() {
    for arms in 2..=12 {
        for lanes in 1..=6 {
            for entry in 0..arms {
                for exit in 0..arms {
                    assert_eq!(
                        select_lane_index_of(entry, exit, arms, lanes),
                        float_lane(entry, exit, arms, lanes),
                        "arms {arms} lanes {lanes} entry {entry} exit {exit}"
                    );
                }
            }
        }
    }
}

#[test]
fn lane_selection_examples() {
    let arm = |index: usize| Arm::new(index, Vec::new());
    // Four arms, two lanes: the first exit uses the outer lane, later exits the inner one.
    assert_eq!(select_lane_index(&arm(0), &arm(1), 4, 2), 1);
    assert_eq!(select_lane_index(&arm(0), &arm(2), 4, 2), 1);
    assert_eq!(select_lane_index(&arm(0), &arm(3), 4, 2), 0);
    // A U-turn shares the last exit's lane.
    assert_eq!(select_lane_index(&arm(0), &arm(0), 4, 2), 0);
    // Single-lane roundabouts always use lane 0.
    assert_eq!(select_lane_index(&arm(2), &arm(1), 5, 1), 0);
    // Three lanes, five arms: ranks 1..4 use lanes 2, 2, 1, 0.
    assert_eq!(select_lane_index(&arm(1), &arm(2), 5, 3), 2);
    assert_eq!(select_lane_index(&arm(1), &arm(3), 5, 3), 2);
    assert_eq!(select_lane_index(&arm(1), &arm(4), 5, 3), 1);
    assert_eq!(select_lane_index(&arm(1), &arm(0), 5, 3), 0);
    // Two arms: every exit uses the outermost lane.
    assert_eq!(select_lane_index(&arm(0), &arm(1), 2, 3), 2);
}

#[test]
fn exit_ranks() {
    let arm = |index: usize| Arm::new(index, Vec::new());
    assert_eq!(get_exit_rank(&arm(3), &arm(0), 4), 1);
    assert_eq!(get_exit_rank(&arm(0), &arm(3), 4), 3);
    assert_eq!(get_exit_rank(&arm(2), &arm(2), 4), 0);
}

/// The exact lane for an exit of rank `rank` out of `max_rank`, in 128-bit arithmetic.
fn exact_lane(rank: u128, max_rank: u128, lanes: u128) -> u128 {
    let steps = max_rank - 1;
    let numerator = (rank - 1) * (rank - 1) * (lanes - 1);
    let denominator = steps * steps;
    (lanes - 1) - (2 * numerator + denominator) / (2 * denominator)
}

#[test]
fn lane_selection_on_large_roundabouts() {
    for &(arms, lanes) in &[(1_000_003usize, 7usize), (1 << 30, (1 << 30) + 5), ((1 << 36) + 7, 1 << 40)] {
        for exit in [1, 2, arms / 3, arms / 2, arms - 2, arms - 1, 0] {
            let rank = if exit == 0 { arms - 1 } else { exit };
            assert_eq!(
                select_lane_index_of(0, exit, arms, lanes) as u128,
                exact_lane(rank as u128, (arms - 1) as u128, lanes as u128),
                "arms {arms} lanes {lanes} exit {exit}"
            );
        }
    }
    // Half way round, a quarter of the lanes inwards; halves round up.
    let arms = (1usize << 62) + 2;
    let exit = (1usize << 61) + 1;
    assert_eq!(select_lane_index_of(0, exit, arms, (1 << 62) + 1), 3 << 60);
    assert_eq!(select_lane_index_of(0, exit, arms, (1 << 62) + 3), (3 << 60) + 1);
    // The first exit uses the outermost lane and the last the innermost.
    assert_eq!(select_lane_index_of(0, 1, usize::MAX / 2, usize::MAX / 2), usize::MAX / 2 - 1);
    assert_eq!(select_lane_index_of(0, usize::MAX / 2 - 1, usize::MAX / 2, usize::MAX / 2), 0);
}
