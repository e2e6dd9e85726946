use rand::rngs::StdRng;
use rand::SeedableRng;
use roundabout_simulation::layout::components::DestinationWeights;
use roundabout_simulation::simulation::pathfinding::{
    check_destination_weights, destination_at, destination_weight_values, select_destination_arm,
    DestinationWeightsError,
};
use roundabout_simulation::simulation::spawning::VehicleSpawnQueue;
use roundabout_simulation::EntityId;

/// A fake entity for testing.
fn make_test_entity(id: u32) -> EntityId {
    id as EntityId
}

#[test]
fn single_choice_guaranteed() {
    let mut rng = StdRng::seed_from_u64(42);
    let mut destination_weights = DestinationWeights::default();

    let target_arm = make_test_entity(1);
    // Anything above a value of 0 is included in the distribution.
    destination_weights.push((target_arm, 1));

    // With only one option, it must return that option 100% of the time.
    for _ in 0..100 {
        let selected = select_destination_arm(&mut rng, &destination_weights);
        assert_eq!(selected, target_arm);
    }
}

#[test]
fn zero_weight_ignored() {
    let mut rng = StdRng::seed_from_u64(12345);
    let mut destination_weights = DestinationWeights::default();

    let lucky_arm = make_test_entity(1);
    let unlucky_arm = make_test_entity(2);

    destination_weights.push((lucky_arm, 10));
    destination_weights.push((unlucky_arm, 0)); // 0% chance of selection.

    // The 0-weight option should never be picked.
    for _ in 0..100 {
        let selected = select_destination_arm(&mut rng, &destination_weights);
        assert_eq!(selected, lucky_arm);
        assert_ne!(selected, unlucky_arm);
    }
}

#[test]
fn statistical_distribution() {
    // A fixed seed makes the outcome deterministic; the tolerance makes it pass for
    // most seeds.
    let mut rng = StdRng::seed_from_u64(987654321);
    let mut weights = DestinationWeights::default();

    let arm_a = make_test_entity(1);
    let arm_b = make_test_entity(2);

    weights.push((arm_a, 25)); // Should get ~25% of rolls.
    weights.push((arm_b, 75)); // Should get ~75% of rolls.

    let mut count_a = 0;
    let mut count_b = 0;
    let iterations = 10_000;

    for _ in 0..iterations {
        let selected = select_destination_arm(&mut rng, &weights);
        if selected == arm_a {
            count_a += 1;
        } else if selected == arm_b {
            count_b += 1;
        }
    }

    const PERCENTAGE_TOLERANCE: f64 = 2.0;
    let percentage_a = (count_a as f64 / iterations as f64) * 100.0;
    let percentage_b = (count_b as f64 / iterations as f64) * 100.0;

    assert!(
        (percentage_a - 25.0).abs() < PERCENTAGE_TOLERANCE,
        "Arm A variance too high above {PERCENTAGE_TOLERANCE}%: {}%",
        percentage_a
    );
    assert!(
        (percentage_b - 75.0).abs() < PERCENTAGE_TOLERANCE,
        "Arm B variance too high above {PERCENTAGE_TOLERANCE}%: {}%",
        percentage_b
    );
}

#[test]
fn selection_is_always_a_weighted_destination() {
    let mut rng = StdRng::seed_from_u64(7);
    let weights: DestinationWeights = vec![(5, 0), (6, 3), (7, 0), (8, 1)];
    for _ in 0..1_000 {
        let selected = select_destination_arm(&mut rng, &weights);
        assert!(selected == 6 || selected == 8);
    }
}

#[test]
fn enqueue_destinations_appends_weighted_destinations() {
    let mut rng = StdRng::seed_from_u64(3);
    let weights: DestinationWeights = vec![(11, 2), (12, 0)];
    let mut queue = VehicleSpawnQueue::new();
    queue.pending_destinations.push_back(99);
    queue.enqueue_destinations(&mut rng, &weights, 4);
    assert_eq!(queue.pending_destinations.len(), 5);
    assert_eq!(queue.pending_destinations[0], 99);
    for index in 1..5 {
        assert_eq!(queue.pending_destinations[index], 11);
    }
    // Queueing no vehicle needs no weights.
    queue.enqueue_destinations(&mut rng, &Vec::new(), 0);
    assert_eq!(queue.pending_destinations.len(), 5);
}

#[test]
fn destination_weights_are_checked() {
    assert_eq!(check_destination_weights(&Vec::new()), Err(DestinationWeightsError::Empty));
    assert_eq!(check_destination_weights(&vec![(1, 0), (2, 0)]), Err(DestinationWeightsError::AllZero));
    assert_eq!(
        check_destination_weights(&vec![(1, u32::MAX), (2, 1)]),
        Err(DestinationWeightsError::Overflow)
    );
    assert_eq!(check_destination_weights(&vec![(1, 0), (2, 3)]), Ok(()));
    assert_eq!(
        check_destination_weights(&vec![(1, 2), (2, 3), (1, 4)]),
        Err(DestinationWeightsError::RepeatedDestination)
    );
    assert_eq!(check_destination_weights(&vec![(1, u32::MAX)]), Ok(()));
}

#[test]
fn weights_and_destinations_by_position() {
    let weights = vec![(11, 25), (12, 0), (13, 75)];
    assert_eq!(destination_weight_values(&weights), vec![25, 0, 75]);
    assert_eq!(destination_at(&weights, 0), 11);
    assert_eq!(destination_at(&weights, 2), 13);
}
