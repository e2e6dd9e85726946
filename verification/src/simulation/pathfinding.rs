//! Route finding for vehicles, and the choice of their destination and lane.

use crate::EntityId;
use crate::layout::components::{
    arm_index_lookup, find_arm_index, find_by_id, keys_distinct, lookup, Arm, Connection, EndPoint, Segment,
    SpawnPoint,
};
use crate::layout::components::DestinationWeights;
use crate::simulation::random::{weight_sum, weighted_choice_weights, weighted_index_new, weighted_index_sample};
use rand::rngs::StdRng;
use vstd::arithmetic::div_mod::{
    lemma_div_is_ordered, lemma_fundamental_div_mod, lemma_fundamental_div_mod_converse, lemma_mod_pos_bound,
};
use vstd::prelude::*;

verus! {

/// Why no route could be found.
#[derive(Clone, Copy, Debug, PartialEq, Eq, Structural)]
pub enum RouteError {
    /// The route grew longer than the number of segments, so it loops.
    RouteTooLong { route_length: usize, number_of_segments: usize },
    /// A segment entity has no `Segment`.
    MissingSegment { segment_id: EntityId },
    /// An end point entity has no `EndPoint`.
    MissingEndPoint { end_point_id: EntityId },
    /// An arm entity has no `Arm`.
    MissingArm { arm_id: EntityId },
    /// The route reached an end point of another arm than the wanted one.
    EndPointMismatch,
}

/// What the route does after the segment it has reached.
pub enum RouteStep {
    /// It continues onto this segment.
    Next(EntityId),
    /// It has reached an end point of the wanted arm.
    Arrive,
    /// It cannot continue.
    Fail(RouteError),
}

/// The step a route to arm `end_arm_index` takes after segment `segment_id`.
pub open spec fn route_step(
    arms: Seq<(EntityId, Arm)>,
    end_points: Seq<(EntityId, EndPoint)>,
    segments: Seq<(EntityId, Segment)>,
    end_arm_index: usize,
    segment_id: EntityId,
) -> RouteStep {
    match lookup(segments, segment_id) {
        None => RouteStep::Fail(RouteError::MissingSegment { segment_id }),
        Some(segment) => match segment.connection {
            Connection::Direct { next_segment_id } => RouteStep::Next(next_segment_id),
            Connection::Merge { next_segment_id } => RouteStep::Next(next_segment_id),
            Connection::Diverge { exit_arm_index, exit_segment_id, circulating_segment_id } => {
                if exit_arm_index == end_arm_index {
                    RouteStep::Next(exit_segment_id)
                } else {
                    RouteStep::Next(circulating_segment_id)
                }
            },
            Connection::EndPoint { end_point_id } => match lookup(end_points, end_point_id) {
                None => RouteStep::Fail(RouteError::MissingEndPoint { end_point_id }),
                Some(end_point) => match arm_index_lookup(arms, end_point.arm) {
                    None => RouteStep::Fail(RouteError::MissingArm { arm_id: end_point.arm }),
                    Some(index) => if index == end_arm_index {
                        RouteStep::Arrive
                    } else {
                        RouteStep::Fail(RouteError::EndPointMismatch)
                    },
                },
            },
        },
    }
}

/// The outcome of following the connections from the last segment of `route`
/// until an end point of arm `end_arm_index` is reached.
pub open spec fn route_from(
    arms: Seq<(EntityId, Arm)>,
    end_points: Seq<(EntityId, EndPoint)>,
    segments: Seq<(EntityId, Segment)>,
    end_arm_index: usize,
    route: Seq<EntityId>,
) -> Result<Seq<EntityId>, RouteError>
    decreases segments.len() + 1 - route.len(),
{
    if route.len() > segments.len() {
        Err(
            RouteError::RouteTooLong {
                route_length: route.len() as usize,
                number_of_segments: segments.len() as usize,
            },
        )
    } else {
        match route_step(arms, end_points, segments, end_arm_index, route.last()) {
            RouteStep::Next(next) => route_from(
                arms,
                end_points,
                segments,
                end_arm_index,
                route.push(next),
            ),
            RouteStep::Arrive => Ok(route),
            RouteStep::Fail(error) => Err(error),
        }
    }
}

/// Computes the route for a vehicle to follow from `spawn_point` to an end point of
/// the arm with index `end_arm_index`, following the segments' connections.
///
/// Assumes that the lane index is constant throughout the route.
pub fn calculate_route(
    arms: &Vec<(EntityId, Arm)>,
    end_points: &Vec<(EntityId, EndPoint)>,
    segments: &Vec<(EntityId, Segment)>,
    spawn_point: &SpawnPoint,
    end_arm_index: usize,
) -> (r: Result<Vec<EntityId>, RouteError>)
    ensures
        match r {
            Ok(route) => route_from(
                arms@,
                end_points@,
                segments@,
                end_arm_index,
                seq![spawn_point.segment],
            ) == Ok::<Seq<EntityId>, RouteError>(route@),
            Err(error) => route_from(
                arms@,
                end_points@,
                segments@,
                end_arm_index,
                seq![spawn_point.segment],
            ) == Err::<Seq<EntityId>, RouteError>(error),
        },
{
    let start_segment_id = spawn_point.segment();
    let mut route: Vec<EntityId> = Vec::new();
    route.push(start_segment_id);
    assert(route@ == seq![spawn_point.segment]);
    let number_of_segments = segments.len();
    loop
        invariant
            route@.len() >= 1,
            number_of_segments == segments@.len(),
            route_from(arms@, end_points@, segments@, end_arm_index, route@) == route_from(
                arms@,
                end_points@,
                segments@,
                end_arm_index,
                seq![spawn_point.segment],
            ),
        ensures
            route_from(
                arms@,
                end_points@,
                segments@,
                end_arm_index,
                seq![spawn_point.segment],
            ) == Ok::<Seq<EntityId>, RouteError>(route@),
        decreases number_of_segments + 1 - route@.len(),
    {
        let route_segment_length = route.len();
        if route_segment_length > number_of_segments {
            return Err(
                RouteError::RouteTooLong {
                    route_length: route_segment_length,
                    number_of_segments,
                },
            );
        }
        let current_segment_id = route[route.len() - 1];
        let current_segment = match find_by_id(segments, current_segment_id) {
            Some(segment) => segment,
            None => {
                return Err(RouteError::MissingSegment { segment_id: current_segment_id });
            },
        };
        match current_segment.connection() {
            Connection::Direct { next_segment_id } => {
                route.push(next_segment_id);
            },
            Connection::Diverge { exit_arm_index, exit_segment_id, circulating_segment_id } => {
                if exit_arm_index == end_arm_index {
                    route.push(exit_segment_id);
                } else {
                    route.push(circulating_segment_id);
                }
            },
            Connection::EndPoint { end_point_id } => {
                let end_point = match find_by_id(end_points, end_point_id) {
                    Some(end_point) => end_point,
                    None => {
                        return Err(RouteError::MissingEndPoint { end_point_id });
                    },
                };
                let arm_index = match find_arm_index(arms, end_point.arm()) {
                    Some(index) => index,
                    None => {
                        return Err(RouteError::MissingArm { arm_id: end_point.arm });
                    },
                };
                if arm_index == end_arm_index {
                    break ;
                } else {
                    return Err(RouteError::EndPointMismatch);
                }
            },
            Connection::Merge { next_segment_id } => {
                route.push(next_segment_id);
            },
        }
    }
    Ok(route)
}

/// The second components of `weights`: the weight of each destination.
pub open spec fn weight_values(weights: Seq<(EntityId, u32)>) -> Seq<u32> {
    weights.map_values(|entry: (EntityId, u32)| entry.1)
}

/// The weights of `destination_weights`, in order.
pub fn destination_weight_values(destination_weights: &DestinationWeights) -> (r: Vec<u32>)
    ensures
        r@ == weight_values(destination_weights@),
{
    let mut weights: Vec<u32> = Vec::new();
    let mut i: usize = 0;
    while i < destination_weights.len()
        invariant
            0 <= i <= destination_weights@.len(),
            weights@ == weight_values(destination_weights@).take(i as int),
        decreases destination_weights.len() - i,
    {
        let (_, weight) = destination_weights[i];
        weights.push(weight);
        assert(weights@ =~= weight_values(destination_weights@).take(i + 1));
        i = i + 1;
    }
    assert(weights@ =~= weight_values(destination_weights@));
    weights
}

/// The destination at position `index` of `destination_weights`.
pub fn destination_at(destination_weights: &DestinationWeights, index: usize) -> (r: EntityId)
    requires
        index < destination_weights@.len(),
    ensures
        r == destination_weights@[index as int].0,
{
    destination_weights[index].0
}

/// Selects a destination arm at random, with a chance proportional to its weight.
///
/// The weights, in order, make a weighted distribution over their positions; the
/// position drawn from it picks the destination at that position. The drawn position is
/// one whose weight is positive; which one it is depends on the generator.
pub fn select_destination_arm(spawner_rng: &mut StdRng, destination_weights: &DestinationWeights) -> (r:
    EntityId)
    requires
        destination_weights@.len() > 0,
        keys_distinct(destination_weights@),
        0 < weight_sum(weight_values(destination_weights@)) <= u32::MAX,
    ensures
        exists|i: int|
            0 <= i < destination_weights@.len() && destination_weights@[i].0 == r
                && destination_weights@[i].1 > 0,
{
    let weights = destination_weight_values(destination_weights);
    let distribution = match weighted_index_new(&weights) {
        Ok(distribution) => distribution,
        Err(_) => {
            proof {
                assert(false);
            }
            return destination_at(destination_weights, 0);
        },
    };
    let selected_index = weighted_index_sample(&distribution, spawner_rng);
    assert(destination_weights@[selected_index as int].1 == weights@[selected_index as int]);
    destination_at(destination_weights, selected_index)
}

/// The 1-based rank of the exit at arm `exit_arm_index` for a vehicle entering at
/// arm `entry_arm_index` (0 for a U-turn).
pub open spec fn exit_rank(entry_arm_index: int, exit_arm_index: int, number_of_arms: int) -> int {
    (exit_arm_index + number_of_arms - entry_arm_index) % number_of_arms
}

/// `numerator / denominator`, rounded to the nearest integer, halves away from zero
/// (for a non-negative numerator and a positive denominator).
pub open spec fn round_ratio(numerator: int, denominator: int) -> int {
    (2 * numerator + denominator) / (2 * denominator)
}

/// The lane for an exit of rank `rank` out of `max_rank` on a roundabout with
/// `number_of_lanes` lanes: the outermost lane (`number_of_lanes - 1`) for the first
/// exit and the innermost (0) for the last, in between by the square of the exit's
/// progress `(rank - 1) / (max_rank - 1)`, rounded.
pub open spec fn lane_for_rank(rank: int, max_rank: int, number_of_lanes: int) -> int {
    if max_rank - 1 == 0 {
        number_of_lanes - 1
    } else {
        number_of_lanes - 1 - round_ratio(
            (rank - 1) * (rank - 1) * (number_of_lanes - 1),
            (max_rank - 1) * (max_rank - 1),
        )
    }
}

/// The lane that a vehicle entering at `entry_arm_index` and exiting at `exit_arm_index`
/// uses: lane 0 on a single-lane roundabout; otherwise the lane for its exit rank,
/// where a U-turn shares the highest rank with the last exit.
pub open spec fn spec_select_lane_index(
    entry_arm_index: int,
    exit_arm_index: int,
    number_of_arms: int,
    number_of_lanes: int,
) -> int {
    if number_of_lanes <= 1 {
        0
    } else {
        let max_rank = number_of_arms - 1;
        let exit = exit_rank(entry_arm_index, exit_arm_index, number_of_arms);
        let rank = if exit == 0 || exit > max_rank {
            max_rank
        } else {
            exit
        };
        lane_for_rank(rank, max_rank, number_of_lanes)
    }
}

/// Returns the 1-based exit rank for a vehicle travelling from `entry_arm` to `exit_arm`.
pub fn get_exit_rank(entry_arm: &Arm, exit_arm: &Arm, number_of_arms: usize) -> (r: usize)
    requires
        number_of_arms > 0,
        exit_arm.index + number_of_arms <= usize::MAX,
        entry_arm.index <= exit_arm.index + number_of_arms,
    ensures
        r == exit_rank(entry_arm.index as int, exit_arm.index as int, number_of_arms as int),
{
    (exit_arm.index() + number_of_arms - entry_arm.index()) % number_of_arms
}

/// Selects the lane for a vehicle entering at `entry_arm` and exiting at `exit_arm`:
/// nearer exits use outer lanes, farther exits (and U-turns) inner lanes.
pub fn select_lane_index(entry_arm: &Arm, exit_arm: &Arm, number_of_arms: usize, number_of_lanes: usize) -> (r:
    usize)
    requires
        lane_selection_defined(entry_arm.index as int, exit_arm.index as int, number_of_arms as int, number_of_lanes as int),
    ensures
        r == spec_select_lane_index(
            entry_arm.index as int,
            exit_arm.index as int,
            number_of_arms as int,
            number_of_lanes as int,
        ),
        number_of_lanes > 0 ==> r < number_of_lanes,
{
    select_lane_index_of(entry_arm.index(), exit_arm.index(), number_of_arms, number_of_lanes)
}

/// The inputs on which the lane selection is defined: the exit rank can be computed
/// without overflow and there are at least two arms (where there is more than one lane).
pub open spec fn lane_selection_defined(
    entry_arm_index: int,
    exit_arm_index: int,
    number_of_arms: int,
    number_of_lanes: int,
) -> bool {
    number_of_lanes > 1 ==> {
        &&& number_of_arms >= 2
        &&& exit_arm_index + number_of_arms <= usize::MAX
        &&& entry_arm_index <= exit_arm_index + number_of_arms
    }
}

/// Splits `p * p * l` by `s * s` from the quotients and remainders of the steps in which
/// `rounded_square_share` divides it, and rounds the quotient as `round_ratio` does.
proof fn lemma_rounded_square_share(p: int, s: int, l: int, t: int, u: int, a: int, b: int, k: int, e: int)
    requires
        0 <= p <= s,
        s > 0,
        0 <= l,
        p * l == t * s + u,
        p * t == a * s + b,
        b * s + p * u == k * (s * s) + e,
        0 <= e < s * s,
    ensures
        round_ratio(p * p * l, s * s) == a + k + (if e >= s * s - e { 1int } else { 0int }),
{
    let big = s * s;
    assert(p * p * l == (a + k) * big + e) by (nonlinear_arith)
        requires
            p * l == t * s + u,
            p * t == a * s + b,
            b * s + p * u == k * big + e,
            big == s * s,
    ;
    let x = 2 * (p * p * l) + big;
    if e >= big - e {
        assert(x == (a + k + 1) * (2 * big) + (2 * e - big)) by (nonlinear_arith)
            requires
                p * p * l == (a + k) * big + e,
                x == 2 * (p * p * l) + big,
        ;
        lemma_fundamental_div_mod_converse(x, 2 * big, a + k + 1, 2 * e - big);
    } else {
        assert(x == (a + k) * (2 * big) + (2 * e + big)) by (nonlinear_arith)
            requires
                p * p * l == (a + k) * big + e,
                x == 2 * (p * p * l) + big,
        ;
        lemma_fundamental_div_mod_converse(x, 2 * big, a + k, 2 * e + big);
    }
}

/// `round_ratio(p * p * l, s * s)` for 64-bit `p <= s` and `l`, computed in 128 bits:
/// `p * l` is divided by `s`, then `p` times that quotient by `s` again, and the two
/// remainders are combined, so that no product exceeds 128 bits.
fn rounded_square_share(p: u128, s: u128, l: u128) -> (r: u128)
    requires
        p <= s,
        0 < s < 0x1_0000_0000_0000_0000,
        l < 0x1_0000_0000_0000_0000,
    ensures
        r == round_ratio(p * p * l, s * s),
        r <= l,
{
    proof {
        assert(p * l < 0x1_0000_0000_0000_0000 * 0x1_0000_0000_0000_0000) by (nonlinear_arith)
            requires
                p < 0x1_0000_0000_0000_0000,
                l < 0x1_0000_0000_0000_0000,
        ;
    }
    let pl = p * l;
    let t = pl / s;
    let u = pl % s;
    proof {
        lemma_fundamental_div_mod(pl as int, s as int);
        lemma_mod_pos_bound(pl as int, s as int);
        assert(pl == t * s + u) by (nonlinear_arith)
            requires
                pl == s * t + u,
        ;
        assert(t <= l) by (nonlinear_arith)
            requires
                pl == p * l,
                pl == s * t + u,
                0 <= u,
                p <= s,
                s > 0,
        ;
        assert(p * t < 0x1_0000_0000_0000_0000 * 0x1_0000_0000_0000_0000) by (nonlinear_arith)
            requires
                p < 0x1_0000_0000_0000_0000,
                t < 0x1_0000_0000_0000_0000,
        ;
    }
    let pt = p * t;
    let a = pt / s;
    let b = pt % s;
    proof {
        lemma_fundamental_div_mod(pt as int, s as int);
        lemma_mod_pos_bound(pt as int, s as int);
        assert(pt == a * s + b) by (nonlinear_arith)
            requires
                pt == s * a + b,
        ;
        assert(b * s < s * s && p * u < s * s && s * s < 0x1_0000_0000_0000_0000 * 0x1_0000_0000_0000_0000)
            by (nonlinear_arith)
            requires
                b < s,
                u < s,
                p <= s,
                s < 0x1_0000_0000_0000_0000,
        ;
    }
    let c = b * s;
    let d = p * u;
    let big = s * s;
    // c + d, reduced below s * s, as k * (s * s) + e.
    let (k, e) = if c >= big - d {
        (1u128, c - (big - d))
    } else {
        (0u128, c + d)
    };
    let up: u128 = if e >= big - e {
        1
    } else {
        0
    };
    proof {
        lemma_rounded_square_share(
            p as int,
            s as int,
            l as int,
            t as int,
            u as int,
            a as int,
            b as int,
            k as int,
            e as int,
        );
        assert(p * p * l <= s * s * l) by (nonlinear_arith)
            requires
                p <= s,
        ;
        assert(round_ratio(p * p * l, s * s) <= l) by (nonlinear_arith)
            requires
                p * p * l <= s * s * l,
                s * s > 0,
                0 <= p * p * l,
        ;
        assert(a <= t) by (nonlinear_arith)
            requires
                pt == p * t,
                pt == s * a + b,
                0 <= b,
                p <= s,
                s > 0,
        ;
    }
    a + k + up
}

/// Selects the lane for a vehicle entering at the arm with index `entry_arm_index` and
/// exiting at the arm with index `exit_arm_index`.
pub fn select_lane_index_of(
    entry_arm_index: usize,
    exit_arm_index: usize,
    number_of_arms: usize,
    number_of_lanes: usize,
) -> (r: usize)
    requires
        lane_selection_defined(entry_arm_index as int, exit_arm_index as int, number_of_arms as int, number_of_lanes as int),
    ensures
        r == spec_select_lane_index(
            entry_arm_index as int,
            exit_arm_index as int,
            number_of_arms as int,
            number_of_lanes as int,
        ),
        number_of_lanes > 0 ==> r < number_of_lanes,
{
    // Single-lane roundabouts always use lane 0.
    if number_of_lanes <= 1 {
        return 0;
    }
    let exit_rank = (exit_arm_index + number_of_arms - entry_arm_index) % number_of_arms;
    let max_rank = number_of_arms - 1;
    // U-turns share the highest rank with the final exit.
    let rank = if exit_rank == 0 || exit_rank > max_rank {
        max_rank
    } else {
        exit_rank
    };
    let steps = (max_rank - 1) as u128;
    if steps == 0 {
        return number_of_lanes - 1;
    }
    let progress = (rank - 1) as u128;
    let lanes_minus_one = (number_of_lanes - 1) as u128;
    // The square of the progress adds a bias that delays the use of inner lanes.
    let inner_offset = rounded_square_share(progress, steps, lanes_minus_one);
    (number_of_lanes - 1) - inner_offset as usize
}

/// The first exit uses the outermost lane, and the last exit the innermost lane.
pub proof fn lemma_lane_for_first_and_last_exit(max_rank: int, number_of_lanes: int)
    requires
        max_rank >= 2,
        number_of_lanes >= 1,
    ensures
        lane_for_rank(1, max_rank, number_of_lanes) == number_of_lanes - 1,
        lane_for_rank(max_rank, max_rank, number_of_lanes) == 0,
{
    let d = max_rank - 1;
    let d2 = d * d;
    assert(d2 > 0) by (nonlinear_arith)
        requires
            d >= 1,
            d2 == d * d,
    ;
    assert((1 - 1) * (1 - 1) * (number_of_lanes - 1) == 0) by (nonlinear_arith);
    lemma_fundamental_div_mod_converse(2 * 0 + d2, 2 * d2, 0, d2);
    assert(2 * (d * d * (number_of_lanes - 1)) + d2 == (number_of_lanes - 1) * (2 * d2) + d2) by (nonlinear_arith)
        requires
            d2 == d * d,
    ;
    lemma_fundamental_div_mod_converse(
        2 * (d * d * (number_of_lanes - 1)) + d2,
        2 * d2,
        number_of_lanes - 1,
        d2,
    );
}

/// Farther exits never use outer lanes: the lane for an exit of a higher rank is the
/// same as, or inside, the lane for an exit of a lower rank.
pub proof fn lemma_lane_for_rank_monotone(rank_a: int, rank_b: int, max_rank: int, number_of_lanes: int)
    requires
        1 <= rank_a <= rank_b <= max_rank,
        number_of_lanes >= 1,
    ensures
        lane_for_rank(rank_a, max_rank, number_of_lanes) >= lane_for_rank(
            rank_b,
            max_rank,
            number_of_lanes,
        ),
{
    let d = max_rank - 1;
    if d != 0 {
        let na = (rank_a - 1) * (rank_a - 1) * (number_of_lanes - 1);
        let nb = (rank_b - 1) * (rank_b - 1) * (number_of_lanes - 1);
        assert(na <= nb) by (nonlinear_arith)
            requires
                1 <= rank_a <= rank_b,
                number_of_lanes >= 1,
                na == (rank_a - 1) * (rank_a - 1) * (number_of_lanes - 1),
                nb == (rank_b - 1) * (rank_b - 1) * (number_of_lanes - 1),
        ;
        assert(d * d > 0) by (nonlinear_arith)
            requires
                d >= 1,
        ;
        lemma_div_is_ordered(2 * na + d * d, 2 * nb + d * d, 2 * (d * d));
    }
}

/// A U-turn uses the same lane as the last exit, and on a single-lane roundabout every
/// vehicle uses lane 0.
pub proof fn lemma_u_turn_shares_last_exit_lane(
    entry_arm_index: int,
    number_of_arms: int,
    number_of_lanes: int,
)
    requires
        0 <= entry_arm_index < number_of_arms,
        number_of_arms >= 2,
    ensures
        spec_select_lane_index(entry_arm_index, entry_arm_index, number_of_arms, number_of_lanes)
            == spec_select_lane_index(
            entry_arm_index,
            if entry_arm_index == 0 {
                number_of_arms - 1
            } else {
                entry_arm_index - 1
            },
            number_of_arms,
            number_of_lanes,
        ),
        number_of_lanes <= 1 ==> spec_select_lane_index(
            entry_arm_index,
            entry_arm_index,
            number_of_arms,
            number_of_lanes,
        ) == 0,
{
    let last = if entry_arm_index == 0 {
        number_of_arms - 1
    } else {
        entry_arm_index - 1
    };
    lemma_fundamental_div_mod_converse(entry_arm_index + number_of_arms - entry_arm_index, number_of_arms, 1, 0);
    if entry_arm_index == 0 {
        lemma_fundamental_div_mod_converse(last + number_of_arms - entry_arm_index, number_of_arms, 1, number_of_arms - 1);
    } else {
        lemma_fundamental_div_mod_converse(last + number_of_arms - entry_arm_index, number_of_arms, 0, number_of_arms - 1);
    }
}

/// Why destination weights cannot be chosen from.
#[derive(Clone, Copy, Debug, PartialEq, Eq, Structural)]
pub enum DestinationWeightsError {
    /// There is no destination.
    Empty,
    /// A destination occurs twice.
    RepeatedDestination,
    /// Every weight is zero.
    AllZero,
    /// The weights sum to more than a `u32` holds.
    Overflow,
}

/// Whether no destination occurs twice in `destination_weights`.
fn destinations_are_distinct(destination_weights: &DestinationWeights) -> (r: bool)
    ensures
        r == keys_distinct(destination_weights@),
{
    let n = destination_weights.len();
    let mut i: usize = 0;
    while i < n
        invariant
            0 <= i <= n,
            n == destination_weights@.len(),
            forall|a: int, b: int|
                0 <= a < i && 0 <= b < n && a != b ==> destination_weights@[a].0 != destination_weights@[b].0,
        decreases n - i,
    {
        let mut j: usize = 0;
        while j < n
            invariant
                0 <= i < n,
                0 <= j <= n,
                n == destination_weights@.len(),
                forall|a: int, b: int|
                    0 <= a < i && 0 <= b < n && a != b ==> destination_weights@[a].0 != destination_weights@[b].0,
                forall|b: int| 0 <= b < j && b != i ==> destination_weights@[i as int].0 != destination_weights@[b].0,
            decreases n - j,
        {
            if j != i && destination_weights[i].0 == destination_weights[j].0 {
                assert(!keys_distinct(destination_weights@));
                return false;
            }
            j = j + 1;
        }
        i = i + 1;
    }
    true
}

/// Checks that a destination can be chosen from `destination_weights`, as
/// `select_destination_arm` expects: there is a destination, no destination occurs twice,
/// and the weights sum to a positive number that a `u32` holds (checked in that order).
pub fn check_destination_weights(destination_weights: &DestinationWeights) -> (r: Result<(), DestinationWeightsError>)
    ensures
        match r {
            Ok(()) => destination_weights@.len() > 0 && keys_distinct(destination_weights@) && 0
                < weight_sum(weight_values(destination_weights@)) <= u32::MAX,
            Err(DestinationWeightsError::Empty) => destination_weights@.len() == 0,
            Err(DestinationWeightsError::RepeatedDestination) => destination_weights@.len() > 0
                && !keys_distinct(destination_weights@),
            Err(DestinationWeightsError::AllZero) => destination_weights@.len() > 0 && keys_distinct(
                destination_weights@,
            ) && weight_sum(weight_values(destination_weights@)) == 0,
            Err(DestinationWeightsError::Overflow) => keys_distinct(destination_weights@) && weight_sum(
                weight_values(destination_weights@),
            ) > u32::MAX,
        },
{
    if destination_weights.len() == 0 {
        return Err(DestinationWeightsError::Empty);
    }
    if !destinations_are_distinct(destination_weights) {
        return Err(DestinationWeightsError::RepeatedDestination);
    }
    let mut total: u32 = 0;
    let mut i: usize = 0;
    while i < destination_weights.len()
        invariant
            0 <= i <= destination_weights@.len(),
            total == weight_sum(weight_values(destination_weights@).take(i as int)),
            keys_distinct(destination_weights@),
        decreases destination_weights.len() - i,
    {
        let (_, weight) = destination_weights[i];
        let ghost values = weight_values(destination_weights@);
        assert(values.take(i + 1).drop_last() =~= values.take(i as int));
        match total.checked_add(weight) {
            Some(sum) => {
                total = sum;
            },
            None => {
                proof {
                    lemma_weight_sum_prefix(values, i + 1);
                }
                return Err(DestinationWeightsError::Overflow);
            },
        }
        i = i + 1;
    }
    assert(weight_values(destination_weights@).take(i as int) =~= weight_values(destination_weights@));
    if total == 0 {
        Err(DestinationWeightsError::AllZero)
    } else {
        Ok(())
    }
}

/// The sum of a prefix of weights is at most the sum of all of them.
proof fn lemma_weight_sum_prefix(weights: Seq<u32>, n: int)
    requires
        0 <= n <= weights.len(),
    ensures
        weight_sum(weights.take(n)) <= weight_sum(weights),
    decreases weights.len(),
{
    if n < weights.len() {
        assert(weights.drop_last().take(n) =~= weights.take(n));
        lemma_weight_sum_prefix(weights.drop_last(), n);
    } else {
        assert(weights.take(n) =~= weights);
    }
}

} // verus!
