//! The blueprint of a roundabout: the checks on its dimensions and the order of its arms.

use vstd::prelude::*;

verus! {

/// Why a blueprint cannot be made.
#[derive(Clone, Copy, Debug, PartialEq, Eq, Structural)]
pub enum BlueprintError {
    /// The number of arms must be between 3 and 6 inclusive.
    ArmCount { found: usize },
    /// The number of lanes must be between 1 and 3 inclusive.
    LaneCount { found: usize },
    /// A roundabout of 3 arms has at most 2 lanes.
    LanesForThreeArms { found: usize },
}

/// `order` holds each of `0..n` exactly once.
pub open spec fn is_permutation_of_indices(order: Seq<usize>, n: int) -> bool {
    &&& order.len() == n
    &&& forall|i: int| 0 <= i < n ==> #[trigger] order[i] < n
    &&& forall|i: int, j: int| 0 <= i < n && 0 <= j < n && i != j ==> #[trigger] order[i] != #[trigger] order[j]
}

/// `order` lists the positions of `keys` from the greatest key to the least, positions
/// with equal keys in the order they were given.
pub open spec fn is_reverse_key_order(keys: Seq<i64>, order: Seq<usize>) -> bool {
    &&& is_permutation_of_indices(order, keys.len() as int)
    &&& forall|i: int, j: int|
        0 <= i < j < order.len() ==> keys[order[i] as int] >= keys[order[j] as int]
    &&& forall|i: int, j: int|
        0 <= i < j < order.len() && keys[order[i] as int] == keys[order[j] as int] ==> order[i]
            < order[j]
}

/// The positions of `angle_keys` in reverse angle order: from the greatest angle to the
/// least, arms with equal angles in the order they were given (a stable sort).
///
/// `angle_keys` are integers that order as the arms' angles do.
pub fn reverse_angle_order(angle_keys: &Vec<i64>) -> (r: Vec<usize>)
    ensures
        is_reverse_key_order(angle_keys@, r@),
{
    let n = angle_keys.len();
    let mut order: Vec<usize> = Vec::new();
    let mut k: usize = 0;
    // Insertion sort of the positions 0..k by key, descending, stable.
    while k < n
        invariant
            0 <= k <= n,
            n == angle_keys@.len(),
            order@.len() == k,
            forall|i: int| 0 <= i < k ==> #[trigger] order@[i] < k,
            forall|i: int, j: int|
                0 <= i < k && 0 <= j < k && i != j ==> #[trigger] order@[i] != #[trigger] order@[j],
            forall|i: int, j: int|
                0 <= i < j < k ==> angle_keys@[order@[i] as int] >= angle_keys@[order@[j] as int],
            forall|i: int, j: int|
                0 <= i < j < k && angle_keys@[order@[i] as int] == angle_keys@[order@[j] as int]
                    ==> order@[i] < order@[j],
        decreases n - k,
    {
        let key = angle_keys[k];
        // The new position goes after every position with a key at least as great.
        let mut p: usize = 0;
        while p < order.len() && angle_keys[order[p]] >= key
            invariant
                0 <= p <= order@.len(),
                order@.len() == k,
                k < n,
                n == angle_keys@.len(),
                key == angle_keys@[k as int],
                forall|i: int| 0 <= i < k ==> #[trigger] order@[i] < k,
                forall|i: int| 0 <= i < p ==> angle_keys@[#[trigger] order@[i] as int] >= key,
            decreases order@.len() - p,
        {
            p = p + 1;
        }
        proof {
            // Every position from p on has a smaller key than the new one.
            assert forall|i: int| p <= i < k implies angle_keys@[#[trigger] order@[i] as int] < key by {
                if p < k {
                    assert(angle_keys@[order@[p as int] as int] < key);
                    if i > p {
                        assert(angle_keys@[order@[p as int] as int] >= angle_keys@[order@[i] as int]);
                    }
                }
            }
        }
        let ghost before = order@;
        order.insert(p, k);
        assert(order@ == before.insert(p as int, k));
        proof {
            assert forall|i: int| 0 <= i < k + 1 implies #[trigger] order@[i] < k + 1 by {
                if i < p {
                    assert(order@[i] == before[i]);
                } else if i > p {
                    assert(order@[i] == before[i - 1]);
                }
            }
            assert forall|i: int, j: int|
                0 <= i < k + 1 && 0 <= j < k + 1 && i != j implies #[trigger] order@[i]
                != #[trigger] order@[j] by {
                if i != p && j != p {
                    let bi = if i < p { i } else { i - 1 };
                    let bj = if j < p { j } else { j - 1 };
                    assert(order@[i] == before[bi]);
                    assert(order@[j] == before[bj]);
                } else if i == p {
                    let bj = if j < p { j } else { j - 1 };
                    assert(order@[j] == before[bj]);
                } else {
                    let bi = if i < p { i } else { i - 1 };
                    assert(order@[i] == before[bi]);
                }
            }
            assert forall|i: int, j: int|
                0 <= i < j < k + 1 implies angle_keys@[order@[i] as int] >= angle_keys@[order@[j] as int]
                && (angle_keys@[order@[i] as int] == angle_keys@[order@[j] as int] ==> order@[i]
                < order@[j]) by {
                if j < p {
                    assert(order@[i] == before[i] && order@[j] == before[j]);
                } else if j == p {
                    assert(order@[i] == before[i]);
                    assert(angle_keys@[before[i] as int] >= key);
                } else if i < p {
                    assert(order@[i] == before[i] && order@[j] == before[j - 1]);
                    if i < j - 1 {
                    }
                } else if i == p {
                    assert(order@[j] == before[j - 1]);
                    assert(angle_keys@[before[j - 1] as int] < key);
                } else {
                    assert(order@[i] == before[i - 1] && order@[j] == before[j - 1]);
                }
            }
        }
        k = k + 1;
    }
    order
}

/// Checks the dimensions of a roundabout: between 3 and 6 arms inclusive, between 1
/// and 3 lanes inclusive, and at most 2 lanes where there are 3 arms (checked in that
/// order).
pub fn check_dimensions(number_of_arms: usize, number_of_lanes: usize) -> (r: Result<(), BlueprintError>)
    ensures
        r == (if !(3 <= number_of_arms <= 6) {
            Err(BlueprintError::ArmCount { found: number_of_arms })
        } else if !(1 <= number_of_lanes <= 3) {
            Err(BlueprintError::LaneCount { found: number_of_lanes })
        } else if number_of_arms == 3 && number_of_lanes > 2 {
            Err(BlueprintError::LanesForThreeArms { found: number_of_lanes })
        } else {
            Ok(())
        }),
{
    if !(3 <= number_of_arms && number_of_arms <= 6) {
        Err(BlueprintError::ArmCount { found: number_of_arms })
    } else if !(1 <= number_of_lanes && number_of_lanes <= 3) {
        Err(BlueprintError::LaneCount { found: number_of_lanes })
    } else if number_of_arms == 3 && number_of_lanes > 2 {
        Err(BlueprintError::LanesForThreeArms { found: number_of_lanes })
    } else {
        Ok(())
    }
}

/// Checks the dimensions of a roundabout with arms of the given angle keys and
/// `number_of_lanes` lanes, and gives the order in which assembly expects its arms:
/// reverse angle order.
pub fn arrange_arms(angle_keys: &Vec<i64>, number_of_lanes: usize) -> (r: Result<Vec<usize>, BlueprintError>)
    ensures
        match r {
            Ok(order) => {
                &&& 3 <= angle_keys@.len() <= 6
                &&& 1 <= number_of_lanes <= 3
                &&& !(angle_keys@.len() == 3 && number_of_lanes > 2)
                &&& is_reverse_key_order(angle_keys@, order@)
            },
            Err(BlueprintError::ArmCount { found }) => found == angle_keys@.len() && !(3
                <= angle_keys@.len() <= 6),
            Err(BlueprintError::LaneCount { found }) => found == number_of_lanes && 3
                <= angle_keys@.len() <= 6 && !(1 <= number_of_lanes <= 3),
            Err(BlueprintError::LanesForThreeArms { found }) => found == number_of_lanes
                && angle_keys@.len() == 3 && number_of_lanes == 3,
        },
{
    match check_dimensions(angle_keys.len(), number_of_lanes) {
        Err(error) => Err(error),
        Ok(()) => Ok(reverse_angle_order(angle_keys)),
    }
}

} // verus!
