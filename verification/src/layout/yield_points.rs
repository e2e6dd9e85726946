//! Yield points: where entering vehicles yield to circulating traffic.

use crate::EntityId;
use crate::layout::components::{Connection, Segment, SegmentType};
use crate::layout::conflict_points::{first_conflict_point_index, ConflictPointIndex};
use vstd::prelude::*;

verus! {

/// Identifies the yield point of an entry lane of an arm.
#[derive(Clone, Copy, Debug, PartialEq, Eq, Hash, Structural)]
pub struct YieldPointIndex {
    pub arm_index: usize,
    /// The index of the entry (yielding) lane.
    pub lane_index: usize,
}

impl YieldPointIndex {
    pub fn new(arm_index: usize, lane_index: usize) -> (r: Self)
        ensures
            r == (YieldPointIndex { arm_index, lane_index }),
    {
        YieldPointIndex { arm_index, lane_index }
    }
}

/// An entry deflection that gets a yield point: the yield point of its arm and lane
/// stands before the first conflict point that its vehicles reach.
#[derive(Clone, Copy, Debug, PartialEq, Eq, Structural)]
pub struct YieldCandidate {
    pub entry_deflection_id: EntityId,
    pub index: YieldPointIndex,
    /// The conflict point with the outermost circulating lane.
    pub conflict_point_index: ConflictPointIndex,
}

/// The yield candidates among the segments from position `i` of `segments` on, in
/// order: the entry deflections that merge onto the circle and whose lane is not
/// outside the outermost circulating lane of a roundabout of `number_of_lanes` lanes.
pub open spec fn yield_candidates_from(
    segments: Seq<(EntityId, Segment)>,
    number_of_lanes: int,
    i: int,
) -> Seq<YieldCandidate>
    decreases segments.len() - i,
{
    if i < 0 || i >= segments.len() {
        Seq::empty()
    } else {
        let (id, segment) = segments[i];
        let rest = yield_candidates_from(segments, number_of_lanes, i + 1);
        if segment.segment_type == SegmentType::EntryDeflection && segment.connection is Merge
            && segment.lane_index <= number_of_lanes - 1 {
            seq![
                YieldCandidate {
                    entry_deflection_id: id,
                    index: YieldPointIndex { arm_index: segment.arm_index, lane_index: segment.lane_index },
                    conflict_point_index: ConflictPointIndex {
                        arm_index: segment.arm_index,
                        entry_lane_index: segment.lane_index,
                        circulating_lane_index: (number_of_lanes - 1) as usize,
                    },
                },
            ] + rest
        } else {
            rest
        }
    }
}

/// The entry deflections that get a yield point, with the index of their yield point
/// and of the first conflict point that their vehicles reach, in the order of `segments`.
/// Entry deflections that do not merge onto the circle, or whose lane lies outside the
/// outermost circulating lane, get none.
pub fn yield_point_candidates(segments: &Vec<(EntityId, Segment)>, number_of_lanes: usize) -> (r: Vec<
    YieldCandidate,
>)
    requires
        number_of_lanes >= 1,
    ensures
        r@ == yield_candidates_from(segments@, number_of_lanes as int, 0),
{
    let mut r: Vec<YieldCandidate> = Vec::new();
    let mut i: usize = 0;
    while i < segments.len()
        invariant
            0 <= i <= segments@.len(),
            number_of_lanes >= 1,
            r@ + yield_candidates_from(segments@, number_of_lanes as int, i as int)
                == yield_candidates_from(segments@, number_of_lanes as int, 0),
        decreases segments.len() - i,
    {
        let (id, segment) = segments[i];
        let ghost rest = yield_candidates_from(segments@, number_of_lanes as int, i + 1);
        let ghost before = r@;
        let merges = match segment.connection {
            Connection::Merge { .. } => true,
            _ => false,
        };
        if segment.segment_type == SegmentType::EntryDeflection && merges {
            match first_conflict_point_index(&segment, number_of_lanes) {
                Some((conflict_point_index, _)) => {
                    r.push(
                        YieldCandidate {
                            entry_deflection_id: id,
                            index: YieldPointIndex::new(segment.arm_index, segment.lane_index),
                            conflict_point_index,
                        },
                    );
                    assert(r@ + rest =~= before + yield_candidates_from(
                        segments@,
                        number_of_lanes as int,
                        i as int,
                    ));
                },
                None => {},
            }
        }
        i = i + 1;
    }
    assert(r@ =~= r@ + yield_candidates_from(segments@, number_of_lanes as int, i as int));
    r
}

} // verus!
