//! Where a vehicle approaching an entry stands relative to the yield point of its lane.

use crate::EntityId;
use crate::layout::components::{entry_deflection_from, find_by_id, find_entry_deflection, lookup, Segment, SegmentType};
use vstd::prelude::*;

verus! {

/// Where the yield point of a vehicle's entry lane lies, seen from the vehicle.
#[derive(Clone, Copy, Debug, PartialEq, Eq, Structural)]
pub enum YieldApproach {
    /// On the vehicle's current segment.
    OnCurrentSegment,
    /// On the entry deflection `deflection_id` that the vehicle's entry line leads into.
    OnEntryDeflection { deflection_id: EntityId },
    /// On neither: the vehicle counts as being at the yield point.
    Elsewhere,
}

/// A vehicle approaching the yield point of the entry lane `entry_lane_index` of the
/// arm with index `entry_arm_index`.
#[derive(Clone, Copy, Debug, PartialEq, Eq, Structural)]
pub struct YieldContext {
    pub entry_arm_index: usize,
    pub entry_lane_index: usize,
    pub approach: YieldApproach,
}

/// Why the approach to a yield point cannot be told.
#[derive(Clone, Copy, Debug, PartialEq, Eq, Structural)]
pub enum YieldContextError {
    /// The vehicle's entry line leads into no entry deflection.
    MissingEntryDeflection,
}

/// The context of a vehicle on `segment` with the yield point ahead as `approach`.
pub open spec fn context_on(segment: Segment, approach: YieldApproach) -> YieldContext {
    YieldContext { entry_arm_index: segment.arm_index, entry_lane_index: segment.lane_index, approach }
}

/// Where a vehicle on the segment `current_segment_id` stands relative to the yield point
/// of its arm and lane, which lies on `yield_segment_id` (`None` where that lane has no
/// yield point): on an entry line, the yield point is on it, on the entry deflection it
/// leads into, or elsewhere; on an entry deflection, only a yield point on it counts;
/// elsewhere the vehicle approaches no yield point.
pub open spec fn spec_yield_context(
    segments: Seq<(EntityId, Segment)>,
    current_segment_id: EntityId,
    yield_segment_id: Option<EntityId>,
) -> Result<Option<YieldContext>, YieldContextError> {
    match lookup(segments, current_segment_id) {
        Some(segment) => if segment.segment_type == SegmentType::EntryLine {
            match entry_deflection_from(segments, segment.arm_id, segment.lane_index, 0) {
                None => Err(YieldContextError::MissingEntryDeflection),
                Some((deflection_id, _)) => match yield_segment_id {
                    None => Ok(None),
                    Some(yield_segment) => Ok(
                        Some(
                            context_on(
                                segment,
                                if yield_segment == current_segment_id {
                                    YieldApproach::OnCurrentSegment
                                } else if yield_segment == deflection_id {
                                    YieldApproach::OnEntryDeflection { deflection_id }
                                } else {
                                    YieldApproach::Elsewhere
                                },
                            ),
                        ),
                    ),
                },
            }
        } else if segment.segment_type == SegmentType::EntryDeflection && yield_segment_id == Some(
            current_segment_id,
        ) {
            Ok(Some(context_on(segment, YieldApproach::OnCurrentSegment)))
        } else {
            Ok(None)
        },
        None => Ok(None),
    }
}

/// Tells where a vehicle on the segment `current_segment_id` stands relative to the
/// yield point of its arm and lane, which lies on `yield_segment_id` (`None` where that
/// lane has no yield point).
pub fn yield_context(
    segments: &Vec<(EntityId, Segment)>,
    current_segment_id: EntityId,
    yield_segment_id: Option<EntityId>,
) -> (r: Result<Option<YieldContext>, YieldContextError>)
    ensures
        r == spec_yield_context(segments@, current_segment_id, yield_segment_id),
{
    let segment = match find_by_id(segments, current_segment_id) {
        Some(segment) => segment,
        None => {
            return Ok(None);
        },
    };
    let context = |approach: YieldApproach| -> (c: YieldContext)
        ensures
            c == context_on(segment, approach),
        { YieldContext { entry_arm_index: segment.arm_index, entry_lane_index: segment.lane_index, approach } };
    if segment.segment_type == SegmentType::EntryLine {
        let deflection_id = match find_entry_deflection(segments, segment.arm_id, segment.lane_index) {
            Some((deflection_id, _)) => deflection_id,
            None => {
                return Err(YieldContextError::MissingEntryDeflection);
            },
        };
        match yield_segment_id {
            None => Ok(None),
            Some(yield_segment) => {
                let approach = if yield_segment == current_segment_id {
                    YieldApproach::OnCurrentSegment
                } else if yield_segment == deflection_id {
                    YieldApproach::OnEntryDeflection { deflection_id }
                } else {
                    YieldApproach::Elsewhere
                };
                Ok(Some(context(approach)))
            },
        }
    } else if segment.segment_type == SegmentType::EntryDeflection && yield_segment_id == Some(
        current_segment_id,
    ) {
        Ok(Some(context(YieldApproach::OnCurrentSegment)))
    } else {
        Ok(None)
    }
}

/// A vehicle approaches a yield point only from an entry line or an entry deflection of
/// the entry that the yield point belongs to, and the approach says where that yield
/// point lies: on the vehicle's current segment, or on the entry deflection that its
/// entry line leads into, or (only from an entry line) on neither. Where the lane has a
/// yield point on the vehicle's entry line or on the deflection it leads into, the
/// vehicle approaches it.
pub proof fn lemma_yield_approach_locates_yield_point(
    segments: Seq<(EntityId, Segment)>,
    current_segment_id: EntityId,
    yield_segment_id: Option<EntityId>,
)
    ensures
        ({
            let r = spec_yield_context(segments, current_segment_id, yield_segment_id);
            let current = lookup(segments, current_segment_id);
            &&& (r is Ok && r->Ok_0 is Some) ==> {
                let context = r->Ok_0->Some_0;
                &&& current is Some
                &&& yield_segment_id is Some
                &&& context.entry_arm_index == current->Some_0.arm_index
                &&& context.entry_lane_index == current->Some_0.lane_index
                &&& (current->Some_0.segment_type == SegmentType::EntryLine || current->Some_0.segment_type
                    == SegmentType::EntryDeflection)
                &&& (context.approach == YieldApproach::OnCurrentSegment <==> yield_segment_id == Some(
                    current_segment_id,
                ))
                &&& context.approach is OnEntryDeflection ==> {
                    let deflection_id = context.approach->deflection_id;
                    &&& current->Some_0.segment_type == SegmentType::EntryLine
                    &&& yield_segment_id == Some(deflection_id)
                    &&& deflection_id != current_segment_id
                    &&& entry_deflection_from(
                        segments,
                        current->Some_0.arm_id,
                        current->Some_0.lane_index,
                        0,
                    ) is Some
                    &&& entry_deflection_from(
                        segments,
                        current->Some_0.arm_id,
                        current->Some_0.lane_index,
                        0,
                    )->Some_0.0 == deflection_id
                }
                &&& context.approach == YieldApproach::Elsewhere ==> current->Some_0.segment_type
                    == SegmentType::EntryLine
            }
            &&& (current is Some && current->Some_0.segment_type != SegmentType::EntryLine
                && current->Some_0.segment_type != SegmentType::EntryDeflection) ==> r == Ok::<
                Option<YieldContext>,
                YieldContextError,
            >(None)
            &&& (current is Some && current->Some_0.segment_type == SegmentType::EntryLine && entry_deflection_from(
                segments,
                current->Some_0.arm_id,
                current->Some_0.lane_index,
                0,
            ) is Some && yield_segment_id is Some) ==> (r is Ok && r->Ok_0 is Some)
            &&& (current is Some && current->Some_0.segment_type == SegmentType::EntryDeflection
                && yield_segment_id == Some(current_segment_id)) ==> (r is Ok && r->Ok_0 is Some)
        }),
{
}

} // verus!
