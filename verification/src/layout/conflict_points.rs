//! Conflict points: where entering lanes cross circulating lanes.

use crate::EntityId;
use crate::layout::components::{arm_index_lookup, find_arm_index, Arm, Segment, SegmentType};
use vstd::prelude::*;

verus! {

/// Identifies the conflict point between an entry lane and a circulating lane of an arm.
#[derive(Clone, Copy, Debug, PartialEq, Eq, Hash, Structural)]
pub struct ConflictPointIndex {
    pub arm_index: usize,
    /// The index of the entry lane.
    pub entry_lane_index: usize,
    /// The index of the circulating lane.
    pub circulating_lane_index: usize,
}

impl ConflictPointIndex {
    /// Attempts to create a new index.
    ///
    /// Returns `Some((index, is_merge))` if `circulating_lane_index >= entry_lane_index`,
    /// where `is_merge` tells whether the entry lane merges into that circulating lane
    /// (the lanes are the same); returns `None` where there is no conflict point.
    pub fn try_new(arm_index: usize, entry_lane_index: usize, circulating_lane_index: usize) -> (r:
        Option<(Self, bool)>)
        ensures
            r is Some <==> circulating_lane_index >= entry_lane_index,
            r matches Some((index, is_merge)) ==> {
                &&& index == (ConflictPointIndex { arm_index, entry_lane_index, circulating_lane_index })
                &&& is_merge == (circulating_lane_index == entry_lane_index)
            },
    {
        let is_merge = circulating_lane_index == entry_lane_index;
        if circulating_lane_index >= entry_lane_index {
            Some((ConflictPointIndex { arm_index, entry_lane_index, circulating_lane_index }, is_merge))
        } else {
            None
        }
    }
}

/// The conflict point index of the first conflict point that a vehicle entering on
/// `entry_deflection` reaches: the one with the outermost circulating lane.
pub fn first_conflict_point_index(entry_deflection: &Segment, number_of_lanes: usize) -> (r: Option<
    (ConflictPointIndex, bool),
>)
    requires
        number_of_lanes >= 1,
    ensures
        r is Some <==> number_of_lanes - 1 >= entry_deflection.lane_index,
        r matches Some((index, _)) ==> index == (ConflictPointIndex {
            arm_index: entry_deflection.arm_index,
            entry_lane_index: entry_deflection.lane_index,
            circulating_lane_index: (number_of_lanes - 1) as usize,
        }),
{
    // The maximum lane index is `number_of_lanes - 1`.
    ConflictPointIndex::try_new(
        entry_deflection.arm_index(),
        entry_deflection.lane_index(),
        number_of_lanes - 1,
    )
}

/// A pair of an entry deflection and an intra arm sector of the same arm that may
/// cross, whose conflict point is then searched for along their curves.
#[derive(Clone, Copy, Debug, PartialEq, Eq, Structural)]
pub struct ConflictCandidate {
    pub index: ConflictPointIndex,
    /// Whether the entry lane merges into the circulating lane (they are the same lane).
    pub is_merge: bool,
    pub entry_deflection_id: EntityId,
    pub intra_arm_sector_id: EntityId,
}

/// The candidates of entry deflection `entry` (the segment with entity `entry_id`, on
/// the arm with index `arm_index`) with the intra arm sectors from position `j` of
/// `segments` on: those on the same arm whose lane is not inside the entry's lane.
pub open spec fn entry_candidates_from(
    segments: Seq<(EntityId, Segment)>,
    entry_id: EntityId,
    entry: Segment,
    arm_index: usize,
    j: int,
) -> Seq<ConflictCandidate>
    decreases segments.len() - j,
{
    if j < 0 || j >= segments.len() {
        Seq::empty()
    } else {
        let (sector_id, sector) = segments[j];
        let rest = entry_candidates_from(segments, entry_id, entry, arm_index, j + 1);
        if sector.segment_type == SegmentType::IntraArmSector && sector.arm_id == entry.arm_id
            && sector.lane_index >= entry.lane_index {
            seq![
                ConflictCandidate {
                    index: ConflictPointIndex {
                        arm_index,
                        entry_lane_index: entry.lane_index,
                        circulating_lane_index: sector.lane_index,
                    },
                    is_merge: sector.lane_index == entry.lane_index,
                    entry_deflection_id: entry_id,
                    intra_arm_sector_id: sector_id,
                },
            ] + rest
        } else {
            rest
        }
    }
}

/// The candidates of the entry deflections from position `i` of `segments` on, in order.
pub open spec fn conflict_candidates_from(
    arms: Seq<(EntityId, Arm)>,
    segments: Seq<(EntityId, Segment)>,
    i: int,
) -> Seq<ConflictCandidate>
    decreases segments.len() - i,
{
    if i < 0 || i >= segments.len() {
        Seq::empty()
    } else {
        let (entry_id, entry) = segments[i];
        let rest = conflict_candidates_from(arms, segments, i + 1);
        if entry.segment_type == SegmentType::EntryDeflection {
            entry_candidates_from(
                segments,
                entry_id,
                entry,
                arm_index_lookup(arms, entry.arm_id)->Some_0,
                0,
            ) + rest
        } else {
            rest
        }
    }
}

/// `segments` holds an intra arm sector on the arm `arm_id`.
#[verifier::opaque]
pub open spec fn has_intra_arm_sector(segments: Seq<(EntityId, Segment)>, arm_id: EntityId) -> bool {
    exists|j: int|
        0 <= j < segments.len() && (#[trigger] segments[j]).1.segment_type
            == SegmentType::IntraArmSector && segments[j].1.arm_id == arm_id
}

/// The segment at position `i` is not an entry deflection, or it lies on an arm that
/// has an intra arm sector.
pub open spec fn entry_deflection_valid(arms: Seq<(EntityId, Arm)>, segments: Seq<(EntityId, Segment)>, i: int) -> bool {
    segments[i].1.segment_type == SegmentType::EntryDeflection ==> {
        &&& arm_index_lookup(arms, segments[i].1.arm_id) is Some
        &&& has_intra_arm_sector(segments, segments[i].1.arm_id)
    }
}

/// Every entry deflection lies on an arm, and that arm has an intra arm sector.
pub open spec fn conflict_inputs_valid(arms: Seq<(EntityId, Arm)>, segments: Seq<(EntityId, Segment)>) -> bool {
    forall|i: int| 0 <= i < segments.len() ==> #[trigger] entry_deflection_valid(arms, segments, i)
}

fn has_intra_arm_sector_on(segments: &Vec<(EntityId, Segment)>, arm_id: EntityId) -> (r: bool)
    ensures
        r == has_intra_arm_sector(segments@, arm_id),
{
    let mut j: usize = 0;
    while j < segments.len()
        invariant
            0 <= j <= segments@.len(),
            forall|k: int|
                0 <= k < j ==> !((#[trigger] segments@[k]).1.segment_type == SegmentType::IntraArmSector
                    && segments@[k].1.arm_id == arm_id),
        decreases segments.len() - j,
    {
        let (_, sector) = segments[j];
        if sector.segment_type == SegmentType::IntraArmSector && sector.arm_id == arm_id {
            assert(segments@[j as int].1.segment_type == SegmentType::IntraArmSector);
            proof {
                reveal(has_intra_arm_sector);
            }
            return true;
        }
        j = j + 1;
    }
    proof {
        reveal(has_intra_arm_sector);
    }
    false
}

/// Whether every entry deflection lies on an arm that has an intra arm sector, as
/// `conflict_point_candidates` expects.
pub fn conflict_inputs_are_valid(arms: &Vec<(EntityId, Arm)>, segments: &Vec<(EntityId, Segment)>) -> (r: bool)
    ensures
        r == conflict_inputs_valid(arms@, segments@),
{
    let mut i: usize = 0;
    while i < segments.len()
        invariant
            0 <= i <= segments@.len(),
            forall|k: int| 0 <= k < i ==> #[trigger] entry_deflection_valid(arms@, segments@, k),
        decreases segments.len() - i,
    {
        let (_, entry) = segments[i];
        if entry.segment_type == SegmentType::EntryDeflection {
            if find_arm_index(arms, entry.arm_id).is_none() {
                assert(!entry_deflection_valid(arms@, segments@, i as int));
                return false;
            }
            if !has_intra_arm_sector_on(segments, entry.arm_id) {
                assert(!entry_deflection_valid(arms@, segments@, i as int));
                return false;
            }
        }
        assert(entry_deflection_valid(arms@, segments@, i as int));
        i = i + 1;
    }
    true
}

/// The candidates of one entry deflection with the intra arm sectors, in order.
fn entry_candidates(
    segments: &Vec<(EntityId, Segment)>,
    entry_id: EntityId,
    entry: Segment,
    arm_index: usize,
) -> (r: Vec<ConflictCandidate>)
    ensures
        r@ == entry_candidates_from(segments@, entry_id, entry, arm_index, 0),
{
    let mut r: Vec<ConflictCandidate> = Vec::new();
    let mut j: usize = 0;
    while j < segments.len()
        invariant
            0 <= j <= segments@.len(),
            r@ + entry_candidates_from(segments@, entry_id, entry, arm_index, j as int)
                == entry_candidates_from(segments@, entry_id, entry, arm_index, 0),
        decreases segments.len() - j,
    {
        let (sector_id, sector) = segments[j];
        let ghost rest = entry_candidates_from(segments@, entry_id, entry, arm_index, j + 1);
        let ghost before = r@;
        match ConflictPointIndex::try_new(arm_index, entry.lane_index, sector.lane_index) {
            Some((index, is_merge)) => {
                if sector.segment_type == SegmentType::IntraArmSector && sector.arm_id == entry.arm_id {
                    r.push(
                        ConflictCandidate {
                            index,
                            is_merge,
                            entry_deflection_id: entry_id,
                            intra_arm_sector_id: sector_id,
                        },
                    );
                    assert(r@ + rest =~= before + entry_candidates_from(
                        segments@,
                        entry_id,
                        entry,
                        arm_index,
                        j as int,
                    ));
                }
            },
            None => {},
        }
        j = j + 1;
    }
    assert(r@ =~= r@ + entry_candidates_from(segments@, entry_id, entry, arm_index, j as int));
    r
}

/// The pairs of an entry deflection and an intra arm sector of the same arm whose
/// circulating lane is not inside the entry lane, with their conflict point index:
/// for each entry deflection in order, its candidates in the order of the sectors.
pub fn conflict_point_candidates(arms: &Vec<(EntityId, Arm)>, segments: &Vec<(EntityId, Segment)>) -> (r: Vec<
    ConflictCandidate,
>)
    requires
        conflict_inputs_valid(arms@, segments@),
    ensures
        r@ == conflict_candidates_from(arms@, segments@, 0),
{
    let mut r: Vec<ConflictCandidate> = Vec::new();
    let mut i: usize = 0;
    while i < segments.len()
        invariant
            0 <= i <= segments@.len(),
            conflict_inputs_valid(arms@, segments@),
            r@ + conflict_candidates_from(arms@, segments@, i as int) == conflict_candidates_from(
                arms@,
                segments@,
                0,
            ),
        decreases segments.len() - i,
    {
        let (entry_id, entry) = segments[i];
        let ghost rest = conflict_candidates_from(arms@, segments@, i + 1);
        if entry.segment_type == SegmentType::EntryDeflection {
            assert(entry_deflection_valid(arms@, segments@, i as int));
            let arm_index = match find_arm_index(arms, entry.arm_id) {
                Some(index) => index,
                None => {
                    proof {
                        assert(false);
                    }
                    0
                },
            };
            let candidates = entry_candidates(segments, entry_id, entry, arm_index);
            let ghost before = r@;
            let mut k: usize = 0;
            while k < candidates.len()
                invariant
                    0 <= k <= candidates@.len(),
                    r@ == before + candidates@.take(k as int),
                decreases candidates.len() - k,
            {
                r.push(candidates[k]);
                assert(r@ =~= before + candidates@.take(k + 1));
                k = k + 1;
            }
            assert(r@ + rest =~= before + conflict_candidates_from(arms@, segments@, i as int)) by {
                assert(candidates@.take(candidates@.len() as int) =~= candidates@);
            }
        }
        i = i + 1;
    }
    assert(r@ =~= r@ + conflict_candidates_from(arms@, segments@, i as int));
    r
}

/// The candidate that the entry deflection `(entry_id, entry)` on the arm with index
/// `arm_index` and the intra arm sector `(sector_id, sector)` make.
pub open spec fn conflict_candidate_of(
    entry_id: EntityId,
    entry: Segment,
    arm_index: usize,
    sector_id: EntityId,
    sector: Segment,
) -> ConflictCandidate {
    ConflictCandidate {
        index: ConflictPointIndex {
            arm_index,
            entry_lane_index: entry.lane_index,
            circulating_lane_index: sector.lane_index,
        },
        is_merge: sector.lane_index == entry.lane_index,
        entry_deflection_id: entry_id,
        intra_arm_sector_id: sector_id,
    }
}

/// A candidate of one entry deflection from position `j` on is made with an intra arm
/// sector at or after `j` of the same arm whose lane is not inside the entry's lane.
proof fn lemma_entry_candidates_sound(
    segments: Seq<(EntityId, Segment)>,
    entry_id: EntityId,
    entry: Segment,
    arm_index: usize,
    j: int,
)
    requires
        0 <= j,
    ensures
        forall|c: ConflictCandidate|
            #[trigger] entry_candidates_from(segments, entry_id, entry, arm_index, j).contains(c) ==> exists|m: int|
                j <= m < segments.len() && (#[trigger] segments[m]).1.segment_type == SegmentType::IntraArmSector
                    && segments[m].1.arm_id == entry.arm_id && segments[m].1.lane_index >= entry.lane_index
                    && c == conflict_candidate_of(entry_id, entry, arm_index, segments[m].0, segments[m].1),
    decreases segments.len() - j,
{
    if j < segments.len() {
        lemma_entry_candidates_sound(segments, entry_id, entry, arm_index, j + 1);
        let all = entry_candidates_from(segments, entry_id, entry, arm_index, j);
        let rest = entry_candidates_from(segments, entry_id, entry, arm_index, j + 1);
        let (sector_id, sector) = segments[j];
        let holds = sector.segment_type == SegmentType::IntraArmSector && sector.arm_id == entry.arm_id
            && sector.lane_index >= entry.lane_index;
        assert forall|c: ConflictCandidate| #[trigger] all.contains(c) implies exists|m: int|
            j <= m < segments.len() && (#[trigger] segments[m]).1.segment_type == SegmentType::IntraArmSector
                && segments[m].1.arm_id == entry.arm_id && segments[m].1.lane_index >= entry.lane_index
                && c == conflict_candidate_of(entry_id, entry, arm_index, segments[m].0, segments[m].1) by {
            let k = choose|k: int| 0 <= k < all.len() && all[k] == c;
            if holds && k == 0 {
                assert(all[0] == conflict_candidate_of(entry_id, entry, arm_index, sector_id, sector));
                assert(segments[j].0 == sector_id && segments[j].1 == sector);
            } else {
                let r = if holds { k - 1 } else { k };
                assert(all[k] == rest[r]);
                assert(rest.contains(c));
                let m = choose|m: int|
                    j + 1 <= m < segments.len() && (#[trigger] segments[m]).1.segment_type
                        == SegmentType::IntraArmSector && segments[m].1.arm_id == entry.arm_id
                        && segments[m].1.lane_index >= entry.lane_index && c == conflict_candidate_of(
                        entry_id,
                        entry,
                        arm_index,
                        segments[m].0,
                        segments[m].1,
                    );
                assert(segments[m] == segments[m]);
            }
        }
    } else {
        assert(entry_candidates_from(segments, entry_id, entry, arm_index, j) =~= Seq::<ConflictCandidate>::empty());
    }
}

/// Every intra arm sector at or after `j` of the entry's arm whose lane is not inside
/// the entry's lane makes a candidate of the entry from position `j` on.
proof fn lemma_entry_candidates_complete(
    segments: Seq<(EntityId, Segment)>,
    entry_id: EntityId,
    entry: Segment,
    arm_index: usize,
    j: int,
    m: int,
)
    requires
        0 <= j <= m < segments.len(),
        segments[m].1.segment_type == SegmentType::IntraArmSector,
        segments[m].1.arm_id == entry.arm_id,
        segments[m].1.lane_index >= entry.lane_index,
    ensures
        entry_candidates_from(segments, entry_id, entry, arm_index, j).contains(
            conflict_candidate_of(entry_id, entry, arm_index, segments[m].0, segments[m].1),
        ),
    decreases m - j,
{
    let candidate = conflict_candidate_of(entry_id, entry, arm_index, segments[m].0, segments[m].1);
    let all = entry_candidates_from(segments, entry_id, entry, arm_index, j);
    if j == m {
        assert(all[0] == candidate);
    } else {
        lemma_entry_candidates_complete(segments, entry_id, entry, arm_index, j + 1, m);
        let rest = entry_candidates_from(segments, entry_id, entry, arm_index, j + 1);
        let k = choose|k: int| 0 <= k < rest.len() && rest[k] == candidate;
        if all.len() == rest.len() + 1 {
            assert(all[k + 1] == candidate);
        } else {
            assert(all[k] == candidate);
        }
    }
}

/// The conflict point candidates are exactly the pairs of an entry deflection and an
/// intra arm sector of the same arm whose circulating lane is not inside the entry lane:
/// each candidate is made by such a pair at or after position `i`, with the conflict
/// point index of the entry's arm index, the entry lane and the circulating lane, and
/// merging exactly where the lanes are the same; and every such pair whose entry is at or
/// after position `i` makes a candidate.
pub proof fn lemma_conflict_candidates_are_crossing_pairs(
    arms: Seq<(EntityId, Arm)>,
    segments: Seq<(EntityId, Segment)>,
    i: int,
)
    requires
        0 <= i,
    ensures
        forall|c: ConflictCandidate|
            #[trigger] conflict_candidates_from(arms, segments, i).contains(c) ==> exists|n: int, m: int|
                i <= n < segments.len() && 0 <= m < segments.len()
                    && (#[trigger] segments[n]).1.segment_type == SegmentType::EntryDeflection
                    && (#[trigger] segments[m]).1.segment_type == SegmentType::IntraArmSector
                    && segments[m].1.arm_id == segments[n].1.arm_id && segments[m].1.lane_index
                    >= segments[n].1.lane_index && c == conflict_candidate_of(
                    segments[n].0,
                    segments[n].1,
                    arm_index_lookup(arms, segments[n].1.arm_id)->Some_0,
                    segments[m].0,
                    segments[m].1,
                ),
        forall|n: int, m: int|
            i <= n < segments.len() && 0 <= m < segments.len() && (#[trigger] segments[n]).1.segment_type
                == SegmentType::EntryDeflection && (#[trigger] segments[m]).1.segment_type
                == SegmentType::IntraArmSector && segments[m].1.arm_id == segments[n].1.arm_id
                && segments[m].1.lane_index >= segments[n].1.lane_index ==> conflict_candidates_from(
                arms,
                segments,
                i,
            ).contains(
                conflict_candidate_of(
                    segments[n].0,
                    segments[n].1,
                    arm_index_lookup(arms, segments[n].1.arm_id)->Some_0,
                    segments[m].0,
                    segments[m].1,
                ),
            ),
    decreases segments.len() - i,
{
    if i < segments.len() {
        lemma_conflict_candidates_are_crossing_pairs(arms, segments, i + 1);
        let all = conflict_candidates_from(arms, segments, i);
        let rest = conflict_candidates_from(arms, segments, i + 1);
        let (entry_id, entry) = segments[i];
        let arm_index = arm_index_lookup(arms, entry.arm_id)->Some_0;
        if entry.segment_type == SegmentType::EntryDeflection {
            let own = entry_candidates_from(segments, entry_id, entry, arm_index, 0);
            assert(all == own + rest);
            lemma_entry_candidates_sound(segments, entry_id, entry, arm_index, 0);
            assert forall|c: ConflictCandidate| #[trigger] all.contains(c) implies exists|n: int, m: int|
                i <= n < segments.len() && 0 <= m < segments.len()
                    && (#[trigger] segments[n]).1.segment_type == SegmentType::EntryDeflection
                    && (#[trigger] segments[m]).1.segment_type == SegmentType::IntraArmSector
                    && segments[m].1.arm_id == segments[n].1.arm_id && segments[m].1.lane_index
                    >= segments[n].1.lane_index && c == conflict_candidate_of(
                    segments[n].0,
                    segments[n].1,
                    arm_index_lookup(arms, segments[n].1.arm_id)->Some_0,
                    segments[m].0,
                    segments[m].1,
                ) by {
                let k = choose|k: int| 0 <= k < all.len() && all[k] == c;
                if k < own.len() {
                    assert(own[k] == c);
                    assert(own.contains(c));
                    let m = choose|m: int|
                        0 <= m < segments.len() && (#[trigger] segments[m]).1.segment_type
                            == SegmentType::IntraArmSector && segments[m].1.arm_id == entry.arm_id
                            && segments[m].1.lane_index >= entry.lane_index && c == conflict_candidate_of(
                            entry_id,
                            entry,
                            arm_index,
                            segments[m].0,
                            segments[m].1,
                        );
                    assert(segments[i] == segments[i]);
                    assert(segments[m] == segments[m]);
                } else {
                    assert(all[k] == rest[k - own.len()]);
                    assert(rest.contains(c));
                }
            }
            assert forall|n: int, m: int|
                i <= n < segments.len() && 0 <= m < segments.len() && (#[trigger] segments[n]).1.segment_type
                    == SegmentType::EntryDeflection && (#[trigger] segments[m]).1.segment_type
                    == SegmentType::IntraArmSector && segments[m].1.arm_id == segments[n].1.arm_id
                    && segments[m].1.lane_index >= segments[n].1.lane_index implies all.contains(
                conflict_candidate_of(
                    segments[n].0,
                    segments[n].1,
                    arm_index_lookup(arms, segments[n].1.arm_id)->Some_0,
                    segments[m].0,
                    segments[m].1,
                ),
            ) by {
                let candidate = conflict_candidate_of(
                    segments[n].0,
                    segments[n].1,
                    arm_index_lookup(arms, segments[n].1.arm_id)->Some_0,
                    segments[m].0,
                    segments[m].1,
                );
                if n == i {
                    lemma_entry_candidates_complete(segments, entry_id, entry, arm_index, 0, m);
                    let k = choose|k: int| 0 <= k < own.len() && own[k] == candidate;
                    assert(all[k] == candidate);
                } else {
                    assert(rest.contains(candidate));
                    let k = choose|k: int| 0 <= k < rest.len() && rest[k] == candidate;
                    assert(all[own.len() + k] == candidate);
                }
            }
        } else {
            assert(all == rest);
            assert forall|n: int, m: int|
                i <= n < segments.len() && 0 <= m < segments.len() && (#[trigger] segments[n]).1.segment_type
                    == SegmentType::EntryDeflection && (#[trigger] segments[m]).1.segment_type
                    == SegmentType::IntraArmSector && segments[m].1.arm_id == segments[n].1.arm_id
                    && segments[m].1.lane_index >= segments[n].1.lane_index implies all.contains(
                conflict_candidate_of(
                    segments[n].0,
                    segments[n].1,
                    arm_index_lookup(arms, segments[n].1.arm_id)->Some_0,
                    segments[m].0,
                    segments[m].1,
                ),
            ) by {
                assert(n != i);
            }
        }
    } else {
        assert(conflict_candidates_from(arms, segments, i) =~= Seq::<ConflictCandidate>::empty());
    }
}

} // verus!
