//! The components of a roundabout layout and lookups in tables of them.

use crate::EntityId;
use vstd::prelude::*;

verus! {

/// Where road segments connect together, allowing vehicles to choose the next
/// segment to use, or to exit the map.
#[derive(Clone, Copy, Debug, PartialEq, Eq, Structural)]
pub enum Connection {
    /// A direct connection from one segment to another.
    Direct { next_segment_id: EntityId },
    /// An exit from the roundabout while a lane still circulates.
    Diverge { exit_arm_index: usize, exit_segment_id: EntityId, circulating_segment_id: EntityId },
    /// This connection exits the map.
    EndPoint { end_point_id: EntityId },
    /// A merge onto the roundabout, requiring a yield at the designated yield point.
    Merge { next_segment_id: EntityId },
}

/// The part of the roundabout that a segment forms.
#[derive(Clone, Copy, Debug, PartialEq, Eq, Structural)]
pub enum SegmentType {
    EntryLine,
    EntryDeflection,
    InterArmSector,
    IntraArmSector,
    ExitLine,
    ExitDeflection,
}

/// A road segment between connections (its topological part).
#[derive(Clone, Copy, Debug, PartialEq, Eq, Structural)]
pub struct Segment {
    /// The part of the roundabout that this segment forms.
    pub segment_type: SegmentType,
    /// The `Arm` that this segment is on.
    pub arm_id: EntityId,
    /// The arm index that this segment is on.
    pub arm_index: usize,
    /// The lane index that this segment is on.
    pub lane_index: usize,
    /// The next segments / end point that this segment connects to.
    pub connection: Connection,
}

impl Segment {
    pub fn new(
        segment_type: SegmentType,
        arm_id: EntityId,
        arm_index: usize,
        lane_index: usize,
        connection: Connection,
    ) -> (segment: Self)
        ensures
            segment == (Segment { segment_type, arm_id, arm_index, lane_index, connection }),
    {
        Segment { segment_type, arm_id, arm_index, lane_index, connection }
    }

    pub fn segment_type(&self) -> (r: SegmentType)
        ensures
            r == self.segment_type,
    {
        self.segment_type
    }

    pub fn arm_id(&self) -> (r: EntityId)
        ensures
            r == self.arm_id,
    {
        self.arm_id
    }

    pub fn arm_index(&self) -> (r: usize)
        ensures
            r == self.arm_index,
    {
        self.arm_index
    }

    pub fn lane_index(&self) -> (r: usize)
        ensures
            r == self.lane_index,
    {
        self.lane_index
    }

    pub fn connection(&self) -> (r: Connection)
        ensures
            r == self.connection,
    {
        self.connection
    }
}

/// Where vehicles spawn from.
#[derive(Clone, Copy, Debug, PartialEq, Eq, Structural)]
pub struct SpawnPoint {
    /// The arm that this spawn point's road lies on.
    pub arm: EntityId,
    /// The index of the lane this spawn point connects to.
    pub lane_index: usize,
    /// The segment that vehicles spawned here begin moving along.
    pub segment: EntityId,
}

impl SpawnPoint {
    pub fn new(arm: EntityId, lane_index: usize, segment: EntityId) -> (r: Self)
        ensures
            r == (SpawnPoint { arm, lane_index, segment }),
    {
        SpawnPoint { arm, lane_index, segment }
    }

    pub fn arm(&self) -> (r: EntityId)
        ensures
            r == self.arm,
    {
        self.arm
    }

    pub fn lane_index(&self) -> (r: usize)
        ensures
            r == self.lane_index,
    {
        self.lane_index
    }

    pub fn segment(&self) -> (r: EntityId)
        ensures
            r == self.segment,
    {
        self.segment
    }
}

/// Where a vehicle may choose to head to.
#[derive(Clone, Copy, Debug, PartialEq, Eq, Structural)]
pub struct EndPoint {
    /// The arm that this end point's road lies on.
    pub arm: EntityId,
    /// The index of the lane this end point is connected to.
    pub lane_index: usize,
}

impl EndPoint {
    pub fn new(arm: EntityId, lane_index: usize) -> (r: Self)
        ensures
            r == (EndPoint { arm, lane_index }),
    {
        EndPoint { arm, lane_index }
    }

    pub fn arm(&self) -> (r: EntityId)
        ensures
            r == self.arm,
    {
        self.arm
    }
}

/// The desirability of each destination arm, as `(arm entity, weight)` pairs.
pub type DestinationWeights = Vec<(EntityId, u32)>;

/// A marker for spawned road segments and other components to assign themselves to.
pub struct Arm {
    /// The unique index of this arm.
    pub index: usize,
    /// The desirability of each destination from this arm.
    pub destination_weights: DestinationWeights,
}

impl Arm {
    pub fn new(index: usize, destination_weights: DestinationWeights) -> (r: Self)
        ensures
            r.index == index,
            r.destination_weights@ == destination_weights@,
    {
        Arm { index, destination_weights }
    }

    pub fn index(&self) -> (r: usize)
        ensures
            r == self.index,
    {
        self.index
    }

    pub fn destination_weights(&self) -> (r: &DestinationWeights)
        ensures
            r@ == self.destination_weights@,
    {
        &self.destination_weights
    }
}

/// The value stored under `id` in `table`, searching from position `start`:
/// the first entry at or after `start` whose key is `id`.
pub open spec fn lookup_from<T>(table: Seq<(EntityId, T)>, id: EntityId, start: int) -> Option<T>
    decreases table.len() - start,
{
    if start < 0 || start >= table.len() {
        None
    } else if table[start].0 == id {
        Some(table[start].1)
    } else {
        lookup_from(table, id, start + 1)
    }
}

/// The value stored under `id` in `table` (its first entry with that key).
pub open spec fn lookup<T>(table: Seq<(EntityId, T)>, id: EntityId) -> Option<T> {
    lookup_from(table, id, 0)
}

/// No two entries of `table` share a key.
pub open spec fn keys_distinct<T>(table: Seq<(EntityId, T)>) -> bool {
    forall|i: int, j: int|
        0 <= i < table.len() && 0 <= j < table.len() && i != j ==> table[i].0 != table[j].0
}

/// Searching from `start` finds the entry at `index` when no entry between them has its key.
pub proof fn lemma_lookup_from_finds<T>(table: Seq<(EntityId, T)>, id: EntityId, start: int, index: int)
    requires
        0 <= start <= index < table.len(),
        table[index].0 == id,
        forall|j: int| start <= j < index ==> table[j].0 != id,
    ensures
        lookup_from(table, id, start) == Some(table[index].1),
    decreases index - start,
{
    if start < index {
        lemma_lookup_from_finds(table, id, start + 1, index);
    }
}

/// Searching from `start` finds nothing when no entry from there on has the key.
pub proof fn lemma_lookup_from_absent<T>(table: Seq<(EntityId, T)>, id: EntityId, start: int)
    requires
        0 <= start,
        forall|j: int| start <= j < table.len() ==> table[j].0 != id,
    ensures
        lookup_from(table, id, start) is None,
    decreases table.len() - start,
{
    if start < table.len() {
        lemma_lookup_from_absent(table, id, start + 1);
    }
}

/// In a table whose keys are distinct, the lookup of an entry's key gives that entry's value.
pub proof fn lemma_lookup_distinct<T>(table: Seq<(EntityId, T)>, index: int)
    requires
        keys_distinct(table),
        0 <= index < table.len(),
    ensures
        lookup(table, table[index].0) == Some(table[index].1),
{
    lemma_lookup_from_finds(table, table[index].0, 0, index);
}

/// Finds the value stored under `id` in `table`.
pub fn find_by_id<T: Copy>(table: &Vec<(EntityId, T)>, id: EntityId) -> (r: Option<T>)
    ensures
        r == lookup(table@, id),
{
    let mut i: usize = 0;
    while i < table.len()
        invariant
            0 <= i <= table.len(),
            lookup(table@, id) == lookup_from(table@, id, i as int),
        decreases table.len() - i,
    {
        if table[i].0 == id {
            return Some(table[i].1);
        }
        i = i + 1;
    }
    None
}

/// Finds the index of the arm whose entity is `id` in `arms`.
pub fn find_arm_index(arms: &Vec<(EntityId, Arm)>, id: EntityId) -> (r: Option<usize>)
    ensures
        r == arm_index_lookup(arms@, id),
{
    let mut i: usize = 0;
    while i < arms.len()
        invariant
            0 <= i <= arms.len(),
            arm_index_lookup(arms@, id) == arm_index_lookup_from(arms@, id, i as int),
        decreases arms.len() - i,
    {
        if arms[i].0 == id {
            return Some(arms[i].1.index);
        }
        i = i + 1;
    }
    None
}

/// The index of the first arm at or after `start` whose entity is `id`.
pub open spec fn arm_index_lookup_from(arms: Seq<(EntityId, Arm)>, id: EntityId, start: int) -> Option<usize>
    decreases arms.len() - start,
{
    if start < 0 || start >= arms.len() {
        None
    } else if arms[start].0 == id {
        Some(arms[start].1.index)
    } else {
        arm_index_lookup_from(arms, id, start + 1)
    }
}

/// The index of the arm whose entity is `id`.
pub open spec fn arm_index_lookup(arms: Seq<(EntityId, Arm)>, id: EntityId) -> Option<usize> {
    arm_index_lookup_from(arms, id, 0)
}

/// The first entry deflection from position `start` on of the arm `arm_id` and lane `lane_index`.
pub open spec fn entry_deflection_from(
    segments: Seq<(EntityId, Segment)>,
    arm_id: EntityId,
    lane_index: usize,
    start: int,
) -> Option<(EntityId, Segment)>
    decreases segments.len() - start,
{
    if start < 0 || start >= segments.len() {
        None
    } else if segments[start].1.segment_type == SegmentType::EntryDeflection && segments[start].1.arm_id
        == arm_id && segments[start].1.lane_index == lane_index {
        Some(segments[start])
    } else {
        entry_deflection_from(segments, arm_id, lane_index, start + 1)
    }
}

/// Finds the entry deflection of the arm `arm_id` and lane `lane_index`: the one that
/// an entry line of that arm and lane leads into.
pub fn find_entry_deflection(segments: &Vec<(EntityId, Segment)>, arm_id: EntityId, lane_index: usize) -> (r:
    Option<(EntityId, Segment)>)
    ensures
        r == entry_deflection_from(segments@, arm_id, lane_index, 0),
{
    let mut i: usize = 0;
    while i < segments.len()
        invariant
            0 <= i <= segments@.len(),
            entry_deflection_from(segments@, arm_id, lane_index, 0) == entry_deflection_from(
                segments@,
                arm_id,
                lane_index,
                i as int,
            ),
        decreases segments.len() - i,
    {
        let (id, segment) = segments[i];
        if segment.segment_type == SegmentType::EntryDeflection && segment.arm_id == arm_id
            && segment.lane_index == lane_index {
            return Some((id, segment));
        }
        i = i + 1;
    }
    None
}

} // verus!
