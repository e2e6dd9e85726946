//! The entities that form a roundabout, allocated ahead of assembly.

use crate::EntityId;
use vstd::prelude::*;

verus! {

/// Points to the entities of segments associated with a sector of the circle.
#[derive(Clone, Copy, Debug, PartialEq, Eq, Structural)]
pub struct CirculatingSector {
    /// Between arm N's exit and arm N's entry.
    pub intra_id: EntityId,
    /// Between arm N's entry and arm N + 1's exit.
    pub inter_id: EntityId,
}

/// Points to the entities of segments associated with a single lane of an arm.
#[derive(Clone, Copy, Debug, PartialEq, Eq, Structural)]
pub struct ArmLaneTopology {
    pub entry_line_id: EntityId,
    pub entry_deflection_id: EntityId,
    pub exit_line_id: EntityId,
    pub exit_deflection_id: EntityId,
    pub circulating_sector: CirculatingSector,
}

/// Points to the entities of segments associated with an arm.
pub struct ArmTopology {
    /// The arm entity itself.
    pub id: EntityId,
    /// Indexed by lane index.
    pub arm_lane_topologies: Vec<ArmLaneTopology>,
}

/// Points to all of the entities forming the roundabout.
pub struct RoundaboutTopology {
    /// Indexed by arm index.
    pub arm_topologies: Vec<ArmTopology>,
}

/// The entities that one iteration of the assembly (one arm and lane) works with.
#[derive(Clone, Copy, Debug, PartialEq, Eq, Structural)]
pub struct CurrentIterationIds {
    pub entry_line: EntityId,
    pub entry_deflection: EntityId,
    pub exit_line: EntityId,
    pub exit_deflection: EntityId,
    pub intra_arm_sector: EntityId,
    pub inter_arm_sector: EntityId,
    pub next_exit_deflection: EntityId,
    pub next_intra_arm_sector: EntityId,
}

/// The kinds of lane entity, numbered as they are allocated for each lane.
pub open spec fn ENTRY_LINE() -> int { 0 }
pub open spec fn ENTRY_DEFLECTION() -> int { 1 }
pub open spec fn EXIT_LINE() -> int { 2 }
pub open spec fn EXIT_DEFLECTION() -> int { 3 }
pub open spec fn INTRA_ARM_SECTOR() -> int { 4 }
pub open spec fn INTER_ARM_SECTOR() -> int { 5 }

/// The number of entities allocated for one arm with `number_of_lanes` lanes.
pub open spec fn arm_block_size(number_of_lanes: int) -> int {
    1 + 6 * number_of_lanes
}

/// The number of entities a topology of these dimensions is built from.
pub open spec fn required_entity_count(number_of_arms: int, number_of_lanes: int) -> int {
    number_of_arms * arm_block_size(number_of_lanes)
}

/// No entity occurs twice in `ids`.
pub open spec fn ids_distinct(ids: Seq<EntityId>) -> bool {
    forall|i: int, j: int| 0 <= i < ids.len() && 0 <= j < ids.len() && i != j ==> ids[i] != ids[j]
}

impl ArmLaneTopology {
    /// The lane entity of kind `kind` (numbered as `ENTRY_LINE()` ... `INTER_ARM_SECTOR()`).
    pub open spec fn entity(self, kind: int) -> EntityId {
        if kind == ENTRY_LINE() {
            self.entry_line_id
        } else if kind == ENTRY_DEFLECTION() {
            self.entry_deflection_id
        } else if kind == EXIT_LINE() {
            self.exit_line_id
        } else if kind == EXIT_DEFLECTION() {
            self.exit_deflection_id
        } else if kind == INTRA_ARM_SECTOR() {
            self.circulating_sector.intra_id
        } else {
            self.circulating_sector.inter_id
        }
    }
}

impl RoundaboutTopology {
    /// The topology has `number_of_arms` arms of `number_of_lanes` lanes each.
    pub open spec fn has_shape(self, number_of_arms: int, number_of_lanes: int) -> bool {
        &&& self.arm_topologies@.len() == number_of_arms
        &&& forall|a: int|
            0 <= a < number_of_arms ==> #[trigger] self.arm_topologies@[a].arm_lane_topologies@.len()
                == number_of_lanes
    }

    /// The entity of arm `arm_index`.
    pub open spec fn arm_entity(self, arm_index: int) -> EntityId {
        self.arm_topologies@[arm_index].id
    }

    /// The entity of kind `kind` of lane `lane_index` of arm `arm_index`.
    pub open spec fn lane_entity(self, arm_index: int, lane_index: int, kind: int) -> EntityId {
        self.arm_topologies@[arm_index].arm_lane_topologies@[lane_index].entity(kind)
    }

    /// Every entity of the topology is different from every other one.
    pub open spec fn entities_distinct(self, number_of_arms: int, number_of_lanes: int) -> bool {
        &&& forall|a1: int, a2: int|
            0 <= a1 < number_of_arms && 0 <= a2 < number_of_arms && a1 != a2
                ==> #[trigger] self.arm_entity(a1) != #[trigger] self.arm_entity(a2)
        &&& forall|a1: int, a2: int, l: int, k: int|
            0 <= a1 < number_of_arms && 0 <= a2 < number_of_arms && 0 <= l < number_of_lanes && 0
                <= k < 6 ==> #[trigger] self.arm_entity(a1) != #[trigger] self.lane_entity(a2, l, k)
        &&& forall|a1: int, l1: int, k1: int, a2: int, l2: int, k2: int|
            0 <= a1 < number_of_arms && 0 <= a2 < number_of_arms && 0 <= l1 < number_of_lanes && 0
                <= l2 < number_of_lanes && 0 <= k1 < 6 && 0 <= k2 < 6 && (a1 != a2 || l1 != l2 || k1
                != k2) ==> #[trigger] self.lane_entity(a1, l1, k1) != #[trigger] self.lane_entity(
                a2,
                l2,
                k2,
            )
    }

    /// The topology was built from `ids`: arm by arm, each arm's entity followed by
    /// the entry line, entry deflection, exit line, exit deflection, intra arm sector
    /// and inter arm sector entities of each of its lanes.
    pub open spec fn built_from(self, ids: Seq<EntityId>, number_of_arms: int, number_of_lanes: int) -> bool {
        &&& self.has_shape(number_of_arms, number_of_lanes)
        &&& forall|a: int|
            0 <= a < number_of_arms ==> #[trigger] self.arm_entity(a) == ids[a * arm_block_size(
                number_of_lanes,
            )]
        &&& forall|a: int, l: int, k: int|
            0 <= a < number_of_arms && 0 <= l < number_of_lanes && 0 <= k < 6 ==> #[trigger] self.lane_entity(
                a,
                l,
                k,
            ) == ids[a * arm_block_size(number_of_lanes) + 1 + 6 * l + k]
    }

    /// Builds the topology for `number_of_arms` arms of `number_of_lanes` lanes each
    /// from freshly allocated entities, taken in order from `entity_ids`.
    pub fn new(number_of_lanes: usize, number_of_arms: usize, entity_ids: &Vec<EntityId>) -> (r: Self)
        requires
            entity_ids@.len() == required_entity_count(number_of_arms as int, number_of_lanes as int),
        ensures
            r.built_from(entity_ids@, number_of_arms as int, number_of_lanes as int),
            ids_distinct(entity_ids@) ==> r.entities_distinct(
                number_of_arms as int,
                number_of_lanes as int,
            ),
    {
        let ghost block = arm_block_size(number_of_lanes as int);
        let ghost lanes = number_of_lanes as int;
        let ghost arms = number_of_arms as int;
        let mut arm_topologies: Vec<ArmTopology> = Vec::new();
        let mut next: usize = 0;
        let mut a: usize = 0;
        while a < number_of_arms
            invariant
                0 <= a <= number_of_arms,
                block == 1 + 6 * lanes,
                lanes == number_of_lanes,
                arms == number_of_arms,
                entity_ids@.len() == arms * block,
                entity_ids.len() == arms * block,
                next == a * block,
                arm_topologies@.len() == a,
                forall|i: int| 0 <= i < a ==> #[trigger] arm_topologies@[i].arm_lane_topologies@.len() == lanes,
                forall|i: int| 0 <= i < a ==> #[trigger] arm_topologies@[i].id == entity_ids@[i * block],
                forall|i: int, l: int, k: int|
                    0 <= i < a && 0 <= l < lanes && 0 <= k < 6 ==> #[trigger] arm_topologies@[i].arm_lane_topologies@[l].entity(k)
                        == entity_ids@[i * block + 1 + 6 * l + k],
            decreases number_of_arms - a,
        {
            proof {
                lemma_block_bound(a as int, arms, block);
            }
            let id = entity_ids[next];
            next = next + 1;
            let mut arm_lane_topologies: Vec<ArmLaneTopology> = Vec::new();
            let mut l: usize = 0;
            while l < number_of_lanes
                invariant
                    0 <= l <= number_of_lanes,
                    0 <= a < number_of_arms,
                    block == 1 + 6 * lanes,
                    lanes == number_of_lanes,
                    arms == number_of_arms,
                    entity_ids@.len() == arms * block,
                    entity_ids.len() == arms * block,
                    (a + 1) * block <= arms * block,
                    a * block + block == (a + 1) * block,
                    next == a * block + 1 + 6 * l,
                    arm_lane_topologies@.len() == l,
                    forall|j: int, k: int|
                        0 <= j < l && 0 <= k < 6 ==> #[trigger] arm_lane_topologies@[j].entity(k)
                            == entity_ids@[a * block + 1 + 6 * j + k],
                decreases number_of_lanes - l,
            {
                let lane = ArmLaneTopology {
                    entry_line_id: entity_ids[next],
                    entry_deflection_id: entity_ids[next + 1],
                    exit_line_id: entity_ids[next + 2],
                    exit_deflection_id: entity_ids[next + 3],
                    circulating_sector: CirculatingSector {
                        intra_id: entity_ids[next + 4],
                        inter_id: entity_ids[next + 5],
                    },
                };
                arm_lane_topologies.push(lane);
                next = next + 6;
                l = l + 1;
            }
            arm_topologies.push(ArmTopology { id, arm_lane_topologies });
            a = a + 1;
        }
        let r = RoundaboutTopology { arm_topologies };
        proof {
            if ids_distinct(entity_ids@) {
                lemma_built_from_distinct(r, entity_ids@, arms, lanes);
            }
        }
        r
    }

    /// The entity of the arm with index `arm_index`.
    pub fn get_arm_id_at(&self, arm_index: usize) -> (r: EntityId)
        requires
            arm_index < self.arm_topologies@.len(),
        ensures
            r == self.arm_entity(arm_index as int),
    {
        self.arm_topologies[arm_index].id
    }

    /// The entities that the assembly of lane `lane_index` of arm `arm_index` works
    /// with, where `next_arm_index` is the arm that follows it around the circle.
    pub fn get_ids_for(&self, arm_index: usize, lane_index: usize, next_arm_index: usize) -> (r:
        CurrentIterationIds)
        requires
            arm_index < self.arm_topologies@.len(),
            next_arm_index < self.arm_topologies@.len(),
            lane_index < self.arm_topologies@[arm_index as int].arm_lane_topologies@.len(),
            lane_index < self.arm_topologies@[next_arm_index as int].arm_lane_topologies@.len(),
        ensures
            r.entry_line == self.lane_entity(arm_index as int, lane_index as int, ENTRY_LINE()),
            r.entry_deflection == self.lane_entity(
                arm_index as int,
                lane_index as int,
                ENTRY_DEFLECTION(),
            ),
            r.exit_line == self.lane_entity(arm_index as int, lane_index as int, EXIT_LINE()),
            r.exit_deflection == self.lane_entity(arm_index as int, lane_index as int, EXIT_DEFLECTION()),
            r.intra_arm_sector == self.lane_entity(
                arm_index as int,
                lane_index as int,
                INTRA_ARM_SECTOR(),
            ),
            r.inter_arm_sector == self.lane_entity(
                arm_index as int,
                lane_index as int,
                INTER_ARM_SECTOR(),
            ),
            r.next_exit_deflection == self.lane_entity(
                next_arm_index as int,
                lane_index as int,
                EXIT_DEFLECTION(),
            ),
            r.next_intra_arm_sector == self.lane_entity(
                next_arm_index as int,
                lane_index as int,
                INTRA_ARM_SECTOR(),
            ),
    {
        let arm_lane_topology = &self.arm_topologies[arm_index].arm_lane_topologies[lane_index];
        let next_arm_lane_topology =
            &self.arm_topologies[next_arm_index].arm_lane_topologies[lane_index];
        CurrentIterationIds {
            entry_line: arm_lane_topology.entry_line_id,
            entry_deflection: arm_lane_topology.entry_deflection_id,
            exit_line: arm_lane_topology.exit_line_id,
            exit_deflection: arm_lane_topology.exit_deflection_id,
            intra_arm_sector: arm_lane_topology.circulating_sector.intra_id,
            inter_arm_sector: arm_lane_topology.circulating_sector.inter_id,
            next_exit_deflection: next_arm_lane_topology.exit_deflection_id,
            next_intra_arm_sector: next_arm_lane_topology.circulating_sector.intra_id,
        }
    }
}

/// The number of entities to allocate for a topology of these dimensions,
/// or `None` where it does not fit in a `usize`.
pub fn required_entity_count_of(number_of_arms: usize, number_of_lanes: usize) -> (r: Option<usize>)
    ensures
        match r {
            Some(n) => n == required_entity_count(number_of_arms as int, number_of_lanes as int),
            None => required_entity_count(number_of_arms as int, number_of_lanes as int) > usize::MAX,
        },
{
    match number_of_lanes.checked_mul(6) {
        None => {
            // With no arm, nothing needs to be allocated.
            if number_of_arms == 0 {
                Some(0)
            } else {
                proof {
                    assert(number_of_arms * (1 + 6 * number_of_lanes) > usize::MAX) by (nonlinear_arith)
                        requires
                            6 * number_of_lanes > usize::MAX,
                            number_of_arms >= 1,
                    ;
                }
                None
            }
        },
        Some(six_lanes) => match six_lanes.checked_add(1) {
            None => {
                if number_of_arms == 0 {
                    Some(0)
                } else {
                    proof {
                        assert(number_of_arms * (1 + 6 * number_of_lanes) > usize::MAX) by (nonlinear_arith)
                            requires
                                1 + 6 * number_of_lanes > usize::MAX,
                                number_of_arms >= 1,
                        ;
                    }
                    None
                }
            },
            Some(block) => number_of_arms.checked_mul(block),
        },
    }
}

proof fn lemma_block_bound(a: int, arms: int, block: int)
    requires
        0 <= a < arms,
        block >= 1,
    ensures
        (a + 1) * block <= arms * block,
        a * block + block == (a + 1) * block,
{
    assert((a + 1) * block <= arms * block) by (nonlinear_arith)
        requires
            a + 1 <= arms,
            block >= 1,
    ;
    assert(a * block + block == (a + 1) * block) by (nonlinear_arith);
}

/// Positions in different arm blocks, or different positions of one block, differ.
proof fn lemma_block_positions_differ(a1: int, s1: int, a2: int, s2: int, block: int)
    requires
        0 <= a1,
        0 <= a2,
        0 <= s1 < block,
        0 <= s2 < block,
        a1 != a2 || s1 != s2,
    ensures
        a1 * block + s1 != a2 * block + s2,
{
    if a1 < a2 {
        assert(a1 * block + s1 < a2 * block + s2) by (nonlinear_arith)
            requires
                a1 < a2,
                0 <= s1 < block,
                0 <= s2,
        ;
    } else if a2 < a1 {
        assert(a2 * block + s2 < a1 * block + s1) by (nonlinear_arith)
            requires
                a2 < a1,
                0 <= s2 < block,
                0 <= s1,
        ;
    }
}

proof fn lemma_block_position_in_range(a: int, s: int, arms: int, block: int)
    requires
        0 <= a < arms,
        0 <= s < block,
    ensures
        0 <= a * block + s < arms * block,
{
    assert(0 <= a * block + s < arms * block) by (nonlinear_arith)
        requires
            0 <= a < arms,
            0 <= s < block,
    ;
}

/// A topology built from distinct entities has distinct entities.
pub proof fn lemma_built_from_distinct(
    topology: RoundaboutTopology,
    ids: Seq<EntityId>,
    number_of_arms: int,
    number_of_lanes: int,
)
    requires
        number_of_lanes >= 0,
        ids.len() == required_entity_count(number_of_arms, number_of_lanes),
        topology.built_from(ids, number_of_arms, number_of_lanes),
        ids_distinct(ids),
    ensures
        topology.entities_distinct(number_of_arms, number_of_lanes),
{
    let block = arm_block_size(number_of_lanes);
    assert forall|a1: int, a2: int|
        0 <= a1 < number_of_arms && 0 <= a2 < number_of_arms && a1 != a2 implies #[trigger] topology.arm_entity(
        a1,
    ) != #[trigger] topology.arm_entity(a2) by {
        lemma_block_positions_differ(a1, 0, a2, 0, block);
        lemma_block_position_in_range(a1, 0, number_of_arms, block);
        lemma_block_position_in_range(a2, 0, number_of_arms, block);
        assert(a1 * block + 0 == a1 * block);
        assert(a2 * block + 0 == a2 * block);
    }
    assert forall|a1: int, a2: int, l: int, k: int|
        0 <= a1 < number_of_arms && 0 <= a2 < number_of_arms && 0 <= l < number_of_lanes && 0 <= k
            < 6 implies #[trigger] topology.arm_entity(a1) != #[trigger] topology.lane_entity(
        a2,
        l,
        k,
    ) by {
        lemma_block_positions_differ(a1, 0, a2, 1 + 6 * l + k, block);
        lemma_block_position_in_range(a1, 0, number_of_arms, block);
        lemma_block_position_in_range(a2, 1 + 6 * l + k, number_of_arms, block);
        assert(a1 * block + 0 == a1 * block);
    }
    assert forall|a1: int, l1: int, k1: int, a2: int, l2: int, k2: int|
        0 <= a1 < number_of_arms && 0 <= a2 < number_of_arms && 0 <= l1 < number_of_lanes && 0
            <= l2 < number_of_lanes && 0 <= k1 < 6 && 0 <= k2 < 6 && (a1 != a2 || l1 != l2 || k1
            != k2) implies #[trigger] topology.lane_entity(a1, l1, k1)
        != #[trigger] topology.lane_entity(a2, l2, k2) by {
        lemma_block_positions_differ(a1, 1 + 6 * l1 + k1, a2, 1 + 6 * l2 + k2, block);
        lemma_block_position_in_range(a1, 1 + 6 * l1 + k1, number_of_arms, block);
        lemma_block_position_in_range(a2, 1 + 6 * l2 + k2, number_of_arms, block);
    }
}

} // verus!
