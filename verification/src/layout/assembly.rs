//! Assembles the roundabout: wires the segments of every arm and lane together.

use crate::EntityId;
use crate::layout::components::{Arm, Connection, DestinationWeights, EndPoint, Segment, SegmentType, SpawnPoint};
use crate::layout::topology::{
    arm_block_size, ids_distinct, required_entity_count, RoundaboutTopology, ENTRY_DEFLECTION, ENTRY_LINE,
    EXIT_DEFLECTION, EXIT_LINE, INTER_ARM_SECTOR, INTRA_ARM_SECTOR,
};
use vstd::prelude::*;

verus! {

/// The assembly stage of the layout pipeline. Assembling needs no setup of its own:
/// the application's layout plugin adds this stage as it is.
pub struct AssemblyPlugin;

/// The assembled layout of a roundabout: its topology and the components to attach
/// to its entities.
pub struct LayoutPlan {
    /// The entities that form the roundabout.
    pub topology: RoundaboutTopology,
    /// The `Arm` component of each arm entity, in arm order.
    pub arms: Vec<(EntityId, Arm)>,
    /// The `Segment` component of each segment entity.
    pub segments: Vec<(EntityId, Segment)>,
    /// One spawn point per arm and lane, at position `arm_index * number_of_lanes + lane_index`.
    pub spawn_points: Vec<SpawnPoint>,
    /// One end point per arm and lane, at position `arm_index * number_of_lanes + lane_index`.
    pub end_points: Vec<(EntityId, EndPoint)>,
}

/// The arm after `arm_index` around the circle.
pub open spec fn next_arm(arm_index: int, number_of_arms: int) -> int {
    if arm_index + 1 == number_of_arms {
        0
    } else {
        arm_index + 1
    }
}

/// The position of the segment of plan kind `k` of lane `l` of arm `a` in the plan's segments.
pub open spec fn plan_position(number_of_lanes: int, a: int, l: int, k: int) -> int {
    6 * (a * number_of_lanes + l) + k
}

/// The segment of plan kind `k` (entry deflection, entry line, exit line, exit
/// deflection, intra arm sector, inter arm sector) of lane `l` of arm `a`,
/// with its entity.
pub open spec fn planned_segment(
    topology: RoundaboutTopology,
    end_point_ids: Seq<EntityId>,
    number_of_arms: int,
    number_of_lanes: int,
    a: int,
    l: int,
    k: int,
) -> (EntityId, Segment) {
    let arm_id = topology.arm_entity(a);
    let next = next_arm(a, number_of_arms);
    let id = |kind: int| topology.lane_entity(a, l, kind);
    let segment = |segment_type: SegmentType, connection: Connection|
        Segment { segment_type, arm_id, arm_index: a as usize, lane_index: l as usize, connection };
    if k == 0 {
        (
            id(ENTRY_DEFLECTION()),
            segment(
                SegmentType::EntryDeflection,
                Connection::Merge { next_segment_id: id(INTER_ARM_SECTOR()) },
            ),
        )
    } else if k == 1 {
        (
            id(ENTRY_LINE()),
            segment(
                SegmentType::EntryLine,
                Connection::Direct { next_segment_id: id(ENTRY_DEFLECTION()) },
            ),
        )
    } else if k == 2 {
        (
            id(EXIT_LINE()),
            segment(
                SegmentType::ExitLine,
                Connection::EndPoint { end_point_id: end_point_ids[a * number_of_lanes + l] },
            ),
        )
    } else if k == 3 {
        (
            id(EXIT_DEFLECTION()),
            segment(
                SegmentType::ExitDeflection,
                Connection::Direct { next_segment_id: id(EXIT_LINE()) },
            ),
        )
    } else if k == 4 {
        (
            id(INTRA_ARM_SECTOR()),
            segment(
                SegmentType::IntraArmSector,
                Connection::Direct { next_segment_id: id(INTER_ARM_SECTOR()) },
            ),
        )
    } else {
        (
            id(INTER_ARM_SECTOR()),
            segment(
                SegmentType::InterArmSector,
                Connection::Diverge {
                    exit_arm_index: next as usize,
                    exit_segment_id: topology.lane_entity(next, l, EXIT_DEFLECTION()),
                    circulating_segment_id: topology.lane_entity(next, l, INTRA_ARM_SECTOR()),
                },
            ),
        )
    }
}

/// The destination weights of an arm: the weight `weights[t]` for the arm with index `t`.
pub open spec fn weights_of(topology: RoundaboutTopology, weights: Seq<u32>) -> Seq<(EntityId, u32)> {
    Seq::new(weights.len(), |t: int| (topology.arm_entity(t), weights[t]))
}

impl LayoutPlan {
    /// The plan wires the roundabout of `topology` as the assembly does.
    pub open spec fn assembled_from(
        self,
        end_point_ids: Seq<EntityId>,
        weights_by_arm: Seq<Seq<u32>>,
        number_of_arms: int,
        number_of_lanes: int,
    ) -> bool {
        &&& self.arms@.len() == number_of_arms
        &&& forall|a: int|
            0 <= a < number_of_arms ==> {
                &&& (#[trigger] self.arms@[a]).0 == self.topology.arm_entity(a)
                &&& self.arms@[a].1.index == a
                &&& self.arms@[a].1.destination_weights@ == weights_of(self.topology, weights_by_arm[a])
            }
        &&& self.segments@.len() == 6 * (number_of_arms * number_of_lanes)
        &&& forall|a: int, l: int, k: int|
            0 <= a < number_of_arms && 0 <= l < number_of_lanes && 0 <= k < 6
                ==> self.segments@[plan_position(number_of_lanes, a, l, k)] == #[trigger] planned_segment(
                self.topology,
                end_point_ids,
                number_of_arms,
                number_of_lanes,
                a,
                l,
                k,
            )
        &&& self.spawn_points@.len() == number_of_arms * number_of_lanes
        &&& self.end_points@.len() == number_of_arms * number_of_lanes
        &&& forall|i: int|
            0 <= i < number_of_arms * number_of_lanes ==> (#[trigger] self.end_points@[i]).0
                == end_point_ids[i]
        &&& forall|a: int, l: int|
            0 <= a < number_of_arms && 0 <= l < number_of_lanes ==> {
                &&& #[trigger] self.spawn_points@[a * number_of_lanes + l] == SpawnPoint {
                    arm: self.topology.arm_entity(a),
                    lane_index: l as usize,
                    segment: self.topology.lane_entity(a, l, ENTRY_LINE()),
                }
                &&& self.end_points@[a * number_of_lanes + l].1 == EndPoint {
                    arm: self.topology.arm_entity(a),
                    lane_index: l as usize,
                }
            }
    }
}

/// Pairs the weights of the destinations (indexed by arm index) with the arms' entities.
pub fn destination_weights_for(topology: &RoundaboutTopology, weights: &Vec<u32>) -> (r: DestinationWeights)
    requires
        weights@.len() <= topology.arm_topologies@.len(),
    ensures
        r@ == weights_of(*topology, weights@),
{
    let mut r: DestinationWeights = Vec::new();
    let mut t: usize = 0;
    while t < weights.len()
        invariant
            0 <= t <= weights@.len(),
            weights@.len() <= topology.arm_topologies@.len(),
            r@ == weights_of(*topology, weights@).take(t as int),
        decreases weights.len() - t,
    {
        let arm_id = topology.get_arm_id_at(t);
        r.push((arm_id, weights[t]));
        assert(r@ =~= weights_of(*topology, weights@).take(t + 1));
        t = t + 1;
    }
    assert(r@ =~= weights_of(*topology, weights@));
    r
}

proof fn lemma_lane_position_bound(a: int, l: int, arms: int, lanes: int)
    requires
        0 <= a < arms,
        0 <= l < lanes,
    ensures
        0 <= a * lanes + l < arms * lanes,
        a * lanes + lanes == (a + 1) * lanes,
{
    assert(0 <= a * lanes + l < arms * lanes) by (nonlinear_arith)
        requires
            0 <= a < arms,
            0 <= l < lanes,
    ;
    assert(a * lanes + lanes == (a + 1) * lanes) by (nonlinear_arith);
}

/// Assembles the roundabout of `number_of_arms` arms with `number_of_lanes` lanes each:
/// builds its topology from `entity_ids`, and wires every lane of every arm:
/// entry line into entry deflection, which merges onto the inter arm sector; the inter
/// arm sector diverges into the next arm's exit deflection (for vehicles exiting there)
/// or its intra arm sector, which leads into that arm's inter arm sector; the exit
/// deflection leads into the exit line, which ends at the lane's end point.
pub fn assemble_roundabout(
    number_of_arms: usize,
    number_of_lanes: usize,
    entity_ids: &Vec<EntityId>,
    end_point_ids: &Vec<EntityId>,
    weights_by_arm: &Vec<Vec<u32>>,
) -> (plan: LayoutPlan)
    requires
        entity_ids@.len() == required_entity_count(number_of_arms as int, number_of_lanes as int),
        end_point_ids@.len() == number_of_arms * number_of_lanes,
        weights_by_arm@.len() == number_of_arms,
        forall|a: int| 0 <= a < number_of_arms ==> #[trigger] weights_by_arm@[a]@.len() == number_of_arms,
    ensures
        plan.topology.built_from(entity_ids@, number_of_arms as int, number_of_lanes as int),
        ids_distinct(entity_ids@) ==> plan.topology.entities_distinct(
            number_of_arms as int,
            number_of_lanes as int,
        ),
        plan.assembled_from(
            end_point_ids@,
            weights_by_arm@.map_values(|w: Vec<u32>| w@),
            number_of_arms as int,
            number_of_lanes as int,
        ),
{
    let ghost arms_n = number_of_arms as int;
    let ghost lanes_n = number_of_lanes as int;
    let ghost weights = weights_by_arm@.map_values(|w: Vec<u32>| w@);
    let topology = RoundaboutTopology::new(number_of_lanes, number_of_arms, entity_ids);
    let mut arms: Vec<(EntityId, Arm)> = Vec::new();
    let mut segments: Vec<(EntityId, Segment)> = Vec::new();
    let mut spawn_points: Vec<SpawnPoint> = Vec::new();
    let mut end_points: Vec<(EntityId, EndPoint)> = Vec::new();
    let mut a: usize = 0;
    while a < number_of_arms
        invariant
            0 <= a <= number_of_arms,
            arms_n == number_of_arms,
            lanes_n == number_of_lanes,
            weights == weights_by_arm@.map_values(|w: Vec<u32>| w@),
            weights_by_arm@.len() == number_of_arms,
            forall|i: int| 0 <= i < number_of_arms ==> #[trigger] weights_by_arm@[i]@.len() == number_of_arms,
            end_point_ids@.len() == number_of_arms * number_of_lanes,
            topology.built_from(entity_ids@, arms_n, lanes_n),
            arms@.len() == a,
            forall|i: int|
                0 <= i < a ==> {
                    &&& (#[trigger] arms@[i]).0 == topology.arm_entity(i)
                    &&& arms@[i].1.index == i
                    &&& arms@[i].1.destination_weights@ == weights_of(topology, weights[i])
                },
            segments@.len() == 6 * (a * lanes_n),
            spawn_points@.len() == a * lanes_n,
            end_points@.len() == a * lanes_n,
            forall|i: int, l: int, k: int|
                0 <= i < a && 0 <= l < lanes_n && 0 <= k < 6 ==> segments@[plan_position(lanes_n, i, l, k)]
                    == #[trigger] planned_segment(topology, end_point_ids@, arms_n, lanes_n, i, l, k),
            forall|j: int| 0 <= j < a * lanes_n ==> (#[trigger] end_points@[j]).0 == end_point_ids@[j],
            forall|i: int, l: int|
                0 <= i < a && 0 <= l < lanes_n ==> {
                    &&& #[trigger] spawn_points@[i * lanes_n + l] == SpawnPoint {
                        arm: topology.arm_entity(i),
                        lane_index: l as usize,
                        segment: topology.lane_entity(i, l, ENTRY_LINE()),
                    }
                    &&& end_points@[i * lanes_n + l].1 == EndPoint {
                        arm: topology.arm_entity(i),
                        lane_index: l as usize,
                    }
                },
        decreases number_of_arms - a,
    {
        let next_arm_index = if a + 1 == number_of_arms { 0 } else { a + 1 };
        let arm_id = topology.get_arm_id_at(a);
        let destination_weights = destination_weights_for(&topology, &weights_by_arm[a]);
        arms.push((arm_id, Arm::new(a, destination_weights)));
        let mut l: usize = 0;
        while l < number_of_lanes
            invariant
                0 <= l <= number_of_lanes,
                0 <= a < number_of_arms,
                arms_n == number_of_arms,
                lanes_n == number_of_lanes,
                next_arm_index == next_arm(a as int, arms_n),
                arm_id == topology.arm_entity(a as int),
                end_point_ids@.len() == number_of_arms * number_of_lanes,
                topology.built_from(entity_ids@, arms_n, lanes_n),
                segments@.len() == 6 * (a * lanes_n + l),
                spawn_points@.len() == a * lanes_n + l,
                end_points@.len() == a * lanes_n + l,
                forall|i: int, m: int, k: int|
                    0 <= i < a && 0 <= m < lanes_n && 0 <= k < 6 ==> segments@[plan_position(lanes_n, i, m, k)]
                        == #[trigger] planned_segment(topology, end_point_ids@, arms_n, lanes_n, i, m, k),
                forall|m: int, k: int|
                    0 <= m < l && 0 <= k < 6 ==> segments@[plan_position(lanes_n, a as int, m, k)]
                        == #[trigger] planned_segment(
                        topology,
                        end_point_ids@,
                        arms_n,
                        lanes_n,
                        a as int,
                        m,
                        k,
                    ),
                forall|j: int| 0 <= j < a * lanes_n + l ==> (#[trigger] end_points@[j]).0 == end_point_ids@[j],
                forall|i: int, m: int|
                    0 <= i < a && 0 <= m < lanes_n ==> {
                        &&& #[trigger] spawn_points@[i * lanes_n + m] == SpawnPoint {
                            arm: topology.arm_entity(i),
                            lane_index: m as usize,
                            segment: topology.lane_entity(i, m, ENTRY_LINE()),
                        }
                        &&& end_points@[i * lanes_n + m].1 == EndPoint {
                            arm: topology.arm_entity(i),
                            lane_index: m as usize,
                        }
                    },
                forall|m: int|
                    0 <= m < l ==> {
                        &&& #[trigger] spawn_points@[a * lanes_n + m] == SpawnPoint {
                            arm: topology.arm_entity(a as int),
                            lane_index: m as usize,
                            segment: topology.lane_entity(a as int, m, ENTRY_LINE()),
                        }
                        &&& end_points@[a * lanes_n + m].1 == EndPoint {
                            arm: topology.arm_entity(a as int),
                            lane_index: m as usize,
                        }
                    },
            decreases number_of_lanes - l,
        {
            proof {
                lemma_lane_position_bound(a as int, l as int, arms_n, lanes_n);
            }
            let ids = topology.get_ids_for(a, l, next_arm_index);
            let position = spawn_points.len();
            let end_point_id = end_point_ids[position];
            let ghost before = segments@;
            let ghost before_spawn_points = spawn_points@;
            let ghost before_end_points = end_points@;
            segments.push(
                (
                    ids.entry_deflection,
                    Segment::new(
                        SegmentType::EntryDeflection,
                        arm_id,
                        a,
                        l,
                        Connection::Merge { next_segment_id: ids.inter_arm_sector },
                    ),
                ),
            );
            segments.push(
                (
                    ids.entry_line,
                    Segment::new(
                        SegmentType::EntryLine,
                        arm_id,
                        a,
                        l,
                        Connection::Direct { next_segment_id: ids.entry_deflection },
                    ),
                ),
            );
            spawn_points.push(SpawnPoint::new(arm_id, l, ids.entry_line));
            end_points.push((end_point_id, EndPoint::new(arm_id, l)));
            segments.push(
                (
                    ids.exit_line,
                    Segment::new(
                        SegmentType::ExitLine,
                        arm_id,
                        a,
                        l,
                        Connection::EndPoint { end_point_id },
                    ),
                ),
            );
            segments.push(
                (
                    ids.exit_deflection,
                    Segment::new(
                        SegmentType::ExitDeflection,
                        arm_id,
                        a,
                        l,
                        Connection::Direct { next_segment_id: ids.exit_line },
                    ),
                ),
            );
            segments.push(
                (
                    ids.intra_arm_sector,
                    Segment::new(
                        SegmentType::IntraArmSector,
                        arm_id,
                        a,
                        l,
                        Connection::Direct { next_segment_id: ids.inter_arm_sector },
                    ),
                ),
            );
            segments.push(
                (
                    ids.inter_arm_sector,
                    Segment::new(
                        SegmentType::InterArmSector,
                        arm_id,
                        a,
                        l,
                        Connection::Diverge {
                            exit_arm_index: next_arm_index,
                            exit_segment_id: ids.next_exit_deflection,
                            circulating_segment_id: ids.next_intra_arm_sector,
                        },
                    ),
                ),
            );
            proof {
                let base = 6 * (a * lanes_n + l);
                assert forall|k: int| 0 <= k < 6 implies segments@[plan_position(lanes_n, a as int, l as int, k)]
                    == #[trigger] planned_segment(
                    topology,
                    end_point_ids@,
                    arms_n,
                    lanes_n,
                    a as int,
                    l as int,
                    k,
                ) by {
                    assert(plan_position(lanes_n, a as int, l as int, k) == base + k);
                }
                assert forall|i: int, m: int, k: int|
                    0 <= i < a && 0 <= m < lanes_n && 0 <= k < 6 implies segments@[plan_position(
                    lanes_n,
                    i,
                    m,
                    k,
                )] == #[trigger] planned_segment(topology, end_point_ids@, arms_n, lanes_n, i, m, k) by {
                    lemma_lane_position_bound(i, m, a as int, lanes_n);
                    assert(before[plan_position(lanes_n, i, m, k)] == segments@[plan_position(
                        lanes_n,
                        i,
                        m,
                        k,
                    )]);
                }
                assert forall|i: int, m: int|
                    0 <= i < a && 0 <= m < lanes_n implies {
                        &&& #[trigger] spawn_points@[i * lanes_n + m] == SpawnPoint {
                            arm: topology.arm_entity(i),
                            lane_index: m as usize,
                            segment: topology.lane_entity(i, m, ENTRY_LINE()),
                        }
                        &&& end_points@[i * lanes_n + m].1 == EndPoint {
                            arm: topology.arm_entity(i),
                            lane_index: m as usize,
                        }
                    } by {
                    lemma_lane_position_bound(i, m, a as int, lanes_n);
                    assert(before_spawn_points[i * lanes_n + m] == spawn_points@[i * lanes_n + m]);
                    assert(before_end_points[i * lanes_n + m] == end_points@[i * lanes_n + m]);
                }
                assert forall|m: int, k: int|
                    0 <= m < l && 0 <= k < 6 implies segments@[plan_position(lanes_n, a as int, m, k)]
                    == #[trigger] planned_segment(
                    topology,
                    end_point_ids@,
                    arms_n,
                    lanes_n,
                    a as int,
                    m,
                    k,
                ) by {
                    assert(before[plan_position(lanes_n, a as int, m, k)] == segments@[plan_position(
                        lanes_n,
                        a as int,
                        m,
                        k,
                    )]);
                }
            }
            l = l + 1;
        }
        proof {
            assert(a * lanes_n + lanes_n == (a + 1) * lanes_n) by (nonlinear_arith);
            assert forall|i: int, m: int|
                0 <= i < a + 1 && 0 <= m < lanes_n implies {
                    &&& #[trigger] spawn_points@[i * lanes_n + m] == SpawnPoint {
                        arm: topology.arm_entity(i),
                        lane_index: m as usize,
                        segment: topology.lane_entity(i, m, ENTRY_LINE()),
                    }
                    &&& end_points@[i * lanes_n + m].1 == EndPoint {
                        arm: topology.arm_entity(i),
                        lane_index: m as usize,
                    }
                } by {
                if i == a {
                    assert(spawn_points@[a * lanes_n + m] == SpawnPoint {
                        arm: topology.arm_entity(a as int),
                        lane_index: m as usize,
                        segment: topology.lane_entity(a as int, m, ENTRY_LINE()),
                    });
                }
            }
        }
        a = a + 1;
    }
    LayoutPlan { topology, arms, segments, spawn_points, end_points }
}

} // verus!
