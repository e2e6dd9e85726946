//! Maps between sector segments and their lanes, kept by the `bimap` crate.

use crate::EntityId;
use bimap::BiHashMap;
use vstd::prelude::*;

verus! {

/// A bidirectional map of `bimap`: each left value is paired with at most one right
/// value and each right value with at most one left value.
#[verifier::external_type_specification]
#[verifier::external_body]
#[verifier::reject_recursive_types(L)]
#[verifier::reject_recursive_types(R)]
#[verifier::reject_recursive_types(LS)]
#[verifier::reject_recursive_types(RS)]
pub struct ExBiHashMap<L, R, LS, RS>(BiHashMap<L, R, LS, RS>);

/// A map between sector segments and their lane indices.
pub type SectorMap = BiHashMap<EntityId, usize>;

/// The pairs that a map of segments to lanes holds, as a map from left to right values.
pub uninterp spec fn bimap_pairs(map: SectorMap) -> Map<EntityId, usize>;

/// The pairs after inserting `(left, right)`: the pair of `left` and the pair of `right`,
/// where there are such, are replaced by the new pair.
pub open spec fn pairs_after_insert(pairs: Map<EntityId, usize>, left: EntityId, right: usize) -> Map<
    EntityId,
    usize,
> {
    Map::new(|k: EntityId| pairs.contains_key(k) && k != left && pairs[k] != right, |k: EntityId| pairs[k]).insert(
        left,
        right,
    )
}

/// `BiHashMap::new`: an empty map.
#[verifier::external_body]
pub(crate) fn sector_map_new() -> (r: SectorMap)
    ensures
        bimap_pairs(r).dom() == Set::<EntityId>::empty(),
{
    BiHashMap::new()
}

/// `BiHashMap::insert`: removes the pair of `left` and the pair of `right`, where there
/// are such, then pairs `left` with `right` (what it returns about the removed pairs is
/// dropped here).
#[verifier::external_body]
pub(crate) fn sector_map_insert(map: &mut SectorMap, left: EntityId, right: usize)
    ensures
        bimap_pairs(*final(map)) == pairs_after_insert(bimap_pairs(*old(map)), left, right),
{
    map.insert(left, right);
}

/// `BiHashMap::get_by_left`: the right value paired with `left`, if any.
#[verifier::external_body]
pub(crate) fn sector_map_get_by_left(map: &SectorMap, left: EntityId) -> (r: Option<usize>)
    ensures
        r == (if bimap_pairs(*map).contains_key(left) {
            Some(bimap_pairs(*map)[left])
        } else {
            None::<usize>
        }),
{
    map.get_by_left(&left).copied()
}

} // verus!
