//! A roundabout traffic simulation: the discrete parts of its layout,
//! routing, spawning and yielding logic, with their contracts.

use vstd::prelude::*;

pub mod blueprint;
pub mod graphics;
pub mod layout;
pub mod simulation;

verus! {

/// Identifier of an entity in the simulation world (the bits of an ECS entity).
pub type EntityId = u64;

} // verus!
