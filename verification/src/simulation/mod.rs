//! Vehicle simulation: routes, spawning, navigation and yielding.

pub mod components;
pub mod kinematics;
pub mod pathfinding;
pub mod random;
pub mod sector_map;
pub mod spawning;
pub mod statistics;
pub mod yielding;
