//! The roundabout layout: segments, connections, spawn and end points.

pub mod assembled;
pub mod assembly;
pub mod components;
pub mod conflict_points;
pub mod routes;
pub mod topology;
pub mod yield_points;
