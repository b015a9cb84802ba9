//! Waypoint-following pathfinding over a precomputed linear navmesh.
//!
//! A sparse polyline of control points is densified once, at startup, into
//! an ordered sequence of waypoints (`WaypointPath`). Agents
//! (`PathFollowingAgent`) then walk that shared, immutable sequence: every
//! simulation tick each agent asks for a steering force toward its current
//! target waypoint, advancing the target once it comes within a fixed
//! arrival threshold, and holding position with the zero vector once the
//! last waypoint is reached.
//!
//! All geometry lives on a bounded integer grid: coordinates are whole
//! world units, distances are compared exactly through their squares, and
//! the only rounding anywhere is the specified floor in the interpolation
//! step count, the interpolation offsets, and the force scaling.

pub mod agent;
pub mod isqrt;
pub mod path;
pub mod vec2;

pub use agent::PathFollowingAgent;
pub use path::{Density, InvalidInputError, WaypointPath};
pub use vec2::Vec2;
