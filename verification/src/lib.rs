//! Geometry of irregular shapes bounded by straight lines and circular arcs, for
//! nesting problems: building and simplifying polygons, asking about them, and
//! importing items, containers and solutions.
pub mod collision_detection;
pub mod error;
pub mod geometry;
pub mod io;
pub mod math;
pub mod num;
pub mod outside;
pub mod probs;
