//! Hazards in the nodes of a quadtree.
pub mod qt_partial_hazard;
