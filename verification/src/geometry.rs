//! Planar shapes bounded by straight lines and circular arcs.
pub mod fail_fast;
pub mod geo_enums;
pub mod original_shape;
pub mod primitives;
pub mod shape_modification;
pub mod transformation;
