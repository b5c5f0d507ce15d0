//! The building blocks of shapes.
pub mod arc;
pub mod arc_angles;
pub mod arc_laws;
pub mod arc_meetings;
pub mod boundary;
pub mod boundary_segment;
pub mod box_laws;
pub mod bulge_laws;
pub mod centroid;
pub mod circle;
pub mod collisions;
pub mod crossing_laws;
pub mod direction;
pub mod edge;
pub mod edge_laws;
pub mod exact_outlines;
pub mod exact_signs;
pub mod laws;
pub mod moments;
pub mod point;
pub mod polygon_laws;
pub mod ray_casting;
pub mod real_algebra;
pub mod rect;
pub mod shifts;
pub mod simple_polygon;
pub mod tessellation;
pub mod tessellation_laws;
