//! Finding out what collides.
pub mod quadtree;
