//! Nesting problems.
pub mod bpp;
