//! Bin packing.
pub mod io;
