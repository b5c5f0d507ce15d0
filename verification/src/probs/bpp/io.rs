//! Bin packing instances and solutions that come in.
pub mod import;
pub mod solution;
