//! Turning external representations into internal ones.
pub mod boundaries;
pub mod containers;
pub mod importer;
pub mod items;
pub mod curves;
pub mod laws;
pub mod shapes;
pub mod transformations;
