//! Light-weight stand-ins for shapes, for quick collision tests.
pub mod sp_surrogate;
