//! What comes in from outside.
pub mod ext_repr;
pub mod import;
