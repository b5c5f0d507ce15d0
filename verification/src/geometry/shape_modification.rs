//! Replacing shapes by simpler, larger or smaller ones.
use vstd::prelude::*;

use crate::num::Num;

pub mod candidates;
pub mod concavities;
pub mod concavity_laws;
pub mod corners;
pub mod growth;
pub mod offset_laws;
pub mod offsetting;
pub mod simplification;
pub mod validity;

verus! {

/// Whether to strictly inflate or deflate when making any modifications to a shape.
#[derive(Clone, Copy, Debug, PartialEq, Eq, Hash, Structural)]
pub enum ShapeModifyMode {
    /// Modify the shape to be strictly larger (superset).
    Inflate,
    /// Modify the shape to be strictly smaller (subset).
    Deflate,
}

#[derive(Clone, Copy, Debug, PartialEq, Eq)]
pub struct ShapeModifyConfig {
    /// Maximum deviation of the simplified polygon with respect to the area as a ratio.
    /// If undefined, no simplification is performed.
    pub simplify_tolerance: Option<Num>,
    /// Offset by which to inflate or deflate the polygon.
    /// If undefined, no offset is applied.
    pub offset: Option<Num>,
    /// The greatest distance between two vertices that can be joined to close a concavity, as a
    /// fraction of the diameter, and the greatest area that may be closed off by it, as a
    /// fraction of the area. If undefined, no concavities are closed.
    pub narrow_concavity_cutoff: Option<(Num, Num)>,
}

impl Default for ShapeModifyConfig {
    /// A configuration that leaves shapes as they are.
    fn default() -> (r: ShapeModifyConfig)
        ensures
            r.simplify_tolerance is None,
            r.offset is None,
            r.narrow_concavity_cutoff is None,
    {
        ShapeModifyConfig { simplify_tolerance: None, offset: None, narrow_concavity_cutoff: None }
    }
}

} // verus!
