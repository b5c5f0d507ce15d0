//! Shapes as they came in, and what is to be done with them.
use vstd::prelude::*;

use crate::geometry::primitives::simple_polygon::SPolygon;
use crate::geometry::shape_modification::{ShapeModifyConfig, ShapeModifyMode};
use crate::geometry::transformation::DTransformation;

verus! {

/// A shape as it came in, and how the internal representation is derived from it.
pub struct OriginalShape {
    pub shape: SPolygon,
    /// The transformation that is applied first.
    pub pre_transform: DTransformation,
    /// Whether modifications may only enlarge or only reduce the shape.
    pub modify_mode: ShapeModifyMode,
    pub modify_config: ShapeModifyConfig,
}

} // verus!
