//! External representations of shapes, items and containers.
use vstd::prelude::*;

use crate::num::Num;

verus! {

/// A polygon by the coordinates of its vertices.
#[derive(Clone, Debug)]
pub struct ExtSPolygon(pub Vec<(Num, Num)>);

/// A polygon by the coordinates of its vertices and the bulges of the segments that leave them.
#[derive(Clone, Debug)]
pub struct ExtBulgedPolygon(pub Vec<(Num, Num, Num)>);

/// A polygon with holes.
#[derive(Clone, Debug)]
pub struct ExtPolygon {
    /// The outer boundary.
    pub outer: ExtSPolygon,
    /// The boundaries of the holes.
    pub inner: Vec<ExtSPolygon>,
}

/// A circular arc.
#[derive(Clone, Copy, Debug)]
pub struct ExtArcSeg {
    pub center: (Num, Num),
    pub radius: Num,
    /// Where the arc starts, in radians.
    pub start_angle: Num,
    /// How far the arc goes, in radians; counterclockwise arcs count positive.
    pub sweep: Num,
}

/// The shapes that can come in.
#[derive(Clone, Debug)]
pub enum ExtShape {
    Rectangle { x_min: Num, y_min: Num, width: Num, height: Num },
    Circle { cx: Num, cy: Num, r: Num },
    SimplePolygon(ExtSPolygon),
    BulgedPolygon(ExtBulgedPolygon),
    /// Arcs that follow each other and close up.
    Arcs(Vec<ExtArcSeg>),
    Polygon(ExtPolygon),
    MultiPolygon(Vec<ExtPolygon>),
}

/// An item to be placed.
#[derive(Clone, Debug)]
pub struct ExtItem {
    pub id: u64,
    /// The orientations that are allowed, in degrees; all of them if undefined.
    pub allowed_orientations: Option<Vec<Num>>,
    pub shape: ExtShape,
    /// The least quality that the item needs where it is placed.
    pub min_quality: Option<usize>,
}

/// A part of a container of a certain quality.
#[derive(Clone, Debug)]
pub struct ExtQualityZone {
    pub quality: usize,
    pub shape: ExtShape,
}

/// A container to place items in.
#[derive(Clone, Debug)]
pub struct ExtContainer {
    pub id: u64,
    pub shape: ExtShape,
    pub zones: Vec<ExtQualityZone>,
}

} // verus!
