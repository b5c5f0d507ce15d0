//! What can go wrong when geometry is built or imported.
use vstd::prelude::*;

verus! {

#[derive(Clone, Copy, Debug, PartialEq, Eq, Structural)]
pub enum GeometryError {
    /// An edge whose two end points coincide.
    DegenerateEdge,
    /// A rectangle without extent along one of the axes.
    EmptyRect,
    InvalidCircleRadius,
    InvalidCircleCenter,
    InvalidArcRadius,
    InvalidArcPoint,
    InvalidArcSweep,
    ArcStartOffCircle,
    ArcEndOffCircle,
    InvalidArcBulge,
    /// An arc whose two end points coincide.
    CoincidentArcEndpoints,
    TooFewPoints,
    BulgeCountMismatch,
    InvalidBulge,
    DuplicatePoints,
    NoArea,
    /// A boundary whose points have no greatest distance.
    NoDiameter,
    NonConsecutiveDuplicates,
    /// A corner that turns neither left nor right nor goes straight on.
    UndefinedTurn,
    InvalidVertex,
    /// The boundary segments at these two places meet although they are not neighbours.
    SelfIntersection(usize, usize),
    UnsupportedMultiPolygon,
    /// A zone of a quality that is not below the best.
    UnknownQuality,
    /// A zone with a shape that may have holes.
    UnsupportedZoneShape,
    InvalidTessellationTolerance,
    NoArcSegments,
    InvalidArcSegment,
    ZeroArcSweep,
    NonContiguousArcs,
    OpenArcBoundary,
    EmptyOffset,
    BulgeTooLargeForOffset,
    NonConsecutiveItemIds,
    NoItems,
    NonConsecutiveBinIds,
    NoBins,
    /// A failure that a function supplied by the caller reports.
    Supplied,
}

impl GeometryError {
    /// What went wrong, in words.
    pub open spec fn text(self) -> Seq<char> {
        match self {
            GeometryError::DegenerateEdge => "degenerate edge: start and end coincide"@,
            GeometryError::EmptyRect => "invalid rectangle: no extent along one of the axes"@,
            GeometryError::InvalidCircleRadius => "invalid circle radius"@,
            GeometryError::InvalidCircleCenter => "invalid circle center"@,
            GeometryError::InvalidArcRadius => "invalid arc radius"@,
            GeometryError::InvalidArcPoint => "invalid arc point"@,
            GeometryError::InvalidArcSweep => "invalid arc sweep"@,
            GeometryError::ArcStartOffCircle => "arc start does not lie on the circle"@,
            GeometryError::ArcEndOffCircle => "arc end does not lie on the circle"@,
            GeometryError::InvalidArcBulge => "invalid arc bulge"@,
            GeometryError::CoincidentArcEndpoints => "arc start and end coincide"@,
            GeometryError::TooFewPoints => "Simple polygon must have at least 3 points"@,
            GeometryError::BulgeCountMismatch => "Simple polygon must have one bulge per vertex"@,
            GeometryError::InvalidBulge => "Simple polygon contains invalid bulge values"@,
            GeometryError::DuplicatePoints => "Simple polygon should not contain duplicate points"@,
            GeometryError::NoArea => "Simple polygon has no area"@,
            GeometryError::NoDiameter => "Simple polygon has no diameter"@,
            GeometryError::NonConsecutiveDuplicates => "Simple polygon has non-consecutive duplicate vertices"@,
            GeometryError::UndefinedTurn => "cross product is NaN"@,
            GeometryError::InvalidVertex => "invalid polygon vertex"@,
            GeometryError::SelfIntersection(_, _) => "Simple polygon boundary self-intersects"@,
            GeometryError::UnsupportedMultiPolygon => "No support for multipolygon shapes yet"@,
            GeometryError::UnknownQuality => "All quality zones must have lower quality than N_QUALITIES, set N_QUALITIES to a higher value if required"@,
            GeometryError::UnsupportedZoneShape => "No support for polygons with holes in quality zones"@,
            GeometryError::InvalidTessellationTolerance => "curve tessellation tolerance must be positive and finite"@,
            GeometryError::NoArcSegments => "arc shape must contain at least one segment"@,
            GeometryError::InvalidArcSegment => "invalid arc segment"@,
            GeometryError::ZeroArcSweep => "arc segment sweep must be non-zero"@,
            GeometryError::NonContiguousArcs => "arc segments are not contiguous"@,
            GeometryError::OpenArcBoundary => "arc segments do not form a closed boundary"@,
            GeometryError::EmptyOffset => "Offset resulted in an empty polygon"@,
            GeometryError::BulgeTooLargeForOffset => "Cavalier offsets require arcs with |bulge| <= 1; split larger arcs before offsetting"@,
            GeometryError::NonConsecutiveItemIds => "All items should have consecutive IDs starting from 0"@,
            GeometryError::NoItems => "the instance must have at least one item with positive demand"@,
            GeometryError::NonConsecutiveBinIds => "All bins should have consecutive IDs starting from 0"@,
            GeometryError::NoBins => "the instance must have at least one bin with positive stock"@,
            GeometryError::Supplied => "a supplied function failed"@,
        }
    }

    pub fn message(&self) -> (r: &'static str)
        ensures
            r@ == self.text(),
    {
        match self {
            GeometryError::DegenerateEdge => "degenerate edge: start and end coincide",
            GeometryError::EmptyRect => "invalid rectangle: no extent along one of the axes",
            GeometryError::InvalidCircleRadius => "invalid circle radius",
            GeometryError::InvalidCircleCenter => "invalid circle center",
            GeometryError::InvalidArcRadius => "invalid arc radius",
            GeometryError::InvalidArcPoint => "invalid arc point",
            GeometryError::InvalidArcSweep => "invalid arc sweep",
            GeometryError::ArcStartOffCircle => "arc start does not lie on the circle",
            GeometryError::ArcEndOffCircle => "arc end does not lie on the circle",
            GeometryError::InvalidArcBulge => "invalid arc bulge",
            GeometryError::CoincidentArcEndpoints => "arc start and end coincide",
            GeometryError::TooFewPoints => "Simple polygon must have at least 3 points",
            GeometryError::BulgeCountMismatch => "Simple polygon must have one bulge per vertex",
            GeometryError::InvalidBulge => "Simple polygon contains invalid bulge values",
            GeometryError::DuplicatePoints => "Simple polygon should not contain duplicate points",
            GeometryError::NoArea => "Simple polygon has no area",
            GeometryError::NoDiameter => "Simple polygon has no diameter",
            GeometryError::NonConsecutiveDuplicates => "Simple polygon has non-consecutive duplicate vertices",
            GeometryError::UndefinedTurn => "cross product is NaN",
            GeometryError::InvalidVertex => "invalid polygon vertex",
            GeometryError::SelfIntersection(_, _) => "Simple polygon boundary self-intersects",
            GeometryError::UnsupportedMultiPolygon => "No support for multipolygon shapes yet",
            GeometryError::UnknownQuality => "All quality zones must have lower quality than N_QUALITIES, set N_QUALITIES to a higher value if required",
            GeometryError::UnsupportedZoneShape => "No support for polygons with holes in quality zones",
            GeometryError::InvalidTessellationTolerance => "curve tessellation tolerance must be positive and finite",
            GeometryError::NoArcSegments => "arc shape must contain at least one segment",
            GeometryError::InvalidArcSegment => "invalid arc segment",
            GeometryError::ZeroArcSweep => "arc segment sweep must be non-zero",
            GeometryError::NonContiguousArcs => "arc segments are not contiguous",
            GeometryError::OpenArcBoundary => "arc segments do not form a closed boundary",
            GeometryError::EmptyOffset => "Offset resulted in an empty polygon",
            GeometryError::BulgeTooLargeForOffset => "Cavalier offsets require arcs with |bulge| <= 1; split larger arcs before offsetting",
            GeometryError::NonConsecutiveItemIds => "All items should have consecutive IDs starting from 0",
            GeometryError::NoItems => "the instance must have at least one item with positive demand",
            GeometryError::NonConsecutiveBinIds => "All bins should have consecutive IDs starting from 0",
            GeometryError::NoBins => "the instance must have at least one bin with positive stock",
            GeometryError::Supplied => "a supplied function failed",
        }
    }
}

} // verus!
