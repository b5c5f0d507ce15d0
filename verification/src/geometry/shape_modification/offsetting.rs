//! Inflating and deflating polygons.
use vstd::prelude::*;

use crate::error::GeometryError;
use crate::geometry::primitives::arc::PlineVertex;
use crate::geometry::primitives::circle::Circle;
use crate::geometry::primitives::point::Point;
use crate::geometry::primitives::simple_polygon::{SPolygon, Toolkit};
use crate::geometry::shape_modification::ShapeModifyMode;
use crate::io::ext_repr::ExtSPolygon;
use crate::io::import::shapes::import_simple_polygon;
use crate::math::Elementary;
use crate::num::Num;

verus! {

/// A closed polyline with bulges, and the signed area within it.
pub struct Contour {
    pub vertices: Vec<PlineVertex>,
    pub area: Num,
}

/// What offsetting needs from its caller.
pub struct OffsetTools<B, C> {
    /// Moves the sides of a polygon outward by a distance, or inward by a negative one, and
    /// rounds the corners; it gives back the outer boundary of each polygon that results.
    pub buffer: B,
    /// Moves a closed polyline with bulges to its left by a distance; it gives back each
    /// polyline that results.
    pub parallel_offset: C,
}

impl<
    B: Fn(&Vec<Point>, Num) -> Vec<Vec<Point>>,
    C: Fn(&Vec<PlineVertex>, Num) -> Vec<Contour>,
> OffsetTools<B, C> {
    /// Both can be asked about everything.
    pub open spec fn usable(&self) -> bool {
        &&& forall|points: &Vec<Point>, offset: Num| #[trigger]
            call_requires(self.buffer, (points, offset))
        &&& forall|polyline: &Vec<PlineVertex>, offset: Num| #[trigger]
            call_requires(self.parallel_offset, (polyline, offset))
    }
}

/// How far the boundary moves outward.
pub open spec fn spec_outward(mode: ShapeModifyMode, distance: Num) -> Num {
    match mode {
        ShapeModifyMode::Deflate => distance.neg(),
        ShapeModifyMode::Inflate => distance,
    }
}

#[verifier::when_used_as_spec(spec_outward)]
pub fn outward(mode: ShapeModifyMode, distance: Num) -> (r: Num)
    ensures
        r == spec_outward(mode, distance),
{
    match mode {
        ShapeModifyMode::Deflate => distance.neg(),
        ShapeModifyMode::Inflate => distance,
    }
}

/// How far the boundary moves inward, which is to the left of its direction.
pub open spec fn spec_inward(mode: ShapeModifyMode, distance: Num) -> Num {
    match mode {
        ShapeModifyMode::Deflate => distance,
        ShapeModifyMode::Inflate => distance.neg(),
    }
}

#[verifier::when_used_as_spec(spec_inward)]
pub fn inward(mode: ShapeModifyMode, distance: Num) -> (r: Num)
    ensures
        r == spec_inward(mode, distance),
{
    match mode {
        ShapeModifyMode::Deflate => distance,
        ShapeModifyMode::Inflate => distance.neg(),
    }
}

/// The places of the vertices of a polyline.
pub open spec fn polyline_places(polyline: Seq<PlineVertex>) -> Seq<Point> {
    polyline.map_values(|v: PlineVertex| Point(v.x, v.y))
}

/// The bulges of the vertices of a polyline.
pub open spec fn polyline_bulges(polyline: Seq<PlineVertex>) -> Seq<Num> {
    polyline.map_values(|v: PlineVertex| v.bulge)
}

/// The vertices of a polygon as a closed polyline.
pub open spec fn polyline_of(shape: &SPolygon) -> Seq<PlineVertex> {
    Seq::new(
        if shape.vertices@.len() <= shape.bulges@.len() {
            shape.vertices@.len()
        } else {
            shape.bulges@.len()
        },
        |i: int|
            PlineVertex {
                x: shape.vertices@[i].0,
                y: shape.vertices@[i].1,
                bulge: shape.bulges@[i],
            },
    )
}

pub open spec fn spec_exceeds_half_turn(bulge: Num) -> bool {
    bulge.abs().gt(Num::one().add(Num::e_minus_6()))
}

/// Whether a segment of this bulge sweeps clearly more than half a turn.
#[verifier::when_used_as_spec(spec_exceeds_half_turn)]
pub fn exceeds_half_turn(bulge: Num) -> (r: bool)
    ensures
        r == spec_exceeds_half_turn(bulge),
{
    bulge.abs().gt(Num::one().add(Num::e_minus_6()))
}

/// One of the segments of a polygon sweeps clearly more than half a turn.
pub open spec fn has_large_bulge(shape: &SPolygon) -> bool {
    exists|i: int| 0 <= i < shape.bulges@.len() && exceeds_half_turn(#[trigger] shape.bulges@[i])
}

/// The polyline of a polygon none of whose segments sweeps clearly more than half a turn.
pub fn cavalier_polyline_from_spolygon(sp: &SPolygon) -> (r: Result<
    Vec<PlineVertex>,
    GeometryError,
>)
    ensures
        match r {
            Ok(polyline) => !has_large_bulge(sp) && polyline@ == polyline_of(sp),
            Err(e) => has_large_bulge(sp) && e == GeometryError::BulgeTooLargeForOffset,
        },
{
    let mut i: usize = 0;
    while i < sp.bulges.len()
        invariant
            i <= sp.bulges@.len(),
            forall|j: int| 0 <= j < i ==> !exceeds_half_turn(#[trigger] sp.bulges@[j]),
        decreases sp.bulges.len() - i,
    {
        if exceeds_half_turn(sp.bulges[i]) {
            assert(exceeds_half_turn(sp.bulges@[i as int]));
            return Err(GeometryError::BulgeTooLargeForOffset);
        }
        i = i + 1;
    }
    let polyline: Vec<PlineVertex> = sp.to_cavalier_vertices();
    assert(polyline@ =~= polyline_of(sp));
    Ok(polyline)
}

/// The values that belong to a polyline without a last vertex that equals the first one.
pub open spec fn without_closing<T>(points: Seq<Point>, values: Seq<T>) -> Seq<T> {
    if points.len() > 1 && points[0].same_as(points.last()) {
        values.drop_last()
    } else {
        values
    }
}

/// `r` is a possible outcome when a polygon is made of a closed polyline.
pub open spec fn is_made_of_polyline<
    M: Fn(Elementary) -> Num,
    P: Fn(&SPolygon) -> Result<Circle, GeometryError>,
>(
    polyline: Seq<PlineVertex>,
    tools: &Toolkit<M, P>,
    r: Result<SPolygon, GeometryError>,
) -> bool {
    let points = polyline_places(polyline);
    crate::geometry::primitives::simple_polygon::is_built(
        without_closing(points, points),
        without_closing(points, polyline_bulges(polyline)),
        tools,
        crate::geometry::primitives::simple_polygon::modelled(r),
    )
}

/// Makes a polygon of a closed polyline.
pub fn spolygon_from_cavalier_polyline<
    M: Fn(Elementary) -> Num,
    P: Fn(&SPolygon) -> Result<Circle, GeometryError>,
>(polyline: &[PlineVertex], tools: &Toolkit<M, P>) -> (r: Result<SPolygon, GeometryError>)
    requires
        tools.usable(),
    ensures
        is_made_of_polyline(polyline@, tools, r),
        r matches Ok(shape) ==> shape.valid(&tools.math),
{
    let mut points: Vec<Point> = Vec::new();
    let mut bulges: Vec<Num> = Vec::new();
    let mut i: usize = 0;
    while i < polyline.len()
        invariant
            i <= polyline@.len(),
            points@ == polyline_places(polyline@).take(i as int),
            bulges@ == polyline_bulges(polyline@).take(i as int),
        decreases polyline.len() - i,
    {
        let vertex: PlineVertex = polyline[i];
        points.push(Point(vertex.x, vertex.y));
        bulges.push(vertex.bulge);
        i = i + 1;
        assert(points@ =~= polyline_places(polyline@).take(i as int));
        assert(bulges@ =~= polyline_bulges(polyline@).take(i as int));
    }
    assert(points@ =~= polyline_places(polyline@));
    assert(bulges@ =~= polyline_bulges(polyline@));
    if points.len() > 1 && points[0].same_as(points[points.len() - 1]) {
        points.pop();
        bulges.pop();
        assert(points@ =~= polyline_places(polyline@).drop_last());
        assert(bulges@ =~= polyline_bulges(polyline@).drop_last());
    }
    SPolygon::new_with_bulges(points, bulges, tools)
}

/// Contour `i` encloses the largest area; of several that do, it is the last.
pub open spec fn is_largest(contours: Seq<Contour>, i: int) -> bool {
    &&& 0 <= i < contours.len()
    &&& forall|j: int|
        0 <= j < contours.len() ==> (#[trigger] contours[j]).area.abs().sort_key()
            <= contours[i].area.abs().sort_key()
    &&& forall|j: int|
        i < j < contours.len() ==> (#[trigger] contours[j]).area.abs().sort_key()
            < contours[i].area.abs().sort_key()
}

/// Finds the contour that encloses the largest area.
pub fn largest_contour(contours: &[Contour]) -> (r: Option<usize>)
    ensures
        match r {
            Some(i) => is_largest(contours@, i as int),
            None => contours@.len() == 0,
        },
{
    if contours.len() == 0 {
        return None;
    }
    let mut best: usize = 0;
    let mut best_key: i64 = contours[0].area.abs().to_sort_key();
    let mut i: usize = 1;
    while i < contours.len()
        invariant
            1 <= i <= contours@.len(),
            best < i,
            best_key == contours@[best as int].area.abs().sort_key(),
            forall|j: int|
                0 <= j < i ==> (#[trigger] contours@[j]).area.abs().sort_key() <= best_key,
            forall|j: int|
                best < j < i ==> (#[trigger] contours@[j]).area.abs().sort_key() < best_key,
        decreases contours.len() - i,
    {
        let key: i64 = contours[i].area.abs().to_sort_key();
        if key >= best_key {
            best = i;
            best_key = key;
        }
        i = i + 1;
    }
    Some(best)
}

/// `r` is a possible outcome when a polygon with arcs is offset: the largest of the contours
/// that come back becomes the polygon.
pub open spec fn is_curved_offset<
    M: Fn(Elementary) -> Num,
    P: Fn(&SPolygon) -> Result<Circle, GeometryError>,
    B: Fn(&Vec<Point>, Num) -> Vec<Vec<Point>>,
    C: Fn(&Vec<PlineVertex>, Num) -> Vec<Contour>,
>(
    sp: &SPolygon,
    mode: ShapeModifyMode,
    distance: Num,
    offset_tools: &OffsetTools<B, C>,
    tools: &Toolkit<M, P>,
    r: Result<SPolygon, GeometryError>,
) -> bool {
    if has_large_bulge(sp) {
        r == Err::<SPolygon, _>(GeometryError::BulgeTooLargeForOffset)
    } else {
        exists|polyline: Vec<PlineVertex>, contours: Vec<Contour>|
            {
                &&& #[trigger] call_ensures(
                    offset_tools.parallel_offset,
                    (&polyline, inward(mode, distance)),
                    contours,
                )
                &&& polyline@ == polyline_of(sp)
                &&& if contours@.len() == 0 {
                    r == Err::<SPolygon, _>(GeometryError::EmptyOffset)
                } else {
                    exists|i: int| #[trigger]
                        is_largest(contours@, i) && is_made_of_polyline(
                            contours@[i].vertices@,
                            tools,
                            r,
                        )
                }
            }
    }
}

/// Offsets a polygon with arcs.
pub fn offset_curved_shape<
    M: Fn(Elementary) -> Num,
    P: Fn(&SPolygon) -> Result<Circle, GeometryError>,
    B: Fn(&Vec<Point>, Num) -> Vec<Vec<Point>>,
    C: Fn(&Vec<PlineVertex>, Num) -> Vec<Contour>,
>(
    sp: &SPolygon,
    mode: ShapeModifyMode,
    distance: Num,
    offset_tools: &OffsetTools<B, C>,
    tools: &Toolkit<M, P>,
) -> (r: Result<SPolygon, GeometryError>)
    requires
        tools.usable(),
        offset_tools.usable(),
    ensures
        is_curved_offset(sp, mode, distance, offset_tools, tools, r),
        r matches Ok(shape) ==> shape.valid(&tools.math),
{
    let polyline: Vec<PlineVertex> = match cavalier_polyline_from_spolygon(sp) {
        Ok(polyline) => polyline,
        Err(e) => return Err(e),
    };
    let parallel_offset: &C = &offset_tools.parallel_offset;
    let contours: Vec<Contour> = parallel_offset(&polyline, inward(mode, distance));
    match largest_contour(&contours) {
        None => Err(GeometryError::EmptyOffset),
        Some(i) => {
            assert(is_largest(contours@, i as int));
            spolygon_from_cavalier_polyline(&contours[i].vertices, tools)
        },
    }
}

/// `r` is a possible outcome when a polygon is offset: with arcs, as a polyline; without, the
/// first of the rings that come back is imported.
pub open spec fn is_offset<
    M: Fn(Elementary) -> Num,
    P: Fn(&SPolygon) -> Result<Circle, GeometryError>,
    B: Fn(&Vec<Point>, Num) -> Vec<Vec<Point>>,
    C: Fn(&Vec<PlineVertex>, Num) -> Vec<Contour>,
>(
    sp: &SPolygon,
    mode: ShapeModifyMode,
    distance: Num,
    offset_tools: &OffsetTools<B, C>,
    tools: &Toolkit<M, P>,
    r: Result<SPolygon, GeometryError>,
) -> bool {
    if sp.has_arcs() {
        is_curved_offset(sp, mode, distance, offset_tools, tools, r)
    } else {
        exists|rings: Vec<Vec<Point>>|
            {
                &&& #[trigger] call_ensures(
                    offset_tools.buffer,
                    (&sp.vertices, outward(mode, distance)),
                    rings,
                )
                &&& if rings@.len() == 0 {
                    r == Err::<SPolygon, _>(GeometryError::EmptyOffset)
                } else {
                    crate::io::import::boundaries::is_imported(
                        rings@[0]@,
                        crate::geometry::primitives::simple_polygon::straight_bulges(
                            rings@[0]@.len(),
                        ),
                        tools,
                        r,
                    )
                }
            }
    }
}

/// Offsets a polygon by a distance, outward to inflate and inward to deflate it.
pub fn offset_shape<
    M: Fn(Elementary) -> Num,
    P: Fn(&SPolygon) -> Result<Circle, GeometryError>,
    B: Fn(&Vec<Point>, Num) -> Vec<Vec<Point>>,
    C: Fn(&Vec<PlineVertex>, Num) -> Vec<Contour>,
>(
    sp: &SPolygon,
    mode: ShapeModifyMode,
    distance: Num,
    offset_tools: &OffsetTools<B, C>,
    tools: &Toolkit<M, P>,
) -> (r: Result<SPolygon, GeometryError>)
    requires
        tools.usable(),
        offset_tools.usable(),
    ensures
        is_offset(sp, mode, distance, offset_tools, tools, r),
        r matches Ok(shape) ==> shape.valid(&tools.math),
{
    if sp.has_arcs() {
        return offset_curved_shape(sp, mode, distance, offset_tools, tools);
    }
    let buffer: &B = &offset_tools.buffer;
    let rings: Vec<Vec<Point>> = buffer(&sp.vertices, outward(mode, distance));
    if rings.len() == 0 {
        return Err(GeometryError::EmptyOffset);
    }
    let ring: &Vec<Point> = &rings[0];
    let mut vertices: Vec<(Num, Num)> = Vec::new();
    let mut i: usize = 0;
    while i < ring.len()
        invariant
            i <= ring@.len(),
            vertices@.len() == i,
            forall|j: int|
                0 <= j < i ==> (#[trigger] vertices@[j]) == (ring@[j].0, ring@[j].1),
        decreases ring.len() - i,
    {
        let Point(x, y) = ring[i];
        vertices.push((x, y));
        i = i + 1;
    }
    let outline: ExtSPolygon = ExtSPolygon(vertices);
    assert(crate::io::import::shapes::vertices_of(&outline) =~= ring@);
    import_simple_polygon(&outline, tools)
}

} // verus!
