//! Laws that relate the primitives to each other.
use vstd::prelude::*;

use crate::error::GeometryError;
use crate::geometry::primitives::arc::Arc;
use crate::geometry::primitives::boundary::area_epsilon;
use crate::geometry::primitives::boundary_segment::BoundarySegment;
use crate::geometry::primitives::circle::Circle;
use crate::geometry::primitives::edge::Edge;
use crate::geometry::primitives::point::Point;
use crate::geometry::primitives::rect::Rect;
use crate::geometry::primitives::simple_polygon::{SPolygon, Toolkit};
use crate::math::Elementary;
use crate::num::Num;

verus! {

/// The coordinates of the point are numbers.
pub open spec fn is_numeric(point: Point) -> bool {
    !point.0.is_nan() && !point.1.is_nan()
}

/// The bounds are numbers.
pub open spec fn has_numeric_bounds(b: Rect) -> bool {
    !b.x_min.is_nan() && !b.y_min.is_nan() && !b.x_max.is_nan() && !b.y_max.is_nan()
}

/// The one rectangle lies within the bounds of the other.
pub open spec fn is_within(inner: Rect, outer: Rect) -> bool {
    &&& outer.x_min.le(inner.x_min)
    &&& outer.y_min.le(inner.y_min)
    &&& inner.x_max.le(outer.x_max)
    &&& inner.y_max.le(outer.y_max)
}

/// Bounds that are moved out to points enclose each of the points, and stay numbers.
pub proof fn extended_bounds_enclose(b: Rect, points: Seq<Point>)
    requires
        has_numeric_bounds(b),
    ensures
        has_numeric_bounds(b.including_all(points)),
        is_within(b, b.including_all(points)),
        forall|i: int|
            0 <= i < points.len() && is_numeric(#[trigger] points[i]) ==> b.including_all(
                points,
            ).collides_with_point(points[i]),
    decreases points.len(),
{
    if points.len() > 0 {
        extended_bounds_enclose(b, points.drop_last());
        assert forall|i: int|
            0 <= i < points.len() && is_numeric(#[trigger] points[i]) implies b.including_all(
            points,
        ).collides_with_point(points[i]) by {
            if i < points.len() - 1 {
                assert(points.drop_last()[i] == points[i]);
            }
        }
    }
}

/// The box around points contains every one of them.
pub proof fn box_contains_its_points(points: Seq<Point>, b: Rect, i: int)
    requires
        crate::geometry::primitives::boundary::enclosing_box(points) == Ok::<_, GeometryError>(b),
        0 <= i < points.len(),
        is_numeric(points[i]),
    ensures
        b.collides_with_point(points[i]),
{
    extended_bounds_enclose(Rect::finite_inside_out(), points);
}

/// The box of an arc contains its end points and its axis extrema.
pub proof fn arc_box_contains_the_extrema<M: Fn(Elementary) -> Num>(
    center: Point,
    radius: Num,
    start: Point,
    end: Point,
    sweep: Num,
    arc: Arc,
    i: int,
    math: &M,
)
    requires
        Arc::try_new(center, radius, start, end, sweep, math) == Ok::<_, GeometryError>(arc),
    ensures
        arc.bbox.collides_with_point(arc.start),
        arc.bbox.collides_with_point(arc.end),
        0 <= i < arc.extreme_points(math).len() && is_numeric(arc.extreme_points(math)[i])
            ==> arc.bbox.collides_with_point(arc.extreme_points(math)[i]),
{
    let points = seq![start, end] + arc.extreme_points(math);
    extended_bounds_enclose(Rect::unbounded_inside_out(), points);
    assert(points[0] == start);
    assert(points[1] == end);
    if 0 <= i < arc.extreme_points(math).len() {
        assert(points[i + 2] == arc.extreme_points(math)[i]);
    }
}

/// A polygon that was built runs counterclockwise: its area is positive, unless it is no
/// number.
pub proof fn built_polygons_have_positive_area<
    M: Fn(Elementary) -> Num,
    P: Fn(&SPolygon) -> Result<Circle, GeometryError>,
>(
    points: Seq<Point>,
    bulges: Seq<Num>,
    tools: &Toolkit<M, P>,
    shape: crate::geometry::primitives::simple_polygon::PolygonModel,
)
    requires
        crate::geometry::primitives::simple_polygon::is_built(points, bulges, tools, Ok(shape)),
        !shape.area.is_nan(),
    ensures
        shape.area.gt(area_epsilon()),
{
}

/// The bounding box of a polygon that was built contains its vertices and the axis extrema of
/// its arcs.
pub proof fn built_polygons_lie_within_their_box<
    M: Fn(Elementary) -> Num,
    P: Fn(&SPolygon) -> Result<Circle, GeometryError>,
>(
    points: Seq<Point>,
    bulges: Seq<Num>,
    tools: &Toolkit<M, P>,
    shape: crate::geometry::primitives::simple_polygon::PolygonModel,
    i: int,
)
    requires
        crate::geometry::primitives::simple_polygon::is_built(points, bulges, tools, Ok(shape)),
    ensures
        ({
            let extremes = crate::geometry::primitives::boundary::extreme_boundary_points(
                shape.vertices,
                shape.bulges,
                &tools.math,
            )->Ok_0;
            0 <= i < extremes.len() && is_numeric(extremes[i]) ==> shape.bbox.collides_with_point(
                extremes[i],
            )
        }),
{
    let extremes = crate::geometry::primitives::boundary::extreme_boundary_points(
        shape.vertices,
        shape.bulges,
        &tools.math,
    )->Ok_0;
    if 0 <= i < extremes.len() && is_numeric(extremes[i]) {
        box_contains_its_points(extremes, shape.bbox, i);
    }
}

/// A polygon that was built has as many vertices as were given, none of them twice.
pub proof fn built_polygons_keep_the_vertices<
    M: Fn(Elementary) -> Num,
    P: Fn(&SPolygon) -> Result<Circle, GeometryError>,
>(
    points: Seq<Point>,
    bulges: Seq<Num>,
    tools: &Toolkit<M, P>,
    shape: crate::geometry::primitives::simple_polygon::PolygonModel,
)
    requires
        crate::geometry::primitives::simple_polygon::is_built(points, bulges, tools, Ok(shape)),
    ensures
        shape.vertices.len() == points.len(),
        !crate::geometry::primitives::boundary::has_duplicates(shape.vertices),
        shape.vertices == points || shape.vertices == points.reverse(),
{
    if shape.vertices == points.reverse() {
        if crate::geometry::primitives::boundary::has_duplicates(shape.vertices) {
            let (i, j) = choose|i: int, j: int|
                0 <= i < j < shape.vertices.len()
                    && crate::geometry::primitives::boundary::place_of(
                    #[trigger] shape.vertices[i],
                ) == crate::geometry::primitives::boundary::place_of(#[trigger] shape.vertices[j]);
            let n = points.len();
            assert(shape.vertices[i] == points[n - 1 - i]);
            assert(shape.vertices[j] == points[n - 1 - j]);
        }
    }
}

/// Straight segments are tessellated to themselves.
pub proof fn straight_segments_are_their_own_tessellation<M: Fn(Elementary) -> Num>(
    segments: Seq<BoundarySegment>,
    tolerance: Num,
    math: &M,
)
    requires
        forall|i: int| 0 <= i < segments.len() ==> (#[trigger] segments[i]) is Line,
    ensures
        crate::geometry::primitives::simple_polygon::queries::can_be_tessellated(
            segments,
            tolerance,
            math,
        ),
        crate::geometry::primitives::simple_polygon::queries::all_tessellated(
            segments,
            tolerance,
            math,
        ) == segments.map_values(|s: BoundarySegment| s->Line_0),
    decreases segments.len(),
{
    if segments.len() > 0 {
        let before = segments.drop_last();
        assert forall|i: int| 0 <= i < before.len() implies (#[trigger] before[i]) is Line by {
            assert(before[i] == segments[i]);
        }
        straight_segments_are_their_own_tessellation(before, tolerance, math);
        assert(segments[segments.len() - 1] is Line);
    }
    assert(crate::geometry::primitives::simple_polygon::queries::all_tessellated(
        segments,
        tolerance,
        math,
    ) =~= segments.map_values(|s: BoundarySegment| s->Line_0));
}

/// A valid polygon without arcs has straight segments only: its chords.
pub proof fn segments_without_arcs_are_chords<M: Fn(Elementary) -> Num>(
    shape: &SPolygon,
    i: int,
    math: &M,
)
    requires
        shape.valid(math),
        !shape.has_arcs(),
        0 <= i < shape.vertices@.len(),
    ensures
        shape@.segments(math)[i] == BoundarySegment::Line(
            Edge {
                start: shape.vertices@[i],
                end: crate::geometry::primitives::boundary::successor(shape.vertices@, i),
            },
        ),
{
    assert(crate::geometry::primitives::boundary::segment_at(
        shape.vertices@,
        shape.bulges@,
        i,
        math,
    ) is Ok);
    assert(!shape.bulges@[i].abs().gt(crate::geometry::primitives::boundary::bulge_epsilon()));
}

/// Each boundary segment starts at its vertex and ends at the next one.
pub proof fn segments_join_the_vertices<M: Fn(Elementary) -> Num>(
    shape: &SPolygon,
    i: int,
    math: &M,
)
    requires
        shape.valid(math),
        0 <= i < shape.vertices@.len(),
    ensures
        shape@.segments(math)[i].start() == shape.vertices@[i],
        shape@.segments(math)[i].end() == crate::geometry::primitives::boundary::successor(
            shape.vertices@,
            i,
        ),
{
    assert(crate::geometry::primitives::boundary::segment_at(
        shape.vertices@,
        shape.bulges@,
        i,
        math,
    ) is Ok);
}

/// A point outside the bounding box is outside the polygon.
pub proof fn nothing_outside_the_box_collides<M: Fn(Elementary) -> Num>(
    shape: &SPolygon,
    point: Point,
    math: &M,
)
    requires
        !shape.bbox.collides_with_point(point),
    ensures
        !shape.collides_with(point, math),
{
}

/// Moving an arc keeps its radius and its sweep.
pub proof fn moving_keeps_radius_and_sweep<M: Fn(Elementary) -> Num>(
    arc: Arc,
    t: crate::geometry::transformation::Transformation,
    math: &M,
)
    ensures
        arc.transformed(t, math).radius == arc.radius,
        arc.transformed(t, math).sweep == arc.sweep,
{
}

/// All the values are zero.
pub open spec fn all_zero(values: Seq<Num>) -> bool {
    forall|i: int| 0 <= i < values.len() ==> #[trigger] values[i] == Num::zero()
}

/// A polygon that is built with straight sides has no arcs.
pub proof fn straight_sides_make_no_arcs<
    M: Fn(Elementary) -> Num,
    P: Fn(&SPolygon) -> Result<Circle, GeometryError>,
>(points: Seq<Point>, bulges: Seq<Num>, tools: &Toolkit<M, P>, shape: SPolygon)
    requires
        crate::geometry::primitives::simple_polygon::is_built(points, bulges, tools, Ok(shape@)),
        all_zero(bulges),
    ensures
        !shape.has_arcs(),
        forall|i: int|
            0 <= i < shape.bulges@.len() ==> (#[trigger] shape.bulges@[i]).num_eq(Num::zero()),
{
    assert forall|i: int| 0 <= i < shape.bulges@.len() implies (
    #[trigger] shape.bulges@[i]).num_eq(Num::zero()) && !shape.bulges@[i].abs().gt(
        crate::geometry::primitives::boundary::bulge_epsilon(),
    ) by {
        assert(shape@.bulges[i] == shape.bulges@[i]);
        let n = bulges.len();
        if i < n - 1 {
            assert(bulges[n - 2 - i] == Num::zero());
        }
        assert(bulges[i] == Num::zero());
    }
}

proof fn lemma_equal_places_have_no_distance(p: Point, q: Point)
    requires
        crate::num::laws::is_zero(p.0.sub(q.0)),
        crate::num::laws::is_zero(p.1.sub(q.1)),
    ensures
        p.sq_distance_to(q).num_eq(Num::zero()),
{
    let dx = p.0.sub(q.0);
    let dy = p.1.sub(q.1);
    crate::num::laws::zeros_stay_zeros(dx, dx);
    crate::num::laws::zeros_stay_zeros(dy, dy);
    crate::num::laws::zeros_stay_zeros(dx.mul(dx), dy.mul(dy));
    crate::num::laws::zeros_stay_zeros(dx.mul(dx).add(dy.mul(dy)), dx);
}

/// An edge has no distance from the point where it starts, unless it is too long for its
/// extent to be a finite number.
pub proof fn edges_contain_their_start(edge: Edge)
    requires
        edge.start.is_finite(),
        edge.end.0.sub(edge.start.0).is_finite(),
        edge.end.1.sub(edge.start.1).is_finite(),
    ensures
        edge.sq_distance_to(edge.start).num_eq(Num::zero()),
{
    let Point(x, y) = edge.start;
    let c = edge.end.0.sub(x);
    let d = edge.end.1.sub(y);
    let zero_x = x.sub(x);
    let zero_y = y.sub(y);
    crate::num::laws::differences_and_zeros(x, Num::zero());
    crate::num::laws::differences_and_zeros(y, Num::zero());
    crate::num::laws::zeros_stay_zeros(zero_x, c);
    crate::num::laws::zeros_stay_zeros(zero_y, d);
    let dot = zero_x.mul(c).add(zero_y.mul(d));
    crate::num::laws::zeros_stay_zeros(zero_x.mul(c), zero_y.mul(d));
    let len_sq = c.mul(c).add(d.mul(d));
    assert(!len_sq.is_nan()) by {
        reveal(Num::spec_add);
        reveal(Num::spec_mul);
        crate::num::laws::rounded_numbers_are_numbers(c.units() * c.units(), Num::one_in_units());
        crate::num::laws::rounded_numbers_are_numbers(d.units() * d.units(), Num::one_in_units());
        let sum = c.mul(c).value() + d.mul(d).value();
        crate::num::laws::rounded_numbers_are_numbers(sum as nat, 1);
        crate::num::laws::rounded_numbers_are_numbers((-sum) as nat, 1);
    }
    if len_sq.num_eq(Num::zero()) {
        lemma_equal_places_have_no_distance(edge.start, edge.start);
    } else {
        crate::num::laws::zeros_stay_zeros(dot, len_sq);
        let t = dot.div(len_sq);
        crate::num::laws::zeros_stay_zeros(t, c);
        crate::num::laws::zeros_stay_zeros(t, d);
        crate::num::laws::differences_and_zeros(x, t.mul(c));
        crate::num::laws::differences_and_zeros(y, t.mul(d));
        let near = Point(x.add(t.mul(c)), y.add(t.mul(d)));
        assert(edge.closest_point(edge.start) == near);
        lemma_equal_places_have_no_distance(edge.start, near);
    }
}

/// An arc collides with the point where it starts, provided that the direction of that point
/// is a finite number.
pub proof fn arcs_contain_their_start<M: Fn(Elementary) -> Num>(
    center: Point,
    radius: Num,
    start: Point,
    end: Point,
    sweep: Num,
    arc: Arc,
    math: &M,
)
    requires
        Arc::try_new(center, radius, start, end, sweep, math) == Ok::<_, GeometryError>(arc),
        arc.start_angle(math).is_finite(),
    ensures
        arc.collides_with_point(arc.start, math),
{
    let a = arc.start_angle(math);
    let epsilon = crate::geometry::primitives::arc::angle_epsilon();
    crate::num::laws::differences_and_zeros(a, Num::zero());
    let none = a.sub(a);
    crate::num::laws::remainders_of_zero(none, Num::tau());
    let turned = crate::geometry::primitives::arc::normalize_angle(none);
    assert(crate::num::laws::is_zero(turned));
    if sweep.ge(Num::zero()) {
        crate::num::laws::sums_of_positives_are_positive(sweep, epsilon);
    } else {
        crate::num::laws::sums_of_positives_are_positive(sweep.neg(), epsilon);
    }
}

/// A polygon that was built contains its vertices: a vertex at which a straight side starts if
/// the extent of the side is finite, and one at which an arc starts if its direction from the
/// center is.
pub proof fn polygons_contain_their_vertices<
    M: Fn(Elementary) -> Num,
    P: Fn(&SPolygon) -> Result<Circle, GeometryError>,
>(points: Seq<Point>, bulges: Seq<Num>, tools: &Toolkit<M, P>, shape: &SPolygon, i: int)
    requires
        crate::geometry::primitives::simple_polygon::is_built(points, bulges, tools, Ok(shape@)),
        0 <= i < shape.vertices@.len(),
        shape.vertices@[i].is_finite(),
        match shape@.segments(&tools.math)[i] {
            BoundarySegment::Line(edge) => edge.end.0.sub(edge.start.0).is_finite()
                && edge.end.1.sub(edge.start.1).is_finite(),
            BoundarySegment::Arc(arc) => arc.start_angle(&tools.math).is_finite(),
        },
    ensures
        shape.collides_with(shape.vertices@[i], &tools.math),
{
    let math = &tools.math;
    let vertex = shape.vertices@[i];
    crate::geometry::primitives::simple_polygon::built_polygons_are_valid(
        points,
        bulges,
        tools,
        shape@,
    );
    let segment = shape@.segments(math)[i];
    segments_join_the_vertices(shape, i, math);
    let extremes = crate::geometry::primitives::boundary::extreme_boundary_points(
        shape.vertices@,
        shape.bulges@,
        math,
    )->Ok_0;
    assert(extremes[i] == vertex);
    built_polygons_lie_within_their_box(points, bulges, tools, shape@, i);
    assert(shape.bbox.collides_with_point(vertex));
    assert(crate::geometry::primitives::boundary::segment_at(
        shape.vertices@,
        shape.bulges@,
        i,
        math,
    ) is Ok);
    match segment {
        BoundarySegment::Line(edge) => {
            edges_contain_their_start(edge);
        },
        BoundarySegment::Arc(arc) => {
            let (center, radius) = Arc::circle_from_bulge(arc.start, arc.end, shape.bulges@[i]);
            arcs_contain_their_start(center, radius, arc.start, arc.end, arc.sweep, arc, math);
        },
    }
    assert(segment.collides_with_point(vertex, math));
}

} // verus!
