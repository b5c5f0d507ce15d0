//! Straight outlines without rounding: their areas, and how they wind about a point.
use vstd::prelude::*;

use crate::geometry::primitives::point::Point;

verus! {

/// A measure that sides in opposite directions contribute opposite amounts to.
pub open spec fn is_signed(side: spec_fn(Point, Point) -> int) -> bool {
    forall|a: Point, b: Point| #[trigger] side(b, a) == -side(a, b)
}

/// What the way along the points contributes to a measure.
pub open spec fn along_path(side: spec_fn(Point, Point) -> int, points: Seq<Point>) -> int
    decreases points.len(),
{
    if points.len() < 2 {
        0
    } else {
        along_path(side, points.drop_last()) + side(points[points.len() - 2], points.last())
    }
}

/// A measure of the closed outline through the points.
pub open spec fn around(side: spec_fn(Point, Point) -> int, points: Seq<Point>) -> int {
    if points.len() == 0 {
        0
    } else {
        along_path(side, points) + side(points.last(), points[0])
    }
}

/// What a side contributes to twice the area, in squared units.
pub open spec fn exact_term(from: Point, to: Point) -> int {
    (from.1.value() + to.1.value()) * (from.0.value() - to.0.value())
}

/// Twice the area as a measure of outlines.
pub open spec fn area_measure() -> spec_fn(Point, Point) -> int {
    |from: Point, to: Point| exact_term(from, to)
}

/// Twice the area within the outline through the points, positive if it is counterclockwise.
pub open spec fn twice_the_area(points: Seq<Point>) -> int {
    around(area_measure(), points)
}

/// Twice the area of the triangle from one point over another to a third, in squared units;
/// positive if the way turns left.
pub open spec fn turn(a: (int, int), b: (int, int), c: (int, int)) -> int {
    (b.0 - a.0) * (c.1 - a.1) - (b.1 - a.1) * (c.0 - a.0)
}

/// How a side passes a place: 1 if it passes upwards to the right of it, -1 if it passes
/// downwards there, and 0 if it does not pass to the right of it.
pub open spec fn passage(from: (int, int), to: (int, int), place: (int, int)) -> int {
    if from.1 <= place.1 < to.1 && turn(from, to, place) > 0 {
        1
    } else if to.1 <= place.1 < from.1 && turn(from, to, place) < 0 {
        -1
    } else {
        0
    }
}

/// The winding about a place as a measure of outlines.
pub open spec fn winding_measure(place: (int, int)) -> spec_fn(Point, Point) -> int {
    |from: Point, to: Point|
        passage(
            crate::geometry::primitives::moments::place(from),
            crate::geometry::primitives::moments::place(to),
            place,
        )
}

/// How often the outline through the points goes round a place, counterclockwise.
pub open spec fn winding(points: Seq<Point>, place: (int, int)) -> int {
    around(winding_measure(place), points)
}

proof fn lemma_turn_back(a: (int, int), b: (int, int), c: (int, int))
    ensures
        turn(b, a, c) == -turn(a, b, c),
        turn(b, c, a) == turn(a, b, c),
        turn(a, c, b) == -turn(a, b, c),
{
    let (x, y) = (b.0 - a.0, b.1 - a.1);
    let (u, w) = (c.0 - a.0, c.1 - a.1);
    assert((-x) * (w - y) - (-y) * (u - x) == -(x * w - y * u)) by (nonlinear_arith);
    assert((u - x) * (-y) - (w - y) * (-x) == x * w - y * u) by (nonlinear_arith);
    assert(u * y - w * x == -(x * w - y * u)) by (nonlinear_arith);
}

/// The area and the winding are measures to which sides in opposite directions contribute opposite
/// amounts.
pub proof fn areas_and_windings_are_signed(place: (int, int))
    ensures
        is_signed(area_measure()),
        is_signed(winding_measure(place)),
{
    assert forall|a: Point, b: Point| #[trigger] area_measure()(b, a) == -area_measure()(a, b) by {
        let (y, z) = (a.1.value(), b.1.value());
        let (x, w) = (a.0.value(), b.0.value());
        assert((z + y) * (w - x) == -((y + z) * (x - w))) by (nonlinear_arith);
    }
    assert forall|a: Point, b: Point| #[trigger]
        winding_measure(place)(b, a) == -winding_measure(place)(a, b) by {
        lemma_turn_back(
            crate::geometry::primitives::moments::place(a),
            crate::geometry::primitives::moments::place(b),
            place,
        );
    }
}

/// A way that goes on from where another one ends contributes its own part.
pub proof fn paths_add_up(side: spec_fn(Point, Point) -> int, a: Seq<Point>, b: Seq<Point>)
    requires
        a.len() > 0,
        b.len() > 0,
    ensures
        along_path(side, a + b) == along_path(side, a) + side(a.last(), b[0]) + along_path(side, b),
    decreases b.len(),
{
    let all = a + b;
    assert(all.last() == b.last());
    if b.len() == 1 {
        assert(all.drop_last() =~= a);
        assert(all[all.len() - 2] == a.last());
    } else {
        assert(all.drop_last() =~= a + b.drop_last());
        paths_add_up(side, a, b.drop_last());
        assert(all[all.len() - 2] == b[b.len() - 2]);
    }
}

/// A way that is cut at one of its points contributes the sum of the two parts.
pub proof fn paths_can_be_cut(side: spec_fn(Point, Point) -> int, points: Seq<Point>, i: int)
    requires
        0 <= i < points.len(),
    ensures
        along_path(side, points) == along_path(side, points.subrange(0, i + 1)) + along_path(
            side,
            points.subrange(i, points.len() as int),
        ),
{
    let a = points.subrange(0, i + 1);
    let b = points.subrange(i, points.len() as int);
    if i + 1 < points.len() {
        let c = points.subrange(i + 1, points.len() as int);
        assert(points =~= a + c);
        paths_add_up(side, a, c);
        assert(b =~= seq![points[i]] + c);
        paths_add_up(side, seq![points[i]], c);
        assert(along_path(side, seq![points[i]]) == 0);
    } else {
        assert(a =~= points);
        assert(b.len() == 1);
    }
}

/// A way that is cut at two of its points contributes the sum of the three parts.
pub proof fn paths_can_be_cut_twice(
    side: spec_fn(Point, Point) -> int,
    points: Seq<Point>,
    low: int,
    high: int,
)
    requires
        0 <= low <= high < points.len(),
    ensures
        along_path(side, points) == along_path(side, points.subrange(0, low + 1)) + along_path(
            side,
            points.subrange(low, high + 1),
        ) + along_path(side, points.subrange(high, points.len() as int)),
{
    let n = points.len() as int;
    let tail = points.subrange(low, n);
    paths_can_be_cut(side, points, low);
    paths_can_be_cut(side, tail, high - low);
    assert(tail.subrange(0, high - low + 1) =~= points.subrange(low, high + 1));
    assert(tail.subrange(high - low, tail.len() as int) =~= points.subrange(high, n));
}

/// A measure of a triangle is the sum over its three sides.
pub proof fn around_triangles(side: spec_fn(Point, Point) -> int, p: Point, q: Point, r: Point)
    ensures
        around(side, seq![p, q, r]) == side(p, q) + side(q, r) + side(r, p),
{
    let points = seq![p, q, r];
    assert(points.drop_last() =~= seq![p, q]);
    assert(seq![p, q].drop_last() =~= seq![p]);
    assert(along_path(side, seq![p]) == 0);
    assert(along_path(side, seq![p, q]) == side(p, q));
}

/// Twice the area of a triangle is the cross product of two of its sides.
pub proof fn triangles_have_half_the_cross_product(p: Point, q: Point, r: Point)
    ensures
        twice_the_area(seq![p, q, r]) == turn(
            crate::geometry::primitives::moments::place(p),
            crate::geometry::primitives::moments::place(q),
            crate::geometry::primitives::moments::place(r),
        ),
{
    around_triangles(area_measure(), p, q, r);
    let (a, b) = (p.0.value(), p.1.value());
    let (c, d) = (q.0.value(), q.1.value());
    let (e, f) = (r.0.value(), r.1.value());
    assert((b + d) * (a - c) + (d + f) * (c - e) + (f + b) * (e - a) == (c - a) * (f - b) - (d
        - b) * (e - a)) by (nonlinear_arith);
}

/// Of two ways that share their lower end and do not turn right, one after the other, the first
/// passes to the right of a place if the second does.
proof fn lemma_ways_up_and_down(u: (int, int), v: (int, int), w: (int, int))
    requires
        u.0 * v.1 - u.1 * v.0 >= 0,
        v.0 * w.1 - v.1 * w.0 > 0,
        u.1 > 0,
        v.1 > 0,
        w.1 >= 0,
    ensures
        u.0 * w.1 - u.1 * w.0 > 0,
{
    let a = v.0 * w.1 - v.1 * w.0;
    let b = u.0 * v.1 - u.1 * v.0;
    let c = u.0 * w.1 - u.1 * w.0;
    assert(v.1 * c == u.1 * a + w.1 * b) by (nonlinear_arith)
        requires
            a == v.0 * w.1 - v.1 * w.0,
            b == u.0 * v.1 - u.1 * v.0,
            c == u.0 * w.1 - u.1 * w.0,
    ;
    assert(u.1 * a > 0) by (nonlinear_arith)
        requires
            u.1 > 0,
            a > 0,
    ;
    assert(w.1 * b >= 0) by (nonlinear_arith)
        requires
            w.1 >= 0,
            b >= 0,
    ;
    assert(c > 0) by (nonlinear_arith)
        requires
            v.1 * c > 0,
            v.1 > 0,
    ;
}

/// One side of a triangle passes upwards: what passes downwards does not pass to the right of a
/// place that the side itself does not pass to the right of.
proof fn lemma_up_outweighs_down(p: (int, int), q: (int, int), r: (int, int), z: (int, int))
    requires
        turn(p, q, r) >= 0,
        p.1 <= z.1 < q.1,
    ensures
        passage(p, q, z) + passage(q, r, z) + passage(r, p, z) >= 0,
{
    lemma_turn_back(q, r, z);
    lemma_turn_back(r, p, z);
    lemma_turn_back(p, q, r);
    if passage(q, r, z) == -1 {
        // Both ways share the upper end: seen from there, everything points down.
        let u = (q.0 - r.0, q.1 - r.1);
        let v = (q.0 - p.0, q.1 - p.1);
        let w = (q.0 - z.0, q.1 - z.1);
        assert(turn(q, r, z) == u.0 * w.1 - u.1 * w.0) by (nonlinear_arith)
            requires
                u == (q.0 - r.0, q.1 - r.1),
                w == (q.0 - z.0, q.1 - z.1),
                turn(q, r, z) == (r.0 - q.0) * (z.1 - q.1) - (r.1 - q.1) * (z.0 - q.0),
        ;
        assert(turn(p, q, z) == -(v.0 * w.1 - v.1 * w.0)) by (nonlinear_arith)
            requires
                v == (q.0 - p.0, q.1 - p.1),
                w == (q.0 - z.0, q.1 - z.1),
                turn(p, q, z) == (q.0 - p.0) * (z.1 - p.1) - (q.1 - p.1) * (z.0 - p.0),
        ;
        assert(turn(p, q, r) == -(v.0 * u.1 - v.1 * u.0)) by (nonlinear_arith)
            requires
                v == (q.0 - p.0, q.1 - p.1),
                u == (q.0 - r.0, q.1 - r.1),
                turn(p, q, r) == (q.0 - p.0) * (r.1 - p.1) - (q.1 - p.1) * (r.0 - p.0),
        ;
        lemma_upper_end(u, v, w);
    }
    if passage(r, p, z) == -1 {
        let u = (q.0 - p.0, q.1 - p.1);
        let v = (r.0 - p.0, r.1 - p.1);
        let w = (z.0 - p.0, z.1 - p.1);
        assert(turn(p, q, r) == u.0 * v.1 - u.1 * v.0);
        assert(turn(p, q, z) == u.0 * w.1 - u.1 * w.0);
        assert(turn(p, r, z) == v.0 * w.1 - v.1 * w.0);
        lemma_ways_up_and_down(u, v, w);
    }
}

/// The same for two ways that share their upper end.
proof fn lemma_upper_end(u: (int, int), v: (int, int), w: (int, int))
    requires
        v.0 * u.1 - v.1 * u.0 <= 0,
        u.0 * w.1 - u.1 * w.0 < 0,
        u.1 > 0,
        v.1 > 0,
        w.1 > 0,
    ensures
        v.0 * w.1 - v.1 * w.0 < 0,
{
    let a = u.0 * w.1 - u.1 * w.0;
    let b = v.0 * u.1 - v.1 * u.0;
    let c = v.0 * w.1 - v.1 * w.0;
    assert(u.1 * c == v.1 * a + w.1 * b) by (nonlinear_arith)
        requires
            a == u.0 * w.1 - u.1 * w.0,
            b == v.0 * u.1 - v.1 * u.0,
            c == v.0 * w.1 - v.1 * w.0,
    ;
    assert(v.1 * a < 0) by (nonlinear_arith)
        requires
            v.1 > 0,
            a < 0,
    ;
    assert(w.1 * b <= 0) by (nonlinear_arith)
        requires
            w.1 > 0,
            b <= 0,
    ;
    assert(c < 0) by (nonlinear_arith)
        requires
            u.1 * c < 0,
            u.1 > 0,
    ;
}

proof fn lemma_left_triangles(p: (int, int), q: (int, int), r: (int, int), z: (int, int))
    requires
        turn(p, q, r) >= 0,
    ensures
        passage(p, q, z) + passage(q, r, z) + passage(r, p, z) >= 0,
{
    lemma_turn_back(p, q, r);
    lemma_turn_back(q, r, p);
    if p.1 <= z.1 < q.1 {
        lemma_up_outweighs_down(p, q, r, z);
    } else if q.1 <= z.1 < r.1 {
        lemma_up_outweighs_down(q, r, p, z);
    } else if r.1 <= z.1 < p.1 {
        lemma_up_outweighs_down(r, p, q, z);
    }
}

/// A triangle that does not turn right does not wind clockwise about any place, and one that does
/// not turn left does not wind counterclockwise.
pub proof fn triangles_wind_as_they_turn(p: Point, q: Point, r: Point, place: (int, int))
    ensures
        twice_the_area(seq![p, q, r]) >= 0 ==> winding(seq![p, q, r], place) >= 0,
        twice_the_area(seq![p, q, r]) <= 0 ==> winding(seq![p, q, r], place) <= 0,
{
    let (a, b, c) = (
        crate::geometry::primitives::moments::place(p),
        crate::geometry::primitives::moments::place(q),
        crate::geometry::primitives::moments::place(r),
    );
    triangles_have_half_the_cross_product(p, q, r);
    around_triangles(winding_measure(place), p, q, r);
    lemma_turn_back(a, b, c);
    if turn(a, b, c) >= 0 {
        lemma_left_triangles(a, b, c, place);
    }
    if turn(a, b, c) <= 0 {
        lemma_left_triangles(a, c, b, place);
        areas_and_windings_are_signed(place);
        lemma_turn_back(a, b, place);
        lemma_turn_back(b, c, place);
        lemma_turn_back(c, a, place);
    }
}

} // verus!
