//! Ways to take one vertex out of an outline.
use vstd::prelude::*;

use crate::geometry::primitives::boundary::next_index;
use crate::geometry::primitives::edge::Edge;
use crate::geometry::primitives::point::Point;
use crate::geometry::shape_modification::corners::{Corner, CornerType};
use crate::num::Num;

verus! {

/// Two convex corners whose outer sides do not meet when they are extended.
#[derive(Clone, Copy, Debug, PartialEq, Eq, Structural)]
pub struct InvalidCandidate;

/// A way to take one vertex out of an outline.
#[derive(Clone, Copy, Debug, PartialEq, Eq)]
pub enum Candidate {
    /// Cut off a concave corner.
    Concave(Corner),
    /// Replace two consecutive convex corners by the point in which their outer sides meet.
    ConvexConvex(Corner, Corner),
    /// Drop a vertex on a straight line.
    Collinear(Corner),
}

impl Candidate {
    /// The indices are those of vertices, and two corners are consecutive ones.
    pub open spec fn fits(self, n: nat) -> bool {
        match self {
            Candidate::Concave(c) => c.fits(n),
            Candidate::Collinear(c) => c.fits(n),
            Candidate::ConvexConvex(c1, c2) => {
                &&& c1.fits(n)
                &&& c2.fits(n)
                &&& c1.2 == c2.1
                &&& c1.1 == c2.0
                &&& c1.1 != c2.1
            },
        }
    }
}

/// The point in which two edges meet when both are extended beyond their ends.
pub open spec fn spec_calculate_intersection_in_front(l1: Edge, l2: Edge) -> Option<Point> {
    let Point(x1, y1) = l1.start;
    let Point(x2, y2) = l1.end;
    let Point(x3, y3) = l2.start;
    let Point(x4, y4) = l2.end;
    let t_nom = x2.sub(x4).mul(y4.sub(y3)).sub(y2.sub(y4).mul(x4.sub(x3)));
    let u_nom = x2.sub(x4).mul(y2.sub(y1)).sub(y2.sub(y4).mul(x2.sub(x1)));
    let denom = x2.sub(x1).mul(y4.sub(y3)).sub(y2.sub(y1).mul(x4.sub(x3)));
    let t = if denom.num_eq(Num::zero()) {
        Num::zero()
    } else {
        t_nom.div(denom)
    };
    let u = if denom.num_eq(Num::zero()) {
        Num::zero()
    } else {
        u_nom.div(denom)
    };
    if t.lt(Num::zero()) && u.lt(Num::zero()) {
        Some(Point(x2.add(t.mul(x1.sub(x2))), y2.add(t.mul(y1.sub(y2)))))
    } else {
        None
    }
}

#[verifier::when_used_as_spec(spec_calculate_intersection_in_front)]
pub fn calculate_intersection_in_front(l1: Edge, l2: Edge) -> (r: Option<Point>)
    ensures
        r == spec_calculate_intersection_in_front(l1, l2),
{
    let Point(x1, y1) = l1.start;
    let Point(x2, y2) = l1.end;
    let Point(x3, y3) = l2.start;
    let Point(x4, y4) = l2.end;
    let t_nom: Num = x2.sub(x4).mul(y4.sub(y3)).sub(y2.sub(y4).mul(x4.sub(x3)));
    let u_nom: Num = x2.sub(x4).mul(y2.sub(y1)).sub(y2.sub(y4).mul(x2.sub(x1)));
    let denom: Num = x2.sub(x1).mul(y4.sub(y3)).sub(y2.sub(y1).mul(x4.sub(x3)));
    let t: Num = if denom.num_eq(Num::zero()) {
        Num::zero()
    } else {
        t_nom.div(denom)
    };
    let u: Num = if denom.num_eq(Num::zero()) {
        Num::zero()
    } else {
        u_nom.div(denom)
    };
    if t.lt(Num::zero()) && u.lt(Num::zero()) {
        Some(Point(x2.add(t.mul(x1.sub(x2))), y2.add(t.mul(y1.sub(y2)))))
    } else {
        None
    }
}

/// The vertex that takes the place of two convex corners: where the side that leads to
/// the first meets the one that leaves the second.
///
/// There is none if one of these sides has no length.
pub open spec fn replacing_vertex(shape: Seq<Point>, c1: Corner, c2: Corner) -> Result<
    Point,
    InvalidCandidate,
> {
    let edge_prev = Edge::try_new(shape[c1.0 as int], shape[c1.1 as int]);
    let edge_next = Edge::try_new(shape[c2.2 as int], shape[c2.1 as int]);
    match (edge_prev, edge_next) {
        (Ok(prev), Ok(next)) => match calculate_intersection_in_front(prev, next) {
            Some(point) => Ok(point),
            None => Err(InvalidCandidate),
        },
        _ => Err(InvalidCandidate),
    }
}

pub fn replacing_vertex_convex_convex_candidate(shape: &[Point], corners: (Corner, Corner)) -> (r:
    Result<Point, InvalidCandidate>)
    requires
        Candidate::ConvexConvex(corners.0, corners.1).fits(shape@.len()),
    ensures
        r == replacing_vertex(shape@, corners.0, corners.1),
{
    let (c1, c2): (Corner, Corner) = corners;
    match (Edge::try_new(shape[c1.0], shape[c1.1]), Edge::try_new(shape[c2.2], shape[c2.1])) {
        (Ok(prev), Ok(next)) => match calculate_intersection_in_front(prev, next) {
            Some(point) => Ok(point),
            None => Err(InvalidCandidate),
        },
        _ => Err(InvalidCandidate),
    }
}

pub open spec fn spec_triangle_area(p0: Point, p1: Point, p2: Point) -> Num {
    let Point(x0, y0) = p0;
    let Point(x1, y1) = p1;
    let Point(x2, y2) = p2;
    x0.mul(y1).add(x1.mul(y2)).add(x2.mul(y0)).sub(x0.mul(y2)).sub(x1.mul(y0)).sub(
        x2.mul(y1),
    ).div(Num::two()).abs()
}

/// The area of a triangle.
#[verifier::when_used_as_spec(spec_triangle_area)]
pub fn triangle_area(p0: Point, p1: Point, p2: Point) -> (r: Num)
    ensures
        r == spec_triangle_area(p0, p1, p2),
{
    let Point(x0, y0) = p0;
    let Point(x1, y1) = p1;
    let Point(x2, y2) = p2;
    x0.mul(y1).add(x1.mul(y2)).add(x2.mul(y0)).sub(x0.mul(y2)).sub(x1.mul(y0)).sub(
        x2.mul(y1),
    ).div(Num::two()).abs()
}

/// By how much the area changes if the candidate is executed.
pub open spec fn area_delta(shape: Seq<Point>, candidate: Candidate) -> Result<
    Num,
    InvalidCandidate,
> {
    match candidate {
        Candidate::Collinear(_) => Ok(Num::zero()),
        Candidate::Concave(c) => Ok(
            triangle_area(shape[c.0 as int], shape[c.1 as int], shape[c.2 as int]),
        ),
        Candidate::ConvexConvex(c1, c2) => match replacing_vertex(shape, c1, c2) {
            Ok(vertex) => Ok(triangle_area(shape[c1.1 as int], vertex, shape[c2.1 as int])),
            Err(e) => Err(e),
        },
    }
}

pub fn calculate_area_delta(shape: &[Point], candidate: &Candidate) -> (r: Result<
    Num,
    InvalidCandidate,
>)
    requires
        candidate.fits(shape@.len()),
    ensures
        r == area_delta(shape@, *candidate),
{
    match *candidate {
        Candidate::Collinear(_) => Ok(Num::zero()),
        Candidate::Concave(c) => Ok(triangle_area(shape[c.0], shape[c.1], shape[c.2])),
        Candidate::ConvexConvex(c1, c2) => match replacing_vertex_convex_convex_candidate(
            shape,
            (c1, c2),
        ) {
            Ok(vertex) => Ok(triangle_area(shape[c1.1], vertex, shape[c2.1])),
            Err(e) => Err(e),
        },
    }
}

/// One of the points has the same coordinates.
pub open spec fn holds_point(points: Seq<Point>, point: Point) -> bool {
    exists|i: int| 0 <= i < points.len() && (#[trigger] points[i]).same_as(point)
}

pub fn contains_point(points: &[Point], point: Point) -> (r: bool)
    ensures
        r == holds_point(points@, point),
{
    let mut i: usize = 0;
    while i < points.len()
        invariant
            i <= points.len(),
            forall|j: int| 0 <= j < i ==> !(#[trigger] points@[j]).same_as(point),
        decreases points.len() - i,
    {
        if points[i].same_as(point) {
            assert(points@[i as int].same_as(point));
            return true;
        }
        i = i + 1;
    }
    false
}

/// The side of an outline from vertex `i` to the next one, if it has a length.
pub open spec fn side(shape: Seq<Point>, i: int) -> Result<Edge, crate::error::GeometryError> {
    Edge::try_new(shape[i], crate::geometry::primitives::boundary::successor(shape, i))
}

/// The side has a length, and unless it ends in one of the affected points it meets none of
/// the new edges.
pub open spec fn side_is_clear(
    shape: Seq<Point>,
    i: int,
    affected: Seq<Point>,
    new_edges: Seq<Edge>,
) -> bool {
    match side(shape, i) {
        Err(_) => false,
        Ok(l) => {
            ||| holds_point(affected, l.start)
            ||| holds_point(affected, l.end)
            ||| forall|k: int|
                0 <= k < new_edges.len() ==> !l.collides_with_edge(#[trigger] new_edges[k])
        },
    }
}

/// No side of the outline is in the way of the new edges.
pub open spec fn outline_is_clear(
    shape: Seq<Point>,
    affected: Seq<Point>,
    new_edges: Seq<Edge>,
) -> bool {
    forall|i: int|
        0 <= i < shape.len() ==> #[trigger] side_is_clear(shape, i, affected, new_edges)
}

pub fn is_outline_clear(shape: &[Point], affected: &[Point], new_edges: &[Edge]) -> (r: bool)
    ensures
        r == outline_is_clear(shape@, affected@, new_edges@),
{
    let mut i: usize = 0;
    while i < shape.len()
        invariant
            i <= shape.len(),
            forall|j: int|
                0 <= j < i ==> #[trigger] side_is_clear(shape@, j, affected@, new_edges@),
        decreases shape.len() - i,
    {
        let j: usize = next_index(i, shape.len());
        match Edge::try_new(shape[i], shape[j]) {
            Err(_) => {
                assert(!side_is_clear(shape@, i as int, affected@, new_edges@));
                return false;
            },
            Ok(l) => {
                if !contains_point(affected, l.start) && !contains_point(affected, l.end) {
                    let mut k: usize = 0;
                    while k < new_edges.len()
                        invariant
                            k <= new_edges.len(),
                            i < shape.len(),
                            side(shape@, i as int) == Ok::<_, crate::error::GeometryError>(l),
                            !holds_point(affected@, l.start),
                            !holds_point(affected@, l.end),
                            forall|m: int|
                                0 <= m < k ==> !l.collides_with_edge(#[trigger] new_edges@[m]),
                        decreases new_edges.len() - k,
                    {
                        if l.collides_with_edge(new_edges[k]) {
                            assert(l.collides_with_edge(new_edges@[k as int]));
                            assert(!side_is_clear(shape@, i as int, affected@, new_edges@));
                            return false;
                        }
                        k = k + 1;
                    }
                }
            },
        }
        assert(side_is_clear(shape@, i as int, affected@, new_edges@));
        i = i + 1;
    }
    true
}

/// Whether the candidate can be executed without a self-intersection.
///
/// The new edges need a length, and so do all the sides of the outline.
pub open spec fn is_valid(shape: Seq<Point>, candidate: Candidate) -> bool {
    match candidate {
        Candidate::Collinear(_) => true,
        Candidate::Concave(c) => {
            let (p0, p1, p2) = (shape[c.0 as int], shape[c.1 as int], shape[c.2 as int]);
            !p0.same_as(p2) && outline_is_clear(
                shape,
                seq![p0, p1, p2],
                seq![Edge { start: p0, end: p2 }],
            )
        },
        Candidate::ConvexConvex(c1, c2) => match replacing_vertex(shape, c1, c2) {
            Err(_) => false,
            Ok(vertex) => {
                let start = shape[c1.0 as int];
                let end = shape[c2.2 as int];
                !start.same_as(vertex) && !vertex.same_as(end) && outline_is_clear(
                    shape,
                    seq![shape[c1.1 as int], start, shape[c2.1 as int], end],
                    seq![Edge { start, end: vertex }, Edge { start: vertex, end }],
                )
            },
        },
    }
}

pub fn candidate_is_valid(shape: &[Point], candidate: &Candidate) -> (r: bool)
    requires
        candidate.fits(shape@.len()),
    ensures
        r == is_valid(shape@, *candidate),
{
    match *candidate {
        Candidate::Collinear(_) => true,
        Candidate::Concave(c) => {
            let p0: Point = shape[c.0];
            let p1: Point = shape[c.1];
            let p2: Point = shape[c.2];
            match Edge::try_new(p0, p2) {
                Err(_) => false,
                Ok(new_edge) => {
                    let affected: [Point; 3] = [p0, p1, p2];
                    let new_edges: [Edge; 1] = [new_edge];
                    assert(affected@ =~= seq![p0, p1, p2]);
                    assert(new_edges@ =~= seq![Edge { start: p0, end: p2 }]);
                    is_outline_clear(shape, &affected, &new_edges)
                },
            }
        },
        Candidate::ConvexConvex(c1, c2) => match replacing_vertex_convex_convex_candidate(
            shape,
            (c1, c2),
        ) {
            Err(_) => false,
            Ok(vertex) => {
                let start: Point = shape[c1.0];
                let end: Point = shape[c2.2];
                match (Edge::try_new(start, vertex), Edge::try_new(vertex, end)) {
                    (Ok(new_edge_1), Ok(new_edge_2)) => {
                        let affected: [Point; 4] = [shape[c1.1], start, shape[c2.1], end];
                        let new_edges: [Edge; 2] = [new_edge_1, new_edge_2];
                        assert(affected@ =~= seq![
                            shape@[c1.1 as int],
                            start,
                            shape@[c2.1 as int],
                            end,
                        ]);
                        assert(new_edges@ =~= seq![
                            Edge { start, end: vertex },
                            Edge { start: vertex, end },
                        ]);
                        is_outline_clear(shape, &affected, &new_edges)
                    },
                    _ => false,
                }
            },
        },
    }
}

/// The outline after the candidate was executed.
pub open spec fn executed(shape: Seq<Point>, candidate: Candidate) -> Seq<Point> {
    match candidate {
        Candidate::Collinear(c) => shape.remove(c.1 as int),
        Candidate::Concave(c) => shape.remove(c.1 as int),
        Candidate::ConvexConvex(c1, c2) => {
            let other = if c1.1 < c2.1 {
                c2.1 - 1
            } else {
                c2.1 as int
            };
            shape.remove(c1.1 as int).update(other, replacing_vertex(shape, c1, c2)->Ok_0)
        },
    }
}

pub fn execute_candidate(shape: &[Point], candidate: &Candidate) -> (r: Vec<Point>)
    requires
        candidate.fits(shape@.len()),
        *candidate matches Candidate::ConvexConvex(c1, c2) ==> replacing_vertex(
            shape@,
            c1,
            c2,
        ) is Ok,
    ensures
        r@ == executed(shape@, *candidate),
{
    let mut points: Vec<Point> = vstd::slice::slice_to_vec(shape);
    match *candidate {
        Candidate::Collinear(c) => {
            points.remove(c.1);
        },
        Candidate::Concave(c) => {
            points.remove(c.1);
        },
        Candidate::ConvexConvex(c1, c2) => {
            if let Ok(vertex) = replacing_vertex_convex_convex_candidate(shape, (c1, c2)) {
                points.remove(c1.1);
                let other: usize = if c1.1 < c2.1 {
                    c2.1 - 1
                } else {
                    c2.1
                };
                points.set(other, vertex);
            }
        },
    }
    points
}

/// Executing a candidate takes one vertex out of the outline.
pub proof fn execution_removes_one_vertex(shape: Seq<Point>, candidate: Candidate)
    requires
        candidate.fits(shape.len()),
    ensures
        executed(shape, candidate).len() == shape.len() - 1,
{
}

/// The candidates at the first `k` of the corners, in their order.
pub open spec fn candidates_among(points: Seq<Point>, corners: Seq<Corner>, k: nat) -> Seq<
    Candidate,
>
    decreases k,
{
    if k == 0 {
        Seq::empty()
    } else {
        let i = k - 1;
        let before = candidates_among(points, corners, i as nat);
        let corner = corners[i];
        let prev_corner = if i == 0 {
            corners.last()
        } else {
            corners[i - 1]
        };
        match (
            CornerType::of_turn(corner.turn(points)),
            CornerType::of_turn(prev_corner.turn(points)),
        ) {
            (CornerType::Concave, _) => before.push(Candidate::Concave(corner)),
            (CornerType::Collinear, _) => before.push(Candidate::Collinear(corner)),
            (CornerType::Convex, CornerType::Convex) => before.push(
                Candidate::ConvexConvex(prev_corner, corner),
            ),
            _ => before,
        }
    }
}

/// At one of the corners the turn is no number.
pub open spec fn has_undefined_turn(points: Seq<Point>, corners: Seq<Corner>) -> bool {
    exists|k: int| 0 <= k < corners.len() && (#[trigger] corners[k]).turn(points).is_nan()
}

} // verus!
