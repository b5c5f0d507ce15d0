//! Straight-line approximation of boundary segments.
use vstd::prelude::*;

use crate::error::GeometryError;
use crate::geometry::primitives::arc::Arc;
use crate::geometry::primitives::boundary_segment::BoundarySegment;
use crate::geometry::primitives::edge::Edge;
use crate::geometry::primitives::point::Point;
use crate::math::{evaluate, evaluates, Elementary};
use crate::num::Num;

verus! {

/// How many chords of an arc deviate from it by no more than the tolerance.
pub open spec fn spec_chord_count<M: Fn(Elementary) -> Num>(
    arc: &Arc,
    tolerance: Num,
    math: &M,
) -> usize {
    let tolerance = tolerance.max(Num::e_minus_4()).min(arc.radius);
    let max_sweep = Num::two().mul(
        evaluate(math, Elementary::Acos(Num::one().sub(tolerance.div(arc.radius)))),
    );
    let n = arc.sweep.abs().div(max_sweep).ceil_to_usize();
    if n < 1 {
        1
    } else {
        n
    }
}

#[verifier::when_used_as_spec(spec_chord_count)]
pub fn chord_count<M: Fn(Elementary) -> Num>(arc: &Arc, tolerance: Num, math: &M) -> (r: usize)
    requires
        evaluates(math),
    ensures
        r == spec_chord_count(arc, tolerance, math),
{
    let tolerance: Num = tolerance.max(Num::e_minus_4()).min(arc.radius);
    let max_sweep: Num = Num::two().mul(
        evaluate(math, Elementary::Acos(Num::one().sub(tolerance.div(arc.radius)))),
    );
    let n: usize = arc.sweep.abs().div(max_sweep).ceil_to_usize();
    if n < 1 {
        1
    } else {
        n
    }
}

pub open spec fn spec_arc_point<M: Fn(Elementary) -> Num>(
    arc: &Arc,
    i: usize,
    n: usize,
    math: &M,
) -> Point {
    arc.point_at_angle(
        arc.start_angle(math).add(arc.sweep.mul(Num::from_usize(i).div(Num::from_usize(n)))),
        math,
    )
}

/// The point of an arc after `i` of `n` equal parts of its sweep.
#[verifier::when_used_as_spec(spec_arc_point)]
pub fn arc_point<M: Fn(Elementary) -> Num>(arc: &Arc, i: usize, n: usize, math: &M) -> (r: Point)
    requires
        evaluates(math),
    ensures
        r == spec_arc_point(arc, i, n, math),
{
    arc.point_at_angle(
        arc.start_angle(math).add(arc.sweep.mul(Num::from_usize(i).div(Num::from_usize(n)))),
        math,
    )
}

/// The chord of an arc over part `i` of `n`.
pub open spec fn chord<M: Fn(Elementary) -> Num>(arc: &Arc, i: int, n: usize, math: &M) -> Edge {
    Edge {
        start: arc_point(arc, i as usize, n, math),
        end: arc_point(arc, (i + 1) as usize, n, math),
    }
}

/// The edges that stand for a segment.
pub open spec fn tessellated<M: Fn(Elementary) -> Num>(
    segment: BoundarySegment,
    tolerance: Num,
    math: &M,
) -> Seq<Edge> {
    match segment {
        BoundarySegment::Line(edge) => seq![edge],
        BoundarySegment::Arc(arc) => {
            let n = chord_count(&arc, tolerance, math);
            Seq::new(n as nat, |i: int| chord(&arc, i, n, math))
        },
    }
}

/// Whether one of the chords of an arc has no length.
pub open spec fn has_degenerate_chord<M: Fn(Elementary) -> Num>(
    segment: BoundarySegment,
    tolerance: Num,
    math: &M,
) -> bool {
    segment is Arc && exists|i: int|
        0 <= i < tessellated(segment, tolerance, math).len() && (#[trigger] tessellated(
            segment,
            tolerance,
            math,
        )[i]).start.same_as(tessellated(segment, tolerance, math)[i].end)
}

pub fn tessellate_segment<M: Fn(Elementary) -> Num>(
    segment: BoundarySegment,
    tolerance: Num,
    math: &M,
) -> (r: Result<Vec<Edge>, GeometryError>)
    requires
        evaluates(math),
    ensures
        match r {
            Ok(edges) => !has_degenerate_chord(segment, tolerance, math) && edges@ == tessellated(
                segment,
                tolerance,
                math,
            ),
            Err(e) => has_degenerate_chord(segment, tolerance, math) && e
                == GeometryError::DegenerateEdge,
        },
{
    let mut edges: Vec<Edge> = Vec::new();
    match segment {
        BoundarySegment::Line(edge) => {
            edges.push(edge);
            assert(edges@ =~= seq![edge]);
        },
        BoundarySegment::Arc(arc) => {
            let n: usize = chord_count(&arc, tolerance, math);
            let ghost all = tessellated(segment, tolerance, math);
            let mut i: usize = 0;
            while i < n
                invariant
                    i <= n,
                    n == chord_count(&arc, tolerance, math),
                    evaluates(math),
                    segment == BoundarySegment::Arc(arc),
                    all == tessellated(segment, tolerance, math),
                    edges@ == all.take(i as int),
                    forall|j: int| 0 <= j < i ==> !(#[trigger] all[j]).start.same_as(all[j].end),
                decreases n - i,
            {
                let start: Point = arc_point(&arc, i, n, math);
                let end: Point = arc_point(&arc, i + 1, n, math);
                assert(all[i as int] == (Edge { start, end }));
                match Edge::try_new(start, end) {
                    Ok(edge) => edges.push(edge),
                    Err(e) => {
                        return Err(e);
                    },
                }
                i = i + 1;
                assert(edges@ =~= all.take(i as int));
            }
            assert(all.take(n as int) =~= all);
        },
    }
    Ok(edges)
}

} // verus!
