//! Centers of mass of boundaries.
use vstd::prelude::*;

use crate::geometry::primitives::arc::Arc;
use crate::geometry::primitives::boundary::{area_epsilon, next_index, segment_area};
use crate::geometry::primitives::point::Point;
use crate::math::{evaluate, evaluates, Elementary};
use crate::num::Num;

verus! {

/// The sums over the first `n` chords that make up the first moments of a polygon.
pub open spec fn chord_moments(points: Seq<Point>, n: nat) -> (Num, Num)
    decreases n,
{
    if n == 0 {
        (Num::zero(), Num::zero())
    } else {
        let i = n - 1;
        let (c_x, c_y) = chord_moments(points, i as nat);
        let Point(x_i, y_i) = points[i];
        let Point(x_j, y_j) = crate::geometry::primitives::boundary::successor(points, i);
        let cross = x_i.mul(y_j).sub(x_j.mul(y_i));
        (c_x.add(x_i.add(x_j).mul(cross)), c_y.add(y_i.add(y_j).mul(cross)))
    }
}

/// The centroid of the polygon within the chords; the first vertex if there is no area.
pub open spec fn chord_centroid(points: Seq<Point>, area: Num) -> Point {
    let (c_x, c_y) = chord_moments(points, points.len());
    if area.abs().le(area_epsilon()) {
        points[0]
    } else {
        Point(c_x.div(Num::six().mul(area)), c_y.div(Num::six().mul(area)))
    }
}

pub fn calculate_chord_centroid(points: &[Point], area: Num) -> (r: Point)
    requires
        points.len() > 0,
    ensures
        r == chord_centroid(points@, area),
{
    if area.abs().le(area_epsilon()) {
        return points[0];
    }
    let mut c_x: Num = Num::zero();
    let mut c_y: Num = Num::zero();
    let mut i: usize = 0;
    while i < points.len()
        invariant
            i <= points.len(),
            (c_x, c_y) == chord_moments(points@, i as nat),
        decreases points.len() - i,
    {
        let j: usize = next_index(i, points.len());
        let Point(x_i, y_i) = points[i];
        let Point(x_j, y_j) = points[j];
        let cross: Num = x_i.mul(y_j).sub(x_j.mul(y_i));
        c_x = c_x.add(x_i.add(x_j).mul(cross));
        c_y = c_y.add(y_i.add(y_j).mul(cross));
        i = i + 1;
    }
    Point(c_x.div(Num::six().mul(area)), c_y.div(Num::six().mul(area)))
}

/// The center of mass of the area between an arc and its chord, and the area, if there is any.
pub open spec fn arc_mass<M: Fn(Elementary) -> Num>(arc: &Arc, math: &M) -> Option<(Point, Num)> {
    let area = segment_area(arc, math);
    let sweep = arc.sweep.abs();
    let denominator = Num::three().mul(sweep.sub(evaluate(math, Elementary::Sin(sweep))));
    let s = evaluate(math, Elementary::Sin(sweep.div(Num::two())));
    let offset = Num::four().mul(arc.radius).mul(s.mul(s).mul(s)).div(denominator);
    let mid_angle = arc.start_angle(math).add(arc.sweep.div(Num::two()));
    let x = arc.center.0.add(offset.mul(evaluate(math, Elementary::Cos(mid_angle))));
    let y = arc.center.1.add(offset.mul(evaluate(math, Elementary::Sin(mid_angle))));
    if area.abs().le(area_epsilon()) || denominator.abs().le(area_epsilon()) {
        None
    } else {
        Some((Point(x, y), area))
    }
}

/// The moments of the area between an arc and its chord, if there is any.
pub open spec fn spec_arc_moments<M: Fn(Elementary) -> Num>(arc: &Arc, math: &M) -> Option<
    (Num, Num),
> {
    match arc_mass(arc, math) {
        Some((center, area)) => Some((center.0.mul(area), center.1.mul(area))),
        None => None,
    }
}

#[verifier::when_used_as_spec(spec_arc_moments)]
pub fn arc_moments<M: Fn(Elementary) -> Num>(arc: &Arc, math: &M) -> (r: Option<(Num, Num)>)
    requires
        evaluates(math),
    ensures
        r == spec_arc_moments(arc, math),
{
    let area: Num = segment_area(arc, math);
    if area.abs().le(area_epsilon()) {
        return None;
    }
    let sweep: Num = arc.sweep.abs();
    let denominator: Num = Num::three().mul(sweep.sub(evaluate(math, Elementary::Sin(sweep))));
    if denominator.abs().le(area_epsilon()) {
        return None;
    }
    let s: Num = evaluate(math, Elementary::Sin(sweep.div(Num::two())));
    let offset: Num = Num::four().mul(arc.radius).mul(s.mul(s).mul(s)).div(denominator);
    let mid_angle: Num = arc.start_angle(math).add(arc.sweep.div(Num::two()));
    let x: Num = arc.center.0.add(offset.mul(evaluate(math, Elementary::Cos(mid_angle))));
    let y: Num = arc.center.1.add(offset.mul(evaluate(math, Elementary::Sin(mid_angle))));
    Some((x.mul(area), y.mul(area)))
}

/// Moments to which those of the arcs are added in turn.
pub open spec fn with_arc_moments<M: Fn(Elementary) -> Num>(
    start: (Num, Num),
    arcs: Seq<Arc>,
    math: &M,
) -> (Num, Num)
    decreases arcs.len(),
{
    if arcs.len() == 0 {
        start
    } else {
        let before = with_arc_moments(start, arcs.drop_last(), math);
        match arc_moments(&arcs.last(), math) {
            Some(m) => (before.0.add(m.0), before.1.add(m.1)),
            None => before,
        }
    }
}

/// The centroid of a boundary with the given arcs and area.
pub open spec fn boundary_centroid<M: Fn(Elementary) -> Num>(
    points: Seq<Point>,
    arcs: Seq<Arc>,
    area: Num,
    math: &M,
) -> Point {
    let chord_area = crate::geometry::primitives::boundary::chord_area(points);
    let c = chord_centroid(points, chord_area);
    let m = with_arc_moments((c.0.mul(chord_area), c.1.mul(chord_area)), arcs, math);
    Point(m.0.div(area), m.1.div(area))
}

pub fn calculate_boundary_centroid<M: Fn(Elementary) -> Num>(
    points: &[Point],
    arcs: &[Arc],
    area: Num,
    math: &M,
) -> (r: Point)
    requires
        evaluates(math),
        points.len() > 0,
    ensures
        r == boundary_centroid(points@, arcs@, area, math),
{
    let chord_area: Num = crate::geometry::primitives::boundary::calculate_chord_area(points);
    let c: Point = calculate_chord_centroid(points, chord_area);
    let mut moment_x: Num = c.0.mul(chord_area);
    let mut moment_y: Num = c.1.mul(chord_area);
    let ghost start = (moment_x, moment_y);
    let mut i: usize = 0;
    assert(arcs@.take(0) =~= Seq::<Arc>::empty());
    while i < arcs.len()
        invariant
            i <= arcs.len(),
            evaluates(math),
            (moment_x, moment_y) == with_arc_moments(start, arcs@.take(i as int), math),
        decreases arcs.len() - i,
    {
        assert(arcs@.take(i + 1).drop_last() =~= arcs@.take(i as int));
        if let Some((x, y)) = arc_moments(&arcs[i], math) {
            moment_x = moment_x.add(x);
            moment_y = moment_y.add(y);
        }
        i = i + 1;
    }
    assert(arcs@.take(arcs@.len() as int) =~= arcs@);
    Point(moment_x.div(area), moment_y.div(area))
}

} // verus!
