//! Laws of imported curves, on exact values.
use vstd::prelude::*;

use crate::geometry::primitives::arc::Arc;
use crate::geometry::primitives::point::Point;
use crate::io::ext_repr::ExtArcSeg;
use crate::math::{evaluate, Elementary};
use crate::num::estimate::Estimate;
use crate::num::Num;

verus! {

spec fn count_estimate(n: usize) -> Estimate {
    Estimate {
        value: n as int as real,
        error: crate::num::estimate::half_step(Num::from_usize(n)),
    }
}

spec fn share_estimate(sweep: Num, n: usize) -> Estimate {
    Estimate::of(sweep).divided_by(
        count_estimate(n),
        Num::from_usize(n),
        sweep.div(Num::from_usize(n)),
    )
}

spec fn part_angle(start: Num, sweep: Num, part: usize, n: usize) -> Num {
    start.add(sweep.div(Num::from_usize(n)).mul(Num::from_usize(part)))
}

/// How far the angle at which a part of a sweep begins may be from what it is.
pub closed spec fn part_error(start: Num, sweep: Num, part: usize, n: usize) -> real {
    let share = sweep.div(Num::from_usize(n));
    Estimate::of(start).plus(
        share_estimate(sweep, n).times(count_estimate(part), share.mul(Num::from_usize(part))),
        part_angle(start, sweep, part, n),
    ).error
}

/// How far a quarter of a part of a sweep may be from what it is.
pub closed spec fn quarter_error(sweep: Num, n: usize) -> real {
    let share = sweep.div(Num::from_usize(n));
    share_estimate(sweep, n).over(Num::four(), share.div(Num::four())).error
}

/// The angle begins a part of a sweep that is cut evenly into `n`.
pub open spec fn begins_part(angle: Num, start: Num, sweep: Num, part: usize, n: usize) -> bool {
    crate::num::estimate::size(
        crate::num::estimate::exact(angle) - (crate::num::estimate::exact(start)
            + crate::num::estimate::exact(sweep) / (n as int as real) * (part as int as real)),
    ) <= part_error(start, sweep, part, n)
}

/// The bulge is the tangent of a quarter of one of the `n` parts of a sweep.
pub open spec fn is_bulge_of_part<M: Fn(Elementary) -> Num>(
    bulge: Num,
    sweep: Num,
    n: usize,
    math: &M,
) -> bool {
    exists|quarter: Num| #[trigger]
        evaluate(math, Elementary::Tan(quarter)) == bulge && crate::num::estimate::size(
            crate::num::estimate::exact(quarter) - crate::num::estimate::exact(sweep) / (
            n as int as real) / 4real,
        ) <= quarter_error(sweep, n)
}

/// Nothing overflows where a sweep is cut.
pub closed spec fn cut_in_range(start: Num, sweep: Num, part: usize, n: usize) -> bool {
    &&& Num::from_usize(n).is_finite()
    &&& crate::num::estimate::exact(Num::from_usize(n)) != 0real
    &&& Num::from_usize(part).is_finite()
    &&& part_angle(start, sweep, part, n).is_finite()
    &&& sweep.div(Num::from_usize(n)).div(Num::four()).is_finite()
}

proof fn lemma_part<M: Fn(Elementary) -> Num>(
    start: Num,
    sweep: Num,
    part: usize,
    n: usize,
    math: &M,
)
    requires
        n > 0,
        cut_in_range(start, sweep, part, n),
    ensures
        begins_part(part_angle(start, sweep, part, n), start, sweep, part, n),
        is_bulge_of_part(
            evaluate(math, Elementary::Tan(sweep.div(Num::from_usize(n)).div(Num::four()))),
            sweep,
            n,
            math,
        ),
{
    let (a, b) = (Num::from_usize(part), Num::from_usize(n));
    let share = sweep.div(b);
    crate::num::estimate::exact_constants();
    crate::num::estimate::sums_are_near(start, share.mul(a));
    crate::num::estimate::products_are_near(share, a);
    crate::num::estimate::finite_quotients_have_finite_dividends(sweep, b);
    crate::num::estimate::counts_are_near(part);
    crate::num::estimate::counts_are_near(n);
    crate::num::estimate::estimated_ratios(Estimate::of(sweep), sweep, count_estimate(n), b);
    crate::num::estimate::estimated_products(share_estimate(sweep, n), share, count_estimate(part), a);
    crate::num::estimate::estimated_sums(
        Estimate::of(start),
        start,
        share_estimate(sweep, n).times(count_estimate(part), share.mul(a)),
        share.mul(a),
    );
    crate::num::estimate::estimated_quotients(share_estimate(sweep, n), share, Num::four());
    let quarter = share.div(Num::four());
    assert(evaluate(math, Elementary::Tan(quarter)) == evaluate(
        math,
        Elementary::Tan(sweep.div(b).div(Num::four())),
    ));
}

/// An imported arc is cut evenly into as many parts as there are vertices: vertex `part` lies on its
/// circle, at the angle that is so many parts of the sweep on from where the arc starts, and the bulge
/// of each part is the tangent of a quarter of what it sweeps, up to rounding.
pub proof fn explicit_arcs_are_cut_evenly<M: Fn(Elementary) -> Num>(
    arc: ExtArcSeg,
    part: usize,
    math: &M,
) -> (angle: Num)
    requires
        part < crate::io::import::shapes::explicit_parts(arc, math).len(),
        crate::io::import::shapes::explicit_parts(arc, math).len() <= usize::MAX,
        cut_in_range(
            arc.start_angle,
            arc.sweep,
            part,
            crate::io::import::shapes::explicit_parts(arc, math).len() as usize,
        ),
    ensures
        ({
            let points = crate::io::import::shapes::explicit_parts(arc, math);
            let bulges = crate::io::import::shapes::explicit_bulges(arc, math);
            let n = points.len() as usize;
            &&& bulges.len() == points.len()
            &&& n == crate::io::import::boundaries::split_count_for_sweep(
                arc.sweep,
                Num::frac_pi_2(),
            )
            &&& begins_part(angle, arc.start_angle, arc.sweep, part, n)
            &&& points[part as int] == crate::geometry::primitives::arc::point_on_circle(
                Point(arc.center.0, arc.center.1),
                arc.radius,
                angle,
                math,
            )
            &&& is_bulge_of_part(bulges[part as int], arc.sweep, n, math)
        }),
{
    let n = crate::io::import::shapes::explicit_parts(arc, math).len() as usize;
    lemma_part(arc.start_angle, arc.sweep, part, n, math);
    part_angle(arc.start_angle, arc.sweep, part, n)
}

/// A segment that sweeps too much is cut evenly: the first vertex stays, the others lie on its circle,
/// each at the angle that is so many parts of the sweep on from where the segment starts, and the bulge
/// of each part is the tangent of a quarter of what it sweeps, up to rounding.
pub proof fn large_arcs_are_cut_evenly<M: Fn(Elementary) -> Num>(
    arc: Arc,
    max_sweep: Num,
    part: usize,
    math: &M,
) -> (angle: Num)
    requires
        part < crate::io::import::boundaries::arc_parts(&arc, max_sweep, math).points.len(),
        crate::io::import::boundaries::arc_parts(&arc, max_sweep, math).points.len() <= usize::MAX,
        cut_in_range(
            arc.start_angle(math),
            arc.sweep,
            part,
            crate::io::import::boundaries::arc_parts(&arc, max_sweep, math).points.len() as usize,
        ),
    ensures
        ({
            let parts = crate::io::import::boundaries::arc_parts(&arc, max_sweep, math);
            let n = parts.points.len() as usize;
            &&& parts.bulges.len() == parts.points.len()
            &&& n == crate::io::import::boundaries::split_count_for_sweep(arc.sweep, max_sweep)
            &&& begins_part(angle, arc.start_angle(math), arc.sweep, part, n)
            &&& part == 0 ==> parts.points[0] == arc.start
            &&& part > 0 ==> parts.points[part as int] == arc.point_at_angle(angle, math)
            &&& is_bulge_of_part(parts.bulges[part as int], arc.sweep, n, math)
        }),
{
    let n = crate::io::import::boundaries::arc_parts(&arc, max_sweep, math).points.len() as usize;
    lemma_part(arc.start_angle(math), arc.sweep, part, n, math);
    part_angle(arc.start_angle(math), arc.sweep, part, n)
}

/// In a chain of arcs that is accepted, each arc starts where the one before it ends, and the first
/// where the last one ends, within tolerance.
pub proof fn accepted_arcs_follow_each_other<M: Fn(Elementary) -> Num>(
    arcs: Seq<ExtArcSeg>,
    i: int,
    math: &M,
)
    requires
        crate::io::import::shapes::closed_chain(arcs, math) is Ok,
        0 <= i < arcs.len(),
    ensures
        ({
            let next = arcs[if i == arcs.len() - 1 {
                0
            } else {
                i + 1
            }];
            let (from, to) = (
                crate::geometry::primitives::arc::point_on_circle(
                    Point(next.center.0, next.center.1),
                    next.radius,
                    next.start_angle,
                    math,
                ),
                crate::geometry::primitives::arc::point_on_circle(
                    Point(arcs[i].center.0, arcs[i].center.1),
                    arcs[i].radius,
                    arcs[i].start_angle.add(arcs[i].sweep),
                    math,
                ),
            );
            crate::io::import::boundaries::points_match(from, to)
                || crate::io::import::boundaries::points_match(to, from)
        }),
{
    lemma_chain(arcs, arcs.len(), i, math);
}

proof fn lemma_chain<M: Fn(Elementary) -> Num>(arcs: Seq<ExtArcSeg>, n: nat, i: int, math: &M)
    requires
        0 < n <= arcs.len(),
        crate::io::import::shapes::chained(arcs, n, math) is Ok,
        0 <= i < n,
    ensures
        ({
            let chain = crate::io::import::shapes::chained(arcs, n, math)->Ok_0;
            let last = arcs[n - 1];
            &&& chain.end == Some(
                crate::io::import::shapes::arc_place(last, last.start_angle.add(last.sweep), math),
            )
            &&& chain.first == Some(
                crate::io::import::shapes::arc_place(arcs[0], arcs[0].start_angle, math),
            )
            &&& i + 1 < n ==> crate::io::import::boundaries::points_match(
                crate::io::import::shapes::arc_place(arcs[i + 1], arcs[i + 1].start_angle, math),
                crate::io::import::shapes::arc_place(
                    arcs[i],
                    arcs[i].start_angle.add(arcs[i].sweep),
                    math,
                ),
            )
        }),
    decreases n,
{
    if n > 1 {
        lemma_chain(
            arcs,
            (n - 1) as nat,
            if i + 1 < n {
                i
            } else {
                0
            },
            math,
        );
    } else {
        assert(crate::io::import::shapes::chained(arcs, 0, math) is Ok);
    }
}

/// Points match if their coordinates differ by no more than the tolerance, up to rounding, or are next
/// to each other among the numbers.
pub proof fn points_match_within_tolerance(a: Point, b: Point)
    requires
        a.0.sub(b.0).is_finite(),
        a.1.sub(b.1).is_finite(),
    ensures
        ({
            let eps = crate::num::estimate::exact(Num::e_minus_4());
            let (p, q) = (
                crate::geometry::primitives::crossing_laws::place_of(a),
                crate::geometry::primitives::crossing_laws::place_of(b),
            );
            let (m, n) = (
                crate::num::estimate::half_step(a.0.sub(b.0)),
                crate::num::estimate::half_step(a.1.sub(b.1)),
            );
            let (x, y) = (
                crate::num::estimate::size(p.x - q.x),
                crate::num::estimate::size(p.y - q.y),
            );
            &&& x + m <= eps && y + n <= eps ==> crate::io::import::boundaries::points_match(a, b)
            &&& crate::io::import::boundaries::points_match(a, b) ==> (x - m <= eps
                || a.0.places_apart(b.0) == 0) && (y - n <= eps || a.1.places_apart(b.1) == 0)
        }),
{
    lemma_close(a.0, b.0);
    lemma_close(a.1, b.1);
}

proof fn lemma_close(a: Num, b: Num)
    requires
        a.sub(b).is_finite(),
    ensures
        ({
            let eps = crate::num::estimate::exact(Num::e_minus_4());
            let d = crate::num::estimate::size(
                crate::num::estimate::exact(a) - crate::num::estimate::exact(b),
            );
            let h = crate::num::estimate::half_step(a.sub(b));
            &&& d + h <= eps ==> a.approx_eq(b, Num::e_minus_4(), 0)
            &&& a.approx_eq(b, Num::e_minus_4(), 0) ==> d - h <= eps || a.places_apart(b) == 0
        }),
{
    let eps = Num::e_minus_4();
    assert(eps.is_finite());
    crate::num::estimate::exact_constants();
    crate::num::estimate::exact_values_compare(eps, Num::zero());
    crate::num::estimate::differences_are_near(a, b);
    crate::num::estimate::absolute_values_are_exact(a.sub(b));
    crate::num::estimate::exact_values_compare(a.sub(b).abs(), eps);
    crate::num::estimate::exact_values_compare(a, b);
    crate::num::estimate::lemma_sign(a.sub(b));
}

/// How far an angle in radians may be from what it is.
pub closed spec fn radians_error(angle: Num) -> real {
    let degree = Num::pi().div(Num::from_usize(180));
    Estimate::of(angle).times(
        Estimate::of(Num::pi()).divided_by(count_estimate(180), Num::from_usize(180), degree),
        angle.mul(degree),
    ).error
}

/// An angle in degrees is turned into radians by its share of half a turn, up to rounding.
pub proof fn degrees_are_shares_of_half_a_turn(angle: Num)
    requires
        crate::io::import::items::to_radians(angle).is_finite(),
        Num::from_usize(180).is_finite(),
        crate::num::estimate::exact(Num::from_usize(180)) != 0real,
    ensures
        crate::num::estimate::size(
            crate::num::estimate::exact(crate::io::import::items::to_radians(angle))
                - crate::num::estimate::exact(angle) * (crate::num::estimate::exact(Num::tau())
                / 360real),
        ) <= radians_error(angle),
{
    let (n, degree) = (Num::from_usize(180), Num::pi().div(Num::from_usize(180)));
    crate::num::estimate::lemma_quarter_turns();
    crate::num::estimate::products_are_near(angle, degree);
    crate::num::estimate::finite_quotients_have_finite_dividends(Num::pi(), n);
    crate::num::estimate::counts_are_near(180);
    let p = Estimate::of(Num::pi());
    crate::num::estimate::estimated_ratios(p, Num::pi(), count_estimate(180), n);
    crate::num::estimate::estimated_products(
        Estimate::of(angle),
        angle,
        p.divided_by(count_estimate(180), n, degree),
        degree,
    );
    let (half, turn) = (
        crate::num::estimate::exact(Num::pi()),
        crate::num::estimate::exact(Num::tau()),
    );
    assert(180usize as int as real == 180real);
    assert(half / 180real == turn / 360real) by (nonlinear_arith)
        requires
            2real * half == turn,
    ;
}

} // verus!
