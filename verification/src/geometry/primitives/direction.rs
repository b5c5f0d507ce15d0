//! What stays the same, and what becomes its opposite, when a boundary is followed in the other
//! direction.
use vstd::arithmetic::power2::*;
use vstd::prelude::*;

use crate::error::GeometryError;
use crate::geometry::primitives::arc::Arc;
use crate::geometry::primitives::boundary::{area_epsilon, bulge_epsilon, segment_area};
use crate::geometry::primitives::circle::Circle;
use crate::geometry::primitives::point::Point;
use crate::geometry::primitives::simple_polygon::{PolygonModel, SPolygon, Toolkit};
use crate::math::{evaluate, Elementary};
use crate::num::Num;

verus! {

/// The supplied sine and arc tangent are odd functions.
pub open spec fn are_odd<M: Fn(Elementary) -> Num>(math: &M) -> bool {
    &&& forall|x: Num|
        x.is_finite() ==> #[trigger] evaluate(math, Elementary::Sin(x.neg())) == evaluate(
            math,
            Elementary::Sin(x),
        ).neg()
    &&& forall|x: Num|
        x.is_finite() ==> #[trigger] evaluate(math, Elementary::Atan(x.neg())) == evaluate(
            math,
            Elementary::Atan(x),
        ).neg()
}

pub proof fn lemma_two()
    ensures
        Num::two().is_finite(),
        Num::two().value() == 2 * Num::one_in_units(),
        Num::two().units() == 2 * Num::one_in_units(),
        Num::half().is_finite(),
        2 * Num::half().value() == Num::one_in_units(),
        Num::one_in_units() > 0,
{
    lemma_pow2_pos(1074);
    lemma2_to64_rest();
    let two = Num::two();
    assert(two.magnitude() == 0x4000_0000_0000_0000u64);
    assert(two.scale() == 1023);
    assert(two.significand() == pow2(52));
    lemma_pow2_adds(52, 1023);
    lemma_pow2_unfold(1075);
    let half = Num::half();
    assert(half.magnitude() == 0x3fe0_0000_0000_0000u64);
    assert(half.scale() == 1021);
    assert(half.significand() == pow2(52));
    lemma_pow2_adds(52, 1021);
    lemma_pow2_unfold(1074);
}

/// Twice a half differs from the whole by at most a step.
proof fn lemma_twice_a_half(x: Num)
    requires
        x.is_finite(),
        x.div(Num::two()).is_finite(),
    ensures
        crate::num::accuracy::gap(2 * x.div(Num::two()).value(), x.value())
            <= crate::num::accuracy::step(x.div(Num::two())),
{
    lemma_two();
    let h = x.div(Num::two());
    let one = Num::one_in_units() as int;
    crate::num::accuracy::quotients_err_by_half_a_step(x, Num::two());
    let v = h.value();
    let w = x.value();
    let s = crate::num::accuracy::step(h) as int;
    assert(v * (2 * one) == (2 * v) * one) by (nonlinear_arith);
    assert(s * (2 * one) == 2 * (s * one)) by (nonlinear_arith);
    assert(2 * v - w <= s) by (nonlinear_arith)
        requires
            (2 * v) * one - w * one <= s * one,
            one > 0,
    ;
    assert(w - 2 * v <= s) by (nonlinear_arith)
        requires
            w * one - (2 * v) * one <= s * one,
            one > 0,
    ;
}

/// All the steps on the way from the ends of a chord to a center, in one coordinate: from the
/// start by half the difference, and then by the offset.
pub open spec fn center_steps(start: Num, end: Num, center: Num) -> nat {
    let d = end.sub(start);
    let h = d.div(Num::two());
    crate::num::accuracy::step(d) + crate::num::accuracy::step(h) + crate::num::accuracy::step(
        start.add(h),
    ) + crate::num::accuracy::step(center)
}

/// One coordinate of the two centers, from either end of the chord.
proof fn lemma_same_center(start: Num, end: Num, offset: Num, other_offset: Num)
    requires
        start.is_finite(),
        end.is_finite(),
        offset.value() == other_offset.value(),
        start.add(end.sub(start).div(Num::two())).add(offset).is_finite(),
        end.add(start.sub(end).div(Num::two())).add(other_offset).is_finite(),
    ensures
        ({
            let c = start.add(end.sub(start).div(Num::two())).add(offset);
            let d = end.add(start.sub(end).div(Num::two())).add(other_offset);
            2 * crate::num::accuracy::gap(c.value(), d.value()) <= center_steps(start, end, c)
                + center_steps(end, start, d)
        }),
{
    let e = end.sub(start);
    let f = start.sub(end);
    let h = e.div(Num::two());
    let g = f.div(Num::two());
    let m = start.add(h);
    let n = end.add(g);
    crate::num::accuracy::finite_sums_have_finite_terms(m, offset);
    crate::num::accuracy::finite_sums_have_finite_terms(n, other_offset);
    crate::num::accuracy::finite_sums_have_finite_terms(start, h);
    crate::num::accuracy::finite_sums_have_finite_terms(end, g);
    crate::num::accuracy::differences_are_opposite(end, start);
    assert(e.is_finite()) by {
        reveal(Num::spec_div);
    }
    crate::num::accuracy::opposite_numbers_have_opposite_values(e, f);
    crate::num::accuracy::opposite_factors_have_opposite_products(e, f, Num::two());
    crate::num::accuracy::opposite_numbers_have_opposite_values(h, g);
    assert(crate::num::accuracy::step(e) == crate::num::accuracy::step(f));
    assert(crate::num::accuracy::step(h) == crate::num::accuracy::step(g));
    let c = m.add(offset);
    let d = n.add(other_offset);
    lemma_center_values(start, end, e, h);
    lemma_sum_values(start, h);
    lemma_sum_values(end, g);
    lemma_sum_values(m, offset);
    lemma_sum_values(n, other_offset);
    let (vs, ve, vh, vm) = (start.value(), end.value(), h.value(), m.value());
    let (vn, vo, vc, vd) = (n.value(), offset.value(), c.value(), d.value());
    let (te, th) = (crate::num::accuracy::step(e) as int, crate::num::accuracy::step(h) as int);
    let (tm, tn) = (crate::num::accuracy::step(m) as int, crate::num::accuracy::step(n) as int);
    let (tc, td) = (crate::num::accuracy::step(c) as int, crate::num::accuracy::step(d) as int);
    assert(-(te + 2 * th) <= 2 * (2 * vh - (ve - vs)) <= te + 2 * th);
    assert(-tm <= 2 * (vm - vs - vh) <= tm);
    assert(-tn <= 2 * (vn - ve + vh) <= tn);
    assert(-tc <= 2 * (vc - vm - vo) <= tc);
    assert(-td <= 2 * (vd - vn - vo) <= td);
    assert(2 * (vc - vd) <= te + 2 * th + tm + tn + tc + td);
    assert(2 * (vd - vc) <= te + 2 * th + tm + tn + tc + td);
}

proof fn lemma_center_values(start: Num, end: Num, e: Num, h: Num)
    requires
        start.is_finite(),
        end.is_finite(),
        e == end.sub(start),
        e.is_finite(),
        h == e.div(Num::two()),
        h.is_finite(),
    ensures
        ({
            let bound = crate::num::accuracy::step(e) + 2 * crate::num::accuracy::step(h);
            -(bound as int) <= 2 * (2 * h.value() - (end.value() - start.value())) <= bound
        }),
{
    crate::num::accuracy::sums_err_by_half_a_step(end, start.neg());
    assert(start.neg().value() == -start.value());
    lemma_twice_a_half(e);
}

proof fn lemma_sum_values(x: Num, y: Num)
    requires
        x.is_finite(),
        y.is_finite(),
        x.add(y).is_finite(),
    ensures
        ({
            let bound = crate::num::accuracy::step(x.add(y)) as int;
            -bound <= 2 * (x.add(y).value() - x.value() - y.value()) <= bound
        }),
{
    crate::num::accuracy::sums_err_by_half_a_step(x, y);
}

/// An arc that is followed in the other direction, with the opposite bulge, has the same ends
/// and the same radius, and the opposite sweep. It has the same center but for half a step for
/// each operation on the way.
pub proof fn reversed_arcs_have_the_same_circle<M: Fn(Elementary) -> Num>(
    start: Point,
    end: Point,
    bulge: Num,
    math: &M,
    arc: Arc,
    reversed: Arc,
)
    requires
        are_odd(math),
        Arc::try_from_bulge(start, end, bulge, math) == Ok::<_, GeometryError>(arc),
        Arc::try_from_bulge(end, start, bulge.neg(), math) == Ok::<_, GeometryError>(reversed),
    ensures
        reversed.start == arc.end,
        reversed.end == arc.start,
        reversed.radius == arc.radius,
        reversed.sweep == arc.sweep.neg(),
        2 * crate::num::accuracy::gap(arc.center.0.value(), reversed.center.0.value())
            <= center_steps(start.0, end.0, arc.center.0) + center_steps(
            end.0,
            start.0,
            reversed.center.0,
        ),
        2 * crate::num::accuracy::gap(arc.center.1.value(), reversed.center.1.value())
            <= center_steps(start.1, end.1, arc.center.1) + center_steps(
            end.1,
            start.1,
            reversed.center.1,
        ),
{
    let len = start.distance_to(end);
    crate::num::accuracy::differences_are_opposite(start.0, end.0);
    crate::num::accuracy::differences_are_opposite(start.1, end.1);
    crate::num::accuracy::opposite_factors_have_opposite_products(
        start.0.sub(end.0),
        end.0.sub(start.0),
        Num::one(),
    );
    crate::num::accuracy::opposite_factors_have_opposite_products(
        start.1.sub(end.1),
        end.1.sub(start.1),
        Num::one(),
    );
    assert(end.distance_to(start) == len);
    let b = bulge.abs();
    assert(bulge.neg().abs() == b);
    assert(reversed.radius == arc.radius);
    let radius = arc.radius;
    let center_offset = radius.sub(b.mul(len).div(Num::two()));
    let dx = end.0.sub(start.0);
    let dy = end.1.sub(start.1);
    let other_dx = start.0.sub(end.0);
    let other_dy = start.1.sub(end.1);
    let x = center_offset.neg().mul(dy).div(len);
    let y = center_offset.mul(dx).div(len);
    let other_x = center_offset.neg().mul(other_dy).div(len);
    let other_y = center_offset.mul(other_dx).div(len);
    let negative = bulge.lt(Num::zero());
    assert(bulge.neg().lt(Num::zero()) != negative);
    let (offset_x, offset_y) = if negative {
        (x.neg(), y.neg())
    } else {
        (x, y)
    };
    let (other_offset_x, other_offset_y) = if negative {
        (other_x, other_y)
    } else {
        (other_x.neg(), other_y.neg())
    };
    let mx = start.0.add(dx.div(Num::two()));
    let my = start.1.add(dy.div(Num::two()));
    let nx = end.0.add(other_dx.div(Num::two()));
    let ny = end.1.add(other_dy.div(Num::two()));
    assert(arc.center == Point(mx.add(offset_x), my.add(offset_y)));
    assert(reversed.center == Point(nx.add(other_offset_x), ny.add(other_offset_y)));
    crate::num::accuracy::finite_sums_have_finite_terms(mx, offset_x);
    crate::num::accuracy::finite_sums_have_finite_terms(my, offset_y);
    crate::num::accuracy::finite_sums_have_finite_terms(nx, other_offset_x);
    crate::num::accuracy::finite_sums_have_finite_terms(ny, other_offset_y);
    lemma_opposite_offsets(center_offset.neg(), dy, other_dy, len);
    lemma_opposite_offsets(center_offset, dx, other_dx, len);
    crate::num::accuracy::opposite_numbers_have_opposite_values(x, other_x);
    crate::num::accuracy::opposite_numbers_have_opposite_values(y, other_y);
    assert(x.neg().value() == -x.value());
    assert(y.neg().value() == -y.value());
    assert(other_x.neg().value() == -other_x.value());
    assert(other_y.neg().value() == -other_y.value());
    lemma_same_center(start.0, end.0, offset_x, other_offset_x);
    lemma_same_center(start.1, end.1, offset_y, other_offset_y);
    let angle = evaluate(math, Elementary::Atan(bulge));
    assert(evaluate(math, Elementary::Atan(bulge.neg())) == angle.neg());
    assert(Num::four().mul(angle.neg()) == Num::four().mul(angle).neg()) by {
        reveal(Num::spec_mul);
        crate::num::laws::rounded_numbers_are_numbers(
            Num::four().units() * angle.units(),
            Num::one_in_units(),
        );
    }
}

/// The supplied tangent undoes the supplied arc tangent of the number.
pub open spec fn tangent_leads_back<M: Fn(Elementary) -> Num>(x: Num, math: &M) -> bool {
    evaluate(math, Elementary::Tan(evaluate(math, Elementary::Atan(x)))).num_eq(x)
}

/// The supplied arc tangent is positive for positive numbers, and negative for negative ones.
pub open spec fn arc_tangent_keeps_signs<M: Fn(Elementary) -> Num>(math: &M) -> bool {
    &&& forall|x: Num|
        x.is_finite() && x.gt(Num::zero()) ==> #[trigger] evaluate(math, Elementary::Atan(x)).gt(
            Num::zero(),
        )
    &&& forall|x: Num|
        x.is_finite() && x.lt(Num::zero()) ==> #[trigger] evaluate(math, Elementary::Atan(x)).lt(
            Num::zero(),
        )
}

/// An arc that is made from a bulge has the given ends, and its bulge is what the supplied tangent
/// makes of the supplied arc tangent of the given one: that bulge itself, if the one leads back.
/// The sweep has the sign of the bulge.
pub proof fn arcs_have_the_bulge_they_are_made_from<M: Fn(Elementary) -> Num>(
    start: Point,
    end: Point,
    bulge: Num,
    math: &M,
    arc: Arc,
)
    requires
        Arc::try_from_bulge(start, end, bulge, math) == Ok::<_, GeometryError>(arc),
    ensures
        arc.start == start,
        arc.end == end,
        arc.bulge(math) == evaluate(
            math,
            Elementary::Tan(evaluate(math, Elementary::Atan(bulge))),
        ),
        tangent_leads_back(bulge, math) ==> arc.bulge(math).num_eq(bulge),
        arc_tangent_keeps_signs(math) ==> {
            &&& arc.sweep.gt(Num::zero()) <==> bulge.gt(Num::zero())
            &&& arc.sweep.lt(Num::zero()) <==> bulge.lt(Num::zero())
        },
{
    let angle = evaluate(math, Elementary::Atan(bulge));
    assert(angle.is_finite()) by {
        reveal(Num::spec_mul);
    }
    crate::num::accuracy::quarters_undo_fourfolds(angle);
    let zero = Num::zero();
    crate::num::lemma_zero_significand(zero);
    crate::num::laws::order_agrees_with_value(zero, angle);
    crate::num::laws::order_agrees_with_value(angle, zero);
    crate::num::laws::order_agrees_with_value(zero, arc.sweep);
    crate::num::laws::order_agrees_with_value(arc.sweep, zero);
    assert(arc.sweep.value() == 4 * angle.value());
    assert(bulge.gt(zero) || bulge.lt(zero));
    if arc_tangent_keeps_signs(math) {
        if bulge.gt(zero) {
            assert(angle.gt(zero));
            assert(arc.sweep.gt(zero));
        } else {
            assert(angle.lt(zero));
            assert(arc.sweep.lt(zero));
        }
    }
}

proof fn lemma_opposite_offsets(factor: Num, d: Num, other: Num, len: Num)
    requires
        crate::num::accuracy::opposite(d, other),
        factor.mul(d).div(len).is_finite(),
    ensures
        crate::num::accuracy::opposite(factor.mul(d).div(len), factor.mul(other).div(len)),
{
    assert(!factor.mul(d).is_nan()) by {
        reveal(Num::spec_div);
    }
    crate::num::accuracy::opposite_factors_have_opposite_products(d, other, factor);
    crate::num::accuracy::opposite_factors_have_opposite_products(
        factor.mul(d),
        factor.mul(other),
        len,
    );
}

/// What the chords of a boundary contribute to twice the area within them.
pub open spec fn chord_terms(points: Seq<Point>) -> Seq<Num> {
    Seq::new(points.len(), |i: int| chord_term(points, i))
}

pub open spec fn chord_term(points: Seq<Point>, i: int) -> Num {
    let from = points[i];
    let to = crate::geometry::primitives::boundary::successor(points, i);
    from.1.add(to.1).mul(from.0.sub(to.0))
}

proof fn lemma_shoelace_is_a_running_sum(points: Seq<Point>, n: nat)
    requires
        n <= points.len(),
    ensures
        crate::geometry::primitives::boundary::shoelace(points, n)
            == crate::num::accuracy::running_sum(chord_terms(points).take(n as int)),
    decreases n,
{
    if n > 0 {
        lemma_shoelace_is_a_running_sum(points, (n - 1) as nat);
        let terms = chord_terms(points).take(n as int);
        assert(terms.drop_last() =~= chord_terms(points).take(n - 1));
        assert(terms.last() == chord_term(points, n - 1));
    }
}

/// The areas between the arcs of a boundary and their chords; a straight segment has none.
pub open spec fn arc_terms<M: Fn(Elementary) -> Num>(
    points: Seq<Point>,
    bulges: Seq<Num>,
    math: &M,
) -> Seq<Num> {
    Seq::new(points.len(), |i: int| arc_term(points, bulges, i, math))
}

pub open spec fn arc_term<M: Fn(Elementary) -> Num>(
    points: Seq<Point>,
    bulges: Seq<Num>,
    i: int,
    math: &M,
) -> Num {
    if bulges[i].abs().gt(bulge_epsilon()) {
        segment_area(
            &Arc::try_from_bulge(
                points[i],
                crate::geometry::primitives::boundary::successor(points, i),
                bulges[i],
                math,
            )->Ok_0,
            math,
        )
    } else {
        Num::zero()
    }
}

/// The areas between arcs and their chords.
pub open spec fn segment_areas<M: Fn(Elementary) -> Num>(arcs: Seq<Arc>, math: &M) -> Seq<Num> {
    arcs.map_values(|arc: Arc| segment_area(&arc, math))
}

proof fn lemma_areas_are_a_running_sum<M: Fn(Elementary) -> Num>(arcs: Seq<Arc>, math: &M)
    ensures
        crate::geometry::primitives::boundary::segment_area_sum(arcs, math)
            == crate::num::accuracy::running_sum(segment_areas(arcs, math)),
    decreases arcs.len(),
{
    if arcs.len() > 0 {
        lemma_areas_are_a_running_sum(arcs.drop_last(), math);
        assert(segment_areas(arcs, math).drop_last() =~= segment_areas(arcs.drop_last(), math));
    }
}

/// Straight segments add nothing to the areas of the arcs.
proof fn lemma_arc_terms_sum_up<M: Fn(Elementary) -> Num>(
    points: Seq<Point>,
    bulges: Seq<Num>,
    n: nat,
    math: &M,
)
    requires
        n <= points.len(),
        points.len() == bulges.len(),
        crate::geometry::primitives::boundary::arcs_among(points, bulges, n, math) is Ok,
    ensures
        ({
            let arcs = crate::geometry::primitives::boundary::arcs_among(
                points,
                bulges,
                n,
                math,
            )->Ok_0;
            crate::num::accuracy::exact_sum(arc_terms(points, bulges, math).take(n as int))
                == crate::num::accuracy::exact_sum(segment_areas(arcs, math))
        }),
    decreases n,
{
    let arcs = crate::geometry::primitives::boundary::arcs_among(points, bulges, n, math)->Ok_0;
    let terms = arc_terms(points, bulges, math).take(n as int);
    if n > 0 {
        let before = crate::geometry::primitives::boundary::arcs_among(
            points,
            bulges,
            (n - 1) as nat,
            math,
        );
        assert(before is Ok);
        lemma_arc_terms_sum_up(points, bulges, (n - 1) as nat, math);
        assert(terms.drop_last() =~= arc_terms(points, bulges, math).take(n - 1));
        assert(terms.last() == arc_term(points, bulges, n - 1, math));
        crate::num::lemma_zero_significand(Num::zero());
        if bulges[n - 1].abs().gt(bulge_epsilon()) {
            assert(segment_areas(arcs, math).drop_last() =~= segment_areas(before->Ok_0, math));
        }
    }
}

/// All the steps on the way to the area within a boundary, weighted as they go into four times
/// the area.
pub open spec fn area_steps<M: Fn(Elementary) -> Num>(
    points: Seq<Point>,
    bulges: Seq<Num>,
    math: &M,
) -> nat {
    let arcs = crate::geometry::primitives::boundary::boundary_arcs(points, bulges, math)->Ok_0;
    let chords = crate::geometry::primitives::boundary::chord_area(points);
    let sum = crate::geometry::primitives::boundary::segment_area_sum(arcs, math);
    crate::num::accuracy::steps_on_the_way(chord_terms(points)) + 2 * crate::num::accuracy::step(
        chords,
    ) + 2 * crate::num::accuracy::steps_on_the_way(segment_areas(arcs, math)) + 2
        * crate::num::accuracy::step(chords.add(sum))
}

/// The area within a boundary differs from the exact sum of its terms by at most half a step for
/// each operation on the way.
pub proof fn areas_are_sums_of_their_terms<M: Fn(Elementary) -> Num>(
    points: Seq<Point>,
    bulges: Seq<Num>,
    math: &M,
    area: Num,
)
    requires
        crate::geometry::primitives::boundary::boundary_area(points, bulges, math) == Ok::<
            _,
            GeometryError,
        >(area),
        area.is_finite(),
    ensures
        crate::num::accuracy::gap(
            4 * area.value(),
            2 * crate::num::accuracy::exact_sum(chord_terms(points)) + 4
                * crate::num::accuracy::exact_sum(arc_terms(points, bulges, math)),
        ) <= area_steps(points, bulges, math),
        forall|i: int|
            0 <= i < points.len() ==> (#[trigger] chord_term(points, i)).is_finite() && arc_term(
                points,
                bulges,
                i,
                math,
            ).is_finite(),
{
    let n = points.len();
    let arcs = crate::geometry::primitives::boundary::boundary_arcs(points, bulges, math)->Ok_0;
    let total = crate::geometry::primitives::boundary::shoelace(points, n);
    let chords = crate::geometry::primitives::boundary::chord_area(points);
    let sum = crate::geometry::primitives::boundary::segment_area_sum(arcs, math);
    lemma_two();
    crate::num::accuracy::finite_sums_have_finite_terms(chords, sum);
    crate::num::accuracy::sums_err_by_half_a_step(chords, sum);
    assert(total.is_finite()) by {
        reveal(Num::spec_mul);
    }
    lemma_shoelace_is_a_running_sum(points, n);
    assert(chord_terms(points).take(n as int) =~= chord_terms(points));
    crate::num::accuracy::running_sums_err_by_half_steps(chord_terms(points));
    lemma_areas_are_a_running_sum(arcs, math);
    crate::num::accuracy::running_sums_err_by_half_steps(segment_areas(arcs, math));
    lemma_arc_terms_sum_up(points, bulges, n, math);
    assert(arc_terms(points, bulges, math).take(n as int) =~= arc_terms(points, bulges, math));
    crate::num::accuracy::products_err_by_half_a_step(Num::half(), total);
    let one = Num::one_in_units() as int;
    let h = Num::half().value();
    let (c, t) = (chords.value(), total.value());
    let s = crate::num::accuracy::step(chords) as int;
    assert(2 * (c * one) == (2 * c) * one) by (nonlinear_arith);
    assert(2 * (h * t) == t * one) by (nonlinear_arith)
        requires
            2 * h == one,
    ;
    assert(2 * c - t <= s) by (nonlinear_arith)
        requires
            (2 * c) * one - t * one <= s * one,
            one > 0,
    ;
    assert(t - 2 * c <= s) by (nonlinear_arith)
        requires
            t * one - (2 * c) * one <= s * one,
            one > 0,
    ;
    assert forall|i: int| 0 <= i < n implies (#[trigger] chord_term(points, i)).is_finite()
        && arc_term(points, bulges, i, math).is_finite() by {
        assert(chord_terms(points)[i] == chord_term(points, i));
        lemma_arc_terms_are_finite(points, bulges, n, math, i);
    }
}

proof fn lemma_arc_terms_are_finite<M: Fn(Elementary) -> Num>(
    points: Seq<Point>,
    bulges: Seq<Num>,
    n: nat,
    math: &M,
    i: int,
)
    requires
        0 <= i < n <= points.len(),
        points.len() == bulges.len(),
        crate::geometry::primitives::boundary::arcs_among(points, bulges, n, math) is Ok,
        crate::num::accuracy::running_sum(
            segment_areas(
                crate::geometry::primitives::boundary::arcs_among(points, bulges, n, math)->Ok_0,
                math,
            ),
        ).is_finite(),
    ensures
        arc_term(points, bulges, i, math).is_finite(),
    decreases n,
{
    let arcs = crate::geometry::primitives::boundary::arcs_among(points, bulges, n, math)->Ok_0;
    let before = crate::geometry::primitives::boundary::arcs_among(
        points,
        bulges,
        (n - 1) as nat,
        math,
    );
    assert(before is Ok);
    if bulges[n - 1].abs().gt(bulge_epsilon()) {
        let areas = segment_areas(arcs, math);
        assert(areas.drop_last() =~= segment_areas(before->Ok_0, math));
        crate::num::accuracy::finite_sums_have_finite_terms(
            crate::num::accuracy::running_sum(areas.drop_last()),
            areas.last(),
        );
    }
    if i < n - 1 {
        lemma_arc_terms_are_finite(points, bulges, (n - 1) as nat, math, i);
    }
}

proof fn lemma_opposite_chord_terms(from: Point, to: Point)
    requires
        from.1.add(to.1).mul(from.0.sub(to.0)).is_finite(),
    ensures
        crate::num::accuracy::opposite(
            from.1.add(to.1).mul(from.0.sub(to.0)),
            to.1.add(from.1).mul(to.0.sub(from.0)),
        ),
{
    crate::num::laws::addition_commutes(from.1, to.1);
    assert(from.0.sub(to.0).is_finite()) by {
        reveal(Num::spec_mul);
    }
    crate::num::accuracy::finite_sums_have_finite_terms(from.0, to.0.neg());
    crate::num::accuracy::differences_are_opposite(from.0, to.0);
    crate::num::accuracy::opposite_factors_have_opposite_products(
        from.0.sub(to.0),
        to.0.sub(from.0),
        from.1.add(to.1),
    );
}

/// The areas between two arcs and their chords are opposite if they have the same radius and
/// opposite sweeps.
pub proof fn reversed_arcs_have_opposite_areas<M: Fn(Elementary) -> Num>(
    arc: Arc,
    reversed: Arc,
    math: &M,
)
    requires
        are_odd(math),
        arc.sweep.is_finite(),
        reversed.radius == arc.radius,
        reversed.sweep == arc.sweep.neg(),
        segment_area(&arc, math).is_finite(),
    ensures
        crate::num::accuracy::opposite(segment_area(&arc, math), segment_area(&reversed, math)),
{
    let sweep = arc.sweep;
    let sine = evaluate(math, Elementary::Sin(sweep));
    let factor = Num::half().mul(arc.radius.mul(arc.radius));
    assert(evaluate(math, Elementary::Sin(sweep.neg())) == sine.neg());
    assert(sweep.sub(sine).is_finite()) by {
        reveal(Num::spec_mul);
    }
    crate::num::accuracy::finite_sums_have_finite_terms(sweep, sine.neg());
    crate::num::accuracy::opposite_terms_have_opposite_sums(
        sweep,
        sine.neg(),
        sweep.neg(),
        sine.neg().neg(),
    );
    crate::num::accuracy::opposite_factors_have_opposite_products(
        sweep.sub(sine),
        sweep.neg().sub(sine.neg()),
        factor,
    );
}

/// The area within a boundary that is followed in the other direction is the opposite one, but
/// for half a step for each operation on the way.
pub proof fn reversed_boundaries_have_opposite_areas<M: Fn(Elementary) -> Num>(
    points: Seq<Point>,
    bulges: Seq<Num>,
    math: &M,
    area: Num,
    reversed_area: Num,
)
    requires
        are_odd(math),
        crate::geometry::primitives::boundary::boundary_area(points, bulges, math) == Ok::<
            _,
            GeometryError,
        >(area),
        crate::geometry::primitives::boundary::boundary_area(
            points.reverse(),
            crate::geometry::primitives::boundary::reversed_bulges(bulges),
            math,
        ) == Ok::<_, GeometryError>(reversed_area),
        area.is_finite(),
        reversed_area.is_finite(),
    ensures
        4 * crate::num::accuracy::gap(area.value(), -reversed_area.value()) <= area_steps(
            points,
            bulges,
            math,
        ) + area_steps(
            points.reverse(),
            crate::geometry::primitives::boundary::reversed_bulges(bulges),
            math,
        ),
{
    let back = points.reverse();
    let back_bulges = crate::geometry::primitives::boundary::reversed_bulges(bulges);
    areas_are_sums_of_their_terms(points, bulges, math, area);
    areas_are_sums_of_their_terms(back, back_bulges, math, reversed_area);
    let n = points.len();
    let chords = chord_terms(points);
    let back_chords = chord_terms(back);
    let arcs = arc_terms(points, bulges, math);
    let back_arcs = arc_terms(back, back_bulges, math);
    assert forall|i: int| 0 <= i < n implies crate::num::accuracy::opposite(
        #[trigger] crate::num::accuracy::backwards(chords)[i],
        back_chords[i],
    ) by {
        crate::geometry::primitives::boundary::reversal_keeps_chords(points, bulges, i);
        let j = if i == n - 1 {
            i
        } else {
            n - 2 - i
        };
        assert(chord_term(points, j).is_finite());
        lemma_opposite_chord_terms(
            points[j],
            crate::geometry::primitives::boundary::successor(points, j),
        );
    }
    crate::num::accuracy::opposite_numbers_have_opposite_sums(chords, back_chords);
    assert forall|i: int| 0 <= i < n implies crate::num::accuracy::opposite(
        #[trigger] crate::num::accuracy::backwards(arcs)[i],
        back_arcs[i],
    ) by {
        crate::geometry::primitives::boundary::reversal_keeps_chords(points, bulges, i);
        let j = if i == n - 1 {
            i
        } else {
            n - 2 - i
        };
        assert(chord_term(points, j).is_finite());
        assert(arc_term(points, bulges, j, math).is_finite());
        lemma_opposite_arc_terms(points, bulges, math, i, j);
    }
    crate::num::accuracy::opposite_numbers_have_opposite_sums(arcs, back_arcs);
}

proof fn lemma_opposite_arc_terms<M: Fn(Elementary) -> Num>(
    points: Seq<Point>,
    bulges: Seq<Num>,
    math: &M,
    i: int,
    j: int,
)
    requires
        are_odd(math),
        0 <= i < points.len(),
        0 <= j < points.len(),
        points.len() == bulges.len(),
        ({
            let back = points.reverse();
            let back_bulges = crate::geometry::primitives::boundary::reversed_bulges(bulges);
            &&& back[i] == crate::geometry::primitives::boundary::successor(points, j)
            &&& crate::geometry::primitives::boundary::successor(back, i) == points[j]
            &&& back_bulges[i] == bulges[j].neg()
            &&& crate::geometry::primitives::boundary::boundary_arcs(
                back,
                back_bulges,
                math,
            ) is Ok
        }),
        crate::geometry::primitives::boundary::boundary_arcs(points, bulges, math) is Ok,
        arc_term(points, bulges, j, math).is_finite(),
    ensures
        crate::num::accuracy::opposite(
            arc_term(points, bulges, j, math),
            arc_term(
                points.reverse(),
                crate::geometry::primitives::boundary::reversed_bulges(bulges),
                i,
                math,
            ),
        ),
{
    let back = points.reverse();
    let back_bulges = crate::geometry::primitives::boundary::reversed_bulges(bulges);
    assert(bulges[j].neg().abs() == bulges[j].abs());
    if bulges[j].abs().gt(bulge_epsilon()) {
        crate::geometry::primitives::boundary::lemma_arcs_are_made(points, bulges, j, math);
        crate::geometry::primitives::boundary::lemma_arcs_are_made(back, back_bulges, i, math);
        let from = points[j];
        let to = crate::geometry::primitives::boundary::successor(points, j);
        let arc = Arc::try_from_bulge(from, to, bulges[j], math)->Ok_0;
        let other = Arc::try_from_bulge(to, from, bulges[j].neg(), math)->Ok_0;
        reversed_arcs_have_the_same_circle(from, to, bulges[j], math, arc, other);
        reversed_arcs_have_opposite_areas(arc, other, math);
    }
}

/// The area of a polygon that was built is the area within its vertices and bulges: exactly if
/// these were given counterclockwise, and else but for half a step for each operation on the way.
pub proof fn built_polygons_have_the_area_within_their_boundary<
    M: Fn(Elementary) -> Num,
    P: Fn(&SPolygon) -> Result<Circle, GeometryError>,
>(points: Seq<Point>, bulges: Seq<Num>, tools: &Toolkit<M, P>, shape: PolygonModel)
    requires
        are_odd(&tools.math),
        crate::geometry::primitives::simple_polygon::is_built(points, bulges, tools, Ok(shape)),
    ensures
        crate::geometry::primitives::boundary::boundary_area(
            shape.vertices,
            shape.bulges,
            &tools.math,
        ) matches Ok(area) && {
            ||| area == shape.area
            ||| shape.area.is_finite() && area.is_finite() ==> 4 * crate::num::accuracy::gap(
                area.value(),
                shape.area.value(),
            ) <= area_steps(points, bulges, &tools.math) + area_steps(
                shape.vertices,
                shape.bulges,
                &tools.math,
            )
        },
{
    let math = &tools.math;
    let given = crate::geometry::primitives::boundary::boundary_area(points, bulges, math)->Ok_0;
    let area = crate::geometry::primitives::boundary::boundary_area(
        shape.vertices,
        shape.bulges,
        math,
    )->Ok_0;
    if area != shape.area && shape.area.is_finite() && area.is_finite() {
        assert(shape.area == given.neg());
        assert(given.neg().value() == -given.value());
        reversed_boundaries_have_opposite_areas(points, bulges, math, given, area);
    }
}

/// The direction in which a boundary is given does not matter: a polygon that is built of it is
/// also built of the boundary in the other direction, with the same vertices, bulges, box,
/// diameter and pole.
///
/// Its area then is the one computed in that direction. The arcs can be made from both ends, and
/// both areas are numbers that exceed what counts as none by more than the steps on the way.
pub proof fn the_given_direction_does_not_matter<
    M: Fn(Elementary) -> Num,
    P: Fn(&SPolygon) -> Result<Circle, GeometryError>,
>(
    points: Seq<Point>,
    bulges: Seq<Num>,
    tools: &Toolkit<M, P>,
    shape: PolygonModel,
    reversed_area: Num,
)
    requires
        are_odd(&tools.math),
        crate::geometry::primitives::simple_polygon::is_built(points, bulges, tools, Ok(shape)),
        crate::geometry::primitives::boundary::boundary_area(
            points.reverse(),
            crate::geometry::primitives::boundary::reversed_bulges(bulges),
            &tools.math,
        ) == Ok::<_, GeometryError>(reversed_area),
        shape.area.is_finite(),
        reversed_area.is_finite(),
        4 * shape.area.value() > 4 * area_epsilon().value() + area_steps(
            points,
            bulges,
            &tools.math,
        ) + area_steps(
            points.reverse(),
            crate::geometry::primitives::boundary::reversed_bulges(bulges),
            &tools.math,
        ),
    ensures
        crate::geometry::primitives::simple_polygon::is_built(
            points.reverse(),
            crate::geometry::primitives::boundary::reversed_bulges(bulges),
            tools,
            Ok(PolygonModel { area: reversed_area.abs(), ..shape }),
        ),
{
    let math = &tools.math;
    let back = points.reverse();
    let back_bulges = crate::geometry::primitives::boundary::reversed_bulges(bulges);
    let given = crate::geometry::primitives::boundary::boundary_area(points, bulges, math)->Ok_0;
    assert(shape.area == given || shape.area == given.neg());
    assert(given.neg().value() == -given.value());
    assert(given.is_finite());
    reversed_boundaries_have_opposite_areas(points, bulges, math, given, reversed_area);
    let zero = Num::zero();
    let epsilon = area_epsilon();
    crate::num::lemma_zero_significand(zero);
    assert(zero.value() == 0);
    assert(epsilon.value() >= 0);
    crate::num::laws::order_agrees_with_value(given, zero);
    crate::num::laws::order_agrees_with_value(reversed_area, zero);
    crate::num::laws::order_agrees_with_value(reversed_area.abs(), epsilon);
    crate::num::laws::order_agrees_with_value(zero, reversed_area);
    assert(reversed_area.abs().value() == if reversed_area.value() < 0 {
        -reversed_area.value()
    } else {
        reversed_area.value()
    });
    crate::geometry::primitives::boundary::reversal_is_an_involution(points, bulges);
    assert(!crate::geometry::primitives::boundary::has_duplicates(back)) by {
        crate::geometry::primitives::boundary::lemma_reversal_keeps_duplicates(points);
    }
    assert forall|i: int| 0 <= i < back_bulges.len() implies (
    #[trigger] back_bulges[i]).is_finite() by {
        crate::geometry::primitives::boundary::reversal_keeps_chords(points, bulges, i);
        let j = if i == points.len() - 1 {
            i
        } else {
            points.len() - 2 - i
        };
        assert(bulges[j].is_finite());
    }
}

} // verus!
