//! When computed turns and areas have the right sign.
use vstd::prelude::*;

use crate::geometry::primitives::point::Point;
use crate::geometry::shape_modification::corners::turn_of;
use crate::num::Num;

verus! {

/// How far the product of two rounded differences or sums may be from the exact one, in squared
/// units, twice.
pub open spec fn product_steps(a: Num, b: Num, exact_a: int) -> nat {
    crate::num::accuracy::step(a.mul(b)) * Num::one_in_units() + crate::num::accuracy::step(a)
        * b.units() + crate::num::accuracy::gap(exact_a, 0) * crate::num::accuracy::step(b)
}

proof fn lemma_product_errs(a: Num, b: Num, exact_a: int, exact_b: int)
    requires
        a.is_finite(),
        b.is_finite(),
        a.mul(b).is_finite(),
        2 * crate::num::accuracy::gap(a.value(), exact_a) <= crate::num::accuracy::step(a),
        2 * crate::num::accuracy::gap(b.value(), exact_b) <= crate::num::accuracy::step(b),
    ensures
        2 * crate::num::accuracy::gap(
            a.mul(b).value() * Num::one_in_units(),
            exact_a * exact_b,
        ) <= product_steps(a, b, exact_a),
{
    crate::num::accuracy::products_err_by_half_a_step(a, b);
    let (va, vb) = (a.value(), b.value());
    let (sa, sb) = (crate::num::accuracy::step(a) as int, crate::num::accuracy::step(b) as int);
    let size = crate::num::accuracy::gap(exact_a, 0) as int;
    crate::geometry::primitives::moments::lemma_scaled_error(
        vb,
        b.units() as int,
        va - exact_a,
        sa,
    );
    crate::geometry::primitives::moments::lemma_scaled_error(exact_a, size, vb - exact_b, sb);
    assert(b.units() * sa == sa * b.units()) by (nonlinear_arith);
    assert(vb * (va - exact_a) == va * vb - exact_a * vb) by (nonlinear_arith);
    assert(exact_a * (vb - exact_b) == exact_a * vb - exact_a * exact_b) by (nonlinear_arith);
}

/// How far a computed turn may be from the exact one, in squared units, twice.
pub open spec fn turn_steps(p: Point, q: Point, r: Point) -> nat {
    let left = q.0.sub(p.0).mul(r.1.sub(p.1));
    let right = q.1.sub(p.1).mul(r.0.sub(p.0));
    crate::num::accuracy::step(left.sub(right)) * Num::one_in_units() + product_steps(
        q.0.sub(p.0),
        r.1.sub(p.1),
        q.0.value() - p.0.value(),
    ) + product_steps(q.1.sub(p.1), r.0.sub(p.0), q.1.value() - p.1.value())
}

proof fn lemma_difference_errs(x: Num, y: Num)
    requires
        x.sub(y).is_finite(),
    ensures
        x.is_finite(),
        y.is_finite(),
        2 * crate::num::accuracy::gap(x.sub(y).value(), x.value() - y.value())
            <= crate::num::accuracy::step(x.sub(y)),
{
    crate::num::accuracy::finite_sums_have_finite_terms(x, y.neg());
    crate::num::accuracy::sums_err_by_half_a_step(x, y.neg());
    assert(y.neg().value() == -y.value());
}

/// A computed turn differs from the exact one by at most half a step for each operation on the way.
/// If it exceeds them, it has the sign of the exact one.
pub proof fn clear_turns_have_the_right_sign(p: Point, q: Point, r: Point)
    requires
        turn_of(p, q, r).is_finite(),
    ensures
        ({
            let computed = turn_of(p, q, r).value() * Num::one_in_units();
            let exact = crate::geometry::primitives::exact_outlines::twice_the_area(
                seq![p, q, r],
            );
            &&& 2 * crate::num::accuracy::gap(computed, exact) <= turn_steps(p, q, r)
            &&& 2 * computed > turn_steps(p, q, r) ==> exact > 0
            &&& -2 * computed > turn_steps(p, q, r) ==> exact < 0
        }),
{
    let one = Num::one_in_units() as int;
    let (a, d) = (q.0.sub(p.0), r.1.sub(p.1));
    let (b, c) = (q.1.sub(p.1), r.0.sub(p.0));
    let left = a.mul(d);
    let right = b.mul(c);
    crate::geometry::primitives::exact_outlines::triangles_have_half_the_cross_product(p, q, r);
    lemma_difference_errs(left, right);
    assert(a.is_finite() && b.is_finite() && c.is_finite() && d.is_finite()) by {
        reveal(Num::spec_mul);
    }
    lemma_difference_errs(q.0, p.0);
    lemma_difference_errs(r.1, p.1);
    lemma_difference_errs(q.1, p.1);
    lemma_difference_errs(r.0, p.0);
    lemma_product_errs(a, d, q.0.value() - p.0.value(), r.1.value() - p.1.value());
    lemma_product_errs(b, c, q.1.value() - p.1.value(), r.0.value() - p.0.value());
    let t = left.sub(right);
    let (vt, vl, vr) = (t.value(), left.value(), right.value());
    let st = crate::num::accuracy::step(t) as int;
    crate::geometry::primitives::moments::lemma_scaled_bounds(vt - (vl - vr), st, one);
    assert((vt - (vl - vr)) * one == vt * one - (vl * one - vr * one)) by (nonlinear_arith);
}

/// How far the area within the first `n` chords may be from the exact one, in squared units, twice
/// and for twice the area.
pub open spec fn shoelace_steps(points: Seq<Point>, n: nat) -> nat
    decreases n,
{
    if n == 0 {
        0
    } else {
        let from = points[n - 1];
        let to = crate::geometry::primitives::boundary::successor(points, n - 1);
        shoelace_steps(points, (n - 1) as nat) + product_steps(
            from.1.add(to.1),
            from.0.sub(to.0),
            from.1.value() + to.1.value(),
        ) + crate::num::accuracy::step(
            crate::geometry::primitives::boundary::shoelace(points, n),
        ) * Num::one_in_units()
    }
}

proof fn lemma_shoelace_errs(points: Seq<Point>, n: nat)
    requires
        n <= points.len(),
        crate::geometry::primitives::boundary::shoelace(points, n).is_finite(),
    ensures
        2 * crate::num::accuracy::gap(
            crate::geometry::primitives::boundary::shoelace(points, n).value()
                * Num::one_in_units(),
            crate::geometry::primitives::moments::area_of_sides(
                crate::geometry::primitives::moments::places(points),
                n,
            ),
        ) <= shoelace_steps(points, n),
    decreases n,
{
    let one = Num::one_in_units() as int;
    if n == 0 {
        crate::num::lemma_zero_significand(Num::zero());
        assert(0 * one == 0);
    } else {
        let before = crate::geometry::primitives::boundary::shoelace(points, (n - 1) as nat);
        let from = points[n - 1];
        let to = crate::geometry::primitives::boundary::successor(points, n - 1);
        let (a, b) = (from.1.add(to.1), from.0.sub(to.0));
        let term = a.mul(b);
        let r = before.add(term);
        crate::num::accuracy::finite_sums_have_finite_terms(before, term);
        lemma_shoelace_errs(points, (n - 1) as nat);
        crate::geometry::primitives::moments::lemma_next_place(points, n - 1);
        assert(a.is_finite() && b.is_finite()) by {
            reveal(Num::spec_mul);
        }
        crate::num::accuracy::finite_sums_have_finite_terms(from.1, to.1);
        crate::num::accuracy::sums_err_by_half_a_step(from.1, to.1);
        lemma_difference_errs(from.0, to.0);
        lemma_product_errs(
            a,
            b,
            from.1.value() + to.1.value(),
            from.0.value() - to.0.value(),
        );
        crate::num::accuracy::sums_err_by_half_a_step(before, term);
        let (vr, vb, vt) = (r.value(), before.value(), term.value());
        let step = crate::num::accuracy::step(r) as int;
        crate::geometry::primitives::moments::lemma_scaled_bounds(vr - (vb + vt), step, one);
        assert((vr - (vb + vt)) * one == vr * one - (vb * one + vt * one)) by (nonlinear_arith);
    }
}

proof fn lemma_areas_of_sides(points: Seq<Point>, n: nat)
    requires
        0 < n <= points.len(),
    ensures
        crate::geometry::primitives::moments::area_of_sides(
            crate::geometry::primitives::moments::places(points),
            (n - 1) as nat,
        ) == crate::geometry::primitives::exact_outlines::along_path(
            crate::geometry::primitives::exact_outlines::area_measure(),
            points.take(n as int),
        ),
    decreases n,
{
    let path = points.take(n as int);
    if n > 1 {
        lemma_areas_of_sides(points, (n - 1) as nat);
        assert(path.drop_last() =~= points.take(n - 1));
        crate::geometry::primitives::moments::lemma_next_place(points, n - 2);
        assert(path[path.len() - 2] == points[n - 2]);
        assert(path.last() == points[n - 1]);
    }
}

/// Twice the area of an outline, summed up over its sides.
pub proof fn areas_are_summed_up_over_the_sides(points: Seq<Point>)
    requires
        points.len() > 0,
    ensures
        crate::geometry::primitives::moments::area(
            crate::geometry::primitives::moments::places(points),
        ) == crate::geometry::primitives::exact_outlines::twice_the_area(points),
{
    let n = points.len();
    lemma_areas_of_sides(points, n);
    assert(points.take(n as int) =~= points);
    crate::geometry::primitives::moments::lemma_next_place(points, n - 1);
}

/// How far a computed area may be from the exact one, in squared units, for four times the area.
pub open spec fn chord_area_steps(points: Seq<Point>) -> nat {
    shoelace_steps(points, points.len()) + 2 * (crate::num::accuracy::step(
        crate::geometry::primitives::boundary::chord_area(points),
    ) * Num::one_in_units())
}

/// The computed area within straight sides differs from the exact one by at most half a step for
/// each operation on the way. If it exceeds them, it has the sign of the exact one.
pub proof fn clear_areas_have_the_right_sign(points: Seq<Point>)
    requires
        points.len() > 0,
        crate::geometry::primitives::boundary::chord_area(points).is_finite(),
    ensures
        ({
            let computed = crate::geometry::primitives::boundary::chord_area(points).value()
                * Num::one_in_units();
            let exact = crate::geometry::primitives::exact_outlines::twice_the_area(points);
            &&& 2 * crate::num::accuracy::gap(2 * computed, exact) <= chord_area_steps(points)
            &&& 4 * computed > chord_area_steps(points) ==> exact > 0
            &&& -4 * computed > chord_area_steps(points) ==> exact < 0
        }),
{
    let one = Num::one_in_units() as int;
    let total = crate::geometry::primitives::boundary::shoelace(points, points.len());
    let within = crate::geometry::primitives::boundary::chord_area(points);
    crate::geometry::primitives::direction::lemma_two();
    assert(total.is_finite()) by {
        reveal(Num::spec_mul);
    }
    areas_are_summed_up_over_the_sides(points);
    lemma_shoelace_errs(points, points.len());
    crate::num::accuracy::products_err_by_half_a_step(Num::half(), total);
    let h = Num::half().value();
    let (c, t) = (within.value(), total.value());
    assert(2 * (h * t) == t * one) by (nonlinear_arith)
        requires
            2 * h == one,
    ;
}

} // verus!
