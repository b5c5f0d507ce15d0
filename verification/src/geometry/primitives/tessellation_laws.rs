//! Laws of the chords that stand for arcs, on exact values.
use vstd::prelude::*;

use crate::geometry::primitives::arc::Arc;
use crate::math::{evaluate, Elementary};
use crate::num::estimate::Estimate;
use crate::num::Num;

verus! {

/// A whole number of equal parts of a size, none of which exceeds the greatest one, and no more of them
/// than that takes; the slack is that of the quotient.
pub open spec fn are_just_enough(parts: usize, whole: real, greatest: real, slack: real) -> bool {
    let n = parts as int as real;
    &&& parts >= 1
    &&& whole <= (n + slack) * greatest
    &&& parts > 1 ==> whole > (n - 1real - slack) * greatest
}

proof fn lemma_parts(whole: Num, greatest: Num, parts: usize)
    requires
        greatest.is_finite(),
        crate::num::estimate::exact(greatest) > 0real,
        whole.is_finite(),
        crate::num::estimate::exact(whole) >= 0real,
        !whole.div(greatest).is_negative(),
        whole.div(greatest).is_finite(),
        whole.div(greatest).ceil_to_usize() < usize::MAX,
        parts == if whole.div(greatest).ceil_to_usize() < 1 {
            1
        } else {
            whole.div(greatest).ceil_to_usize()
        },
    ensures
        are_just_enough(
            parts,
            crate::num::estimate::exact(whole),
            crate::num::estimate::exact(greatest),
            crate::num::estimate::half_step(whole.div(greatest)),
        ),
{
    let q = whole.div(greatest);
    let (w, g) = (crate::num::estimate::exact(whole), crate::num::estimate::exact(greatest));
    let (v, h) = (crate::num::estimate::exact(q), crate::num::estimate::half_step(q));
    crate::num::estimate::quotients_are_near(whole, greatest);
    crate::num::estimate::lemma_sign(q);
    crate::num::estimate::rounding_up_adds_less_than_one(q);
    crate::num::estimate::lemma_divided(w, g);
    let n = parts as int as real;
    let f = w / g;
    assert(f <= n + h);
    let d = n + h - f;
    assert(d * g >= 0real) by (nonlinear_arith)
        requires
            d >= 0real,
            g > 0real,
    ;
    crate::geometry::primitives::real_algebra::lemma_difference_times(n + h, f, g);
    if parts > 1 {
        let e = f - (n - 1real - h);
        assert(e * g > 0real) by (nonlinear_arith)
            requires
                e > 0real,
                g > 0real,
        ;
        crate::geometry::primitives::real_algebra::lemma_difference_times(f, n - 1real - h, g);
    }
}

/// A sweep is split into just as many parts as it takes for none to exceed the greatest sweep, up to
/// rounding.
pub proof fn sweeps_are_split_into_just_enough_parts(sweep: Num, max_sweep: Num)
    requires
        sweep.is_finite(),
        max_sweep.is_finite(),
        max_sweep.gt(Num::zero()),
        sweep.abs().div(max_sweep).is_finite(),
        sweep.abs().div(max_sweep).ceil_to_usize() < usize::MAX,
    ensures
        are_just_enough(
            crate::io::import::boundaries::split_count_for_sweep(sweep, max_sweep),
            crate::num::estimate::size(crate::num::estimate::exact(sweep)),
            crate::num::estimate::exact(max_sweep),
            crate::num::estimate::half_step(sweep.abs().div(max_sweep)),
        ),
{
    crate::num::estimate::exact_constants();
    crate::num::estimate::exact_values_compare(max_sweep, Num::zero());
    crate::num::estimate::absolute_values_are_exact(sweep);
    lemma_positive_quotient(sweep.abs(), max_sweep);
    lemma_parts(
        sweep.abs(),
        max_sweep,
        crate::io::import::boundaries::split_count_for_sweep(sweep, max_sweep),
    );
}

proof fn lemma_positive_quotient(x: Num, y: Num)
    requires
        x.is_finite(),
        y.is_finite(),
        !x.is_negative(),
        crate::num::estimate::exact(y) > 0real,
        x.div(y).is_finite(),
    ensures
        !x.div(y).is_negative(),
{
    reveal(Num::spec_div);
    crate::num::estimate::lemma_sign(y);
    crate::num::laws::rounded_numbers_are_numbers(x.units() * Num::one_in_units(), y.units());
}

/// The tolerance, brought between its least value and the radius.
pub open spec fn bounded_tolerance(tolerance: real, radius: real) -> real {
    let least = crate::num::estimate::exact(Num::e_minus_4());
    let t = if tolerance < least {
        least
    } else {
        tolerance
    };
    if t > radius {
        radius
    } else {
        t
    }
}

/// The greatest sweep of a chord is a positive number, and its share of the sweep can be counted.
pub closed spec fn chords_in_range<M: Fn(Elementary) -> Num>(
    arc: Arc,
    tolerance: Num,
    math: &M,
) -> bool {
    let cosine = Num::one().sub(
        tolerance.max(Num::e_minus_4()).min(arc.radius).div(arc.radius),
    );
    let greatest = Num::two().mul(evaluate(math, Elementary::Acos(cosine)));
    &&& cosine.is_finite()
    &&& greatest.is_finite()
    &&& greatest.gt(Num::zero())
    &&& arc.sweep.abs().div(greatest).is_finite()
    &&& arc.sweep.abs().div(greatest).ceil_to_usize() < usize::MAX
}

/// An arc is divided into just as many chords as it takes for none to sweep more than twice the angle
/// whose cosine is one less the part that the tolerance is of the radius, up to rounding: a chord of
/// that sweep deviates from the arc by the tolerance. The tolerance is brought between its least value
/// and the radius first.
pub proof fn arcs_have_just_enough_chords<M: Fn(Elementary) -> Num>(
    arc: Arc,
    tolerance: Num,
    math: &M,
) -> (cosine: Num)
    requires
        arc.sweep.is_finite(),
        arc.radius.is_finite(),
        arc.radius.gt(Num::zero()),
        tolerance.is_finite(),
        chords_in_range(arc, tolerance, math),
    ensures
        ({
            let r = crate::num::estimate::exact(arc.radius);
            let t = bounded_tolerance(crate::num::estimate::exact(tolerance), r);
            let greatest = Num::two().mul(evaluate(math, Elementary::Acos(cosine)));
            &&& cosine.is_finite()
            &&& crate::num::estimate::size(
                crate::num::estimate::exact(cosine) - (1real - t / r),
            ) <= crate::num::estimate::half_step(cosine) + quotient_slack(arc, tolerance)
            &&& are_just_enough(
                crate::geometry::primitives::tessellation::chord_count(&arc, tolerance, math),
                crate::num::estimate::size(crate::num::estimate::exact(arc.sweep)),
                crate::num::estimate::exact(greatest),
                crate::num::estimate::half_step(arc.sweep.abs().div(greatest)),
            )
        }),
{
    let t = tolerance.max(Num::e_minus_4()).min(arc.radius);
    let q = t.div(arc.radius);
    let cosine = Num::one().sub(q);
    let greatest = Num::two().mul(evaluate(math, Elementary::Acos(cosine)));
    crate::num::estimate::exact_constants();
    crate::num::estimate::exact_values_compare(greatest, Num::zero());
    crate::num::estimate::exact_values_compare(arc.radius, Num::zero());
    crate::num::estimate::absolute_values_are_exact(arc.sweep);
    lemma_positive_quotient(arc.sweep.abs(), greatest);
    lemma_parts(
        arc.sweep.abs(),
        greatest,
        crate::geometry::primitives::tessellation::chord_count(&arc, tolerance, math),
    );
    if cosine.is_finite() {
        let least = Num::e_minus_4();
        assert(least.is_finite());
        crate::num::estimate::exact_values_compare(tolerance, least);
        crate::num::estimate::exact_values_compare(tolerance.max(least), arc.radius);
        crate::num::estimate::differences_are_near(Num::one(), q);
        crate::num::estimate::quotients_are_near(t, arc.radius);
        crate::num::estimate::lemma_sign(q);
    }
    cosine
}

/// How far the part that the tolerance is of the radius may be from what it is.
pub closed spec fn quotient_slack(arc: Arc, tolerance: Num) -> real {
    crate::num::estimate::half_step(
        tolerance.max(Num::e_minus_4()).min(arc.radius).div(arc.radius),
    )
}

spec fn part_estimate(i: usize, n: usize) -> Estimate {
    let (a, b) = (Num::from_usize(i), Num::from_usize(n));
    (Estimate { value: i as int as real, error: crate::num::estimate::half_step(a) }).divided_by(
        Estimate { value: n as int as real, error: crate::num::estimate::half_step(b) },
        b,
        a.div(b),
    )
}

spec fn part_angle<M: Fn(Elementary) -> Num>(arc: Arc, i: usize, n: usize, math: &M) -> Num {
    arc.start_angle(math).add(arc.sweep.mul(Num::from_usize(i).div(Num::from_usize(n))))
}

/// How far the angle at which a part of an arc begins may be from what it is.
pub closed spec fn part_error<M: Fn(Elementary) -> Num>(
    arc: Arc,
    i: usize,
    n: usize,
    math: &M,
) -> real {
    let p = Num::from_usize(i).div(Num::from_usize(n));
    Estimate::of(arc.start_angle(math)).plus(
        Estimate::of(arc.sweep).times(part_estimate(i, n), arc.sweep.mul(p)),
        part_angle(arc, i, n, math),
    ).error
}

/// The point of an arc after `i` of `n` parts of its sweep is the one at the angle that lies this part
/// of the sweep on from where the arc starts, up to rounding.
pub proof fn chords_divide_the_sweep_evenly<M: Fn(Elementary) -> Num>(
    arc: Arc,
    i: usize,
    n: usize,
    math: &M,
) -> (angle: Num)
    requires
        n > 0,
        crate::num::estimate::exact(Num::from_usize(n)) != 0real,
        Num::from_usize(n).is_finite(),
        crate::geometry::primitives::tessellation::arc_point(&arc, i, n, math).is_finite(),
    ensures
        crate::geometry::primitives::tessellation::arc_point(&arc, i, n, math)
            == arc.point_at_angle(angle, math),
        angle.is_finite() ==> crate::num::estimate::size(
            crate::num::estimate::exact(angle) - (crate::num::estimate::exact(arc.start_angle(math))
                + crate::num::estimate::exact(arc.sweep) * (i as int as real / n as int as real)),
        ) <= part_error(arc, i, n, math),
{
    let angle = part_angle(arc, i, n, math);
    if angle.is_finite() {
        let (a, b) = (Num::from_usize(i), Num::from_usize(n));
        let p = a.div(b);
        crate::num::estimate::sums_are_near(arc.start_angle(math), arc.sweep.mul(p));
        crate::num::estimate::products_are_near(arc.sweep, p);
        crate::num::estimate::finite_quotients_have_finite_dividends(a, b);
        crate::num::estimate::counts_are_near(i);
        crate::num::estimate::counts_are_near(n);
        let (e, f) = (
            Estimate { value: i as int as real, error: crate::num::estimate::half_step(a) },
            Estimate { value: n as int as real, error: crate::num::estimate::half_step(b) },
        );
        crate::num::estimate::estimated_ratios(e, a, f, b);
        let s = Estimate::of(arc.sweep);
        crate::num::estimate::estimated_products(s, arc.sweep, part_estimate(i, n), p);
        crate::num::estimate::estimated_sums(
            Estimate::of(arc.start_angle(math)),
            arc.start_angle(math),
            s.times(part_estimate(i, n), arc.sweep.mul(p)),
            arc.sweep.mul(p),
        );
    }
    angle
}

} // verus!
