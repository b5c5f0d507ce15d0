//! Laws of arcs, on exact values.
use vstd::prelude::*;

use crate::geometry::primitives::arc::Arc;
use crate::geometry::primitives::point::Point;
use crate::math::{evaluate, Elementary};
use crate::num::estimate::Estimate;
use crate::num::Num;

verus! {

/// The cube of the sine of half the sweep, as it is estimated.
spec fn cube(s: Num) -> Estimate {
    let one = Estimate::of(s);
    one.times(one, s.mul(s)).times(one, s.mul(s).mul(s))
}

spec fn mass_dividend(radius: Num, s: Num) -> Estimate {
    let r = Estimate::of(Num::four()).times(Estimate::of(radius), Num::four().mul(radius));
    r.times(cube(s), Num::four().mul(radius).mul(s.mul(s).mul(s)))
}

spec fn mass_divisor(sweep: Num, sine: Num) -> Estimate {
    Estimate::of(Num::three()).times(
        Estimate::of(sweep).minus(Estimate::of(sine), sweep.sub(sine)),
        Num::three().mul(sweep.sub(sine)),
    )
}

/// How far the center of mass of the area between an arc and its chord lies from the center of the
/// circle, given the sweep, its sine and the sine of half of it.
pub open spec fn mass_distance(radius: real, sweep: real, sine: real, half_sine: real) -> real {
    (4real * radius * (half_sine * half_sine * half_sine)) / (3real * (sweep - sine))
}

/// How far one coordinate of the center of mass may be from where it should be; `part` is the sine or
/// the cosine of the direction.
pub closed spec fn mass_coordinate_error(
    arc: Arc,
    center: Num,
    sine: Num,
    half_sine: Num,
    part: Num,
) -> real {
    let sweep = arc.sweep.abs();
    let dividend = Num::four().mul(arc.radius).mul(half_sine.mul(half_sine).mul(half_sine));
    let divisor = Num::three().mul(sweep.sub(sine));
    let offset = dividend.div(divisor);
    let distance = mass_dividend(arc.radius, half_sine).divided_by(
        mass_divisor(sweep, sine),
        divisor,
        offset,
    );
    Estimate::of(center).plus(
        distance.times(Estimate::of(part), offset.mul(part)),
        center.add(offset.mul(part)),
    ).error
}

proof fn lemma_three()
    ensures
        Num::three().is_finite(),
        crate::num::estimate::exact(Num::three()) == 3real,
{
    crate::num::estimate::exact_constants();
    let (a, b, c) = (Num::one(), Num::two(), Num::three());
    assert(c.value() == a.value() + b.value()) by {
        crate::num::estimate::lemma_three_in_units();
    }
    crate::num::estimate::lemma_exact_sum(a, b, c);
}

/// The computed distance of the center of mass from the center of the circle.
proof fn lemma_mass_distance(radius: Num, sweep: Num, sine: Num, half_sine: Num)
    requires
        ({
            let dividend = Num::four().mul(radius).mul(half_sine.mul(half_sine).mul(half_sine));
            let divisor = Num::three().mul(sweep.sub(sine));
            &&& dividend.is_finite()
            &&& divisor.is_finite()
            &&& crate::num::estimate::exact(divisor) != 0real
            &&& dividend.div(divisor).is_finite()
        }),
        crate::num::estimate::exact(sweep) != crate::num::estimate::exact(sine),
    ensures
        ({
            let dividend = Num::four().mul(radius).mul(half_sine.mul(half_sine).mul(half_sine));
            let divisor = Num::three().mul(sweep.sub(sine));
            let e = mass_dividend(radius, half_sine).divided_by(
                mass_divisor(sweep, sine),
                divisor,
                dividend.div(divisor),
            );
            &&& e.covers(dividend.div(divisor))
            &&& e.value == mass_distance(
                crate::num::estimate::exact(radius),
                crate::num::estimate::exact(sweep),
                crate::num::estimate::exact(sine),
                crate::num::estimate::exact(half_sine),
            )
        }),
{
    let s = half_sine;
    let four_r = Num::four().mul(radius);
    let c = s.mul(s).mul(s);
    let dividend = four_r.mul(c);
    let divisor = Num::three().mul(sweep.sub(sine));
    crate::num::estimate::exact_constants();
    lemma_three();
    crate::num::estimate::products_are_near(four_r, c);
    crate::num::estimate::products_are_near(s.mul(s), s);
    crate::num::estimate::products_are_near(s, s);
    crate::num::estimate::products_are_near(Num::four(), radius);
    crate::num::estimate::products_are_near(Num::three(), sweep.sub(sine));
    crate::num::estimate::differences_are_near(sweep, sine);
    let e = Estimate::of(s);
    crate::num::estimate::estimated_products(e, s, e, s);
    let e2 = e.times(e, s.mul(s));
    crate::num::estimate::estimated_products(e2, s.mul(s), e, s);
    let (f, r) = (Estimate::of(Num::four()), Estimate::of(radius));
    crate::num::estimate::estimated_products(f, Num::four(), r, radius);
    crate::num::estimate::estimated_products(f.times(r, four_r), four_r, cube(s), c);
    let (a, b) = (Estimate::of(sweep), Estimate::of(sine));
    crate::num::estimate::estimated_differences(a, sweep, b, sine);
    let t = Estimate::of(Num::three());
    crate::num::estimate::estimated_products(
        t,
        Num::three(),
        a.minus(b, sweep.sub(sine)),
        sweep.sub(sine),
    );
    crate::num::estimate::estimated_ratios(
        mass_dividend(radius, s),
        dividend,
        mass_divisor(sweep, sine),
        divisor,
    );
}

/// The center of mass of the area between an arc and its chord lies in the direction of the middle of
/// the arc, at the distance 4 r sin^3(sweep / 2) / (3 (sweep - sin(sweep))) from the center of the
/// circle, up to rounding. The direction is `middle`, half the sweep on from where the arc starts.
///
/// If the supplied sines are such that this is no more than the radius, and no less than what the
/// cosine of half the sweep takes of it, as it is for the sine, then the center of mass lies between
/// the arc and its chord.
pub proof fn masses_lie_between_arcs_and_chords<M: Fn(Elementary) -> Num>(
    arc: Arc,
    math: &M,
    half: Num,
    cosine: real,
    center: Point,
    area: Num,
) -> (middle: Num)
    requires
        crate::geometry::primitives::centroid::arc_mass(&arc, math) == Some((center, area)),
        arc.sweep.is_finite(),
        half.is_finite(),
        2real * crate::num::estimate::exact(half) == crate::num::estimate::size(
            crate::num::estimate::exact(arc.sweep),
        ),
        crate::num::estimate::exact(arc.sweep) != 0real,
        evaluate(math, Elementary::Sin(arc.sweep.abs())).is_finite(),
        crate::num::estimate::exact(arc.sweep.abs()) != crate::num::estimate::exact(
            evaluate(math, Elementary::Sin(arc.sweep.abs())),
        ),
        Num::three().mul(
            arc.sweep.abs().sub(evaluate(math, Elementary::Sin(arc.sweep.abs()))),
        ).is_finite(),
        center.is_finite(),
        arc.start_angle(math).add(arc.sweep.div(Num::two())).is_finite(),
        arc.sweep.units() % 2 == 0,
    ensures
        middle.is_finite(),
        crate::num::estimate::size(
            crate::num::estimate::exact(middle) - (crate::num::estimate::exact(
                arc.start_angle(math),
            ) + crate::num::estimate::exact(arc.sweep) / 2real),
        ) <= crate::num::estimate::half_step(middle),
        ({
            let sweep = arc.sweep.abs();
            let sine = evaluate(math, Elementary::Sin(sweep));
            let half_sine = evaluate(math, Elementary::Sin(half));
            let (cos, sin) = (
                evaluate(math, Elementary::Cos(middle)),
                evaluate(math, Elementary::Sin(middle)),
            );
            let (r, a) = (
                crate::num::estimate::exact(arc.radius),
                crate::num::estimate::exact(sweep),
            );
            let (s, h) = (
                crate::num::estimate::exact(sine),
                crate::num::estimate::exact(half_sine),
            );
            let k = mass_distance(r, a, s, h);
            &&& crate::num::estimate::size(
                crate::num::estimate::exact(center.0) - (crate::num::estimate::exact(arc.center.0)
                    + k * crate::num::estimate::exact(cos)),
            ) <= mass_coordinate_error(arc, arc.center.0, sine, half_sine, cos)
            &&& crate::num::estimate::size(
                crate::num::estimate::exact(center.1) - (crate::num::estimate::exact(arc.center.1)
                    + k * crate::num::estimate::exact(sin)),
            ) <= mass_coordinate_error(arc, arc.center.1, sine, half_sine, sin)
            &&& r >= 0real && a > s && 4real * (h * h * h) <= 3real * (a - s) ==> k <= r
            &&& r >= 0real && a > s && 4real * (h * h * h) >= cosine * (3real * (a - s)) ==> k >= r
                * cosine
        }),
{
    let sweep = arc.sweep.abs();
    let sine = evaluate(math, Elementary::Sin(sweep));
    crate::num::estimate::absolute_values_are_exact(arc.sweep);
    crate::num::estimate::exact_constants();
    lemma_half(sweep, half);
    lemma_half_of(arc.sweep);
    let half_sine = evaluate(math, Elementary::Sin(half));
    let middle = arc.start_angle(math).add(arc.sweep.div(Num::two()));
    crate::num::estimate::sums_are_near(arc.start_angle(math), arc.sweep.div(Num::two()));
    let (cos, sin) = (
        evaluate(math, Elementary::Cos(middle)),
        evaluate(math, Elementary::Sin(middle)),
    );
    let dividend = Num::four().mul(arc.radius).mul(half_sine.mul(half_sine).mul(half_sine));
    let divisor = Num::three().mul(sweep.sub(sine));
    let offset = dividend.div(divisor);
    assert(center.0 == arc.center.0.add(offset.mul(cos)));
    assert(center.1 == arc.center.1.add(offset.mul(sin)));
    crate::num::accuracy::finite_sums_have_finite_terms(arc.center.0, offset.mul(cos));
    crate::num::accuracy::finite_sums_have_finite_terms(arc.center.1, offset.mul(sin));
    crate::num::estimate::products_are_near(offset, cos);
    crate::num::estimate::products_are_near(offset, sin);
    assert(crate::num::estimate::exact(divisor) != 0real) by {
        crate::num::estimate::lemma_sign(divisor);
        crate::num::laws::order_agrees_with_value(divisor.abs(), area_limit());
        crate::num::lemma_zero_significand(Num::zero());
        assert(area_limit().value() >= 0);
        if divisor.value() == 0 {
            assert(divisor.abs().le(area_limit()));
        }
    }
    assert(dividend.is_finite()) by {
        reveal(Num::spec_div);
    }
    lemma_mass_distance(arc.radius, sweep, sine, half_sine);
    let e = mass_dividend(arc.radius, half_sine).divided_by(
        mass_divisor(sweep, sine),
        divisor,
        offset,
    );
    let (ec, es) = (Estimate::of(cos), Estimate::of(sin));
    crate::num::estimate::estimated_products(e, offset, ec, cos);
    crate::num::estimate::estimated_products(e, offset, es, sin);
    crate::num::estimate::estimated_sums(
        Estimate::of(arc.center.0),
        arc.center.0,
        e.times(ec, offset.mul(cos)),
        offset.mul(cos),
    );
    crate::num::estimate::estimated_sums(
        Estimate::of(arc.center.1),
        arc.center.1,
        e.times(es, offset.mul(sin)),
        offset.mul(sin),
    );
    let (r, a) = (crate::num::estimate::exact(arc.radius), crate::num::estimate::exact(sweep));
    let (s, h) = (crate::num::estimate::exact(sine), crate::num::estimate::exact(half_sine));
    let k = mass_distance(r, a, s, h);
    let (c3, d) = (h * h * h, 3real * (a - s));
    if r >= 0real && a > s {
        if 4real * c3 <= d {
            assert((4real * r * c3) / d <= r) by (nonlinear_arith)
                requires
                    r >= 0real,
                    d > 0real,
                    4real * c3 <= d,
            ;
        }
        if 4real * c3 >= cosine * d {
            assert((4real * r * c3) / d >= r * cosine) by (nonlinear_arith)
                requires
                    r >= 0real,
                    d > 0real,
                    4real * c3 >= cosine * d,
            ;
        }
    }
    middle
}

/// The area that counts as none.
spec fn area_limit() -> Num {
    crate::geometry::primitives::boundary::area_epsilon()
}

/// Half of a number, as it is computed, if there is such a number.
proof fn lemma_half(x: Num, half: Num)
    requires
        x.is_finite(),
        half.is_finite(),
        2real * crate::num::estimate::exact(half) == crate::num::estimate::exact(x),
        crate::num::estimate::exact(x) != 0real,
        x.units() % 2 == 0,
    ensures
        x.div(Num::two()) == half,
{
    lemma_half_of(x);
    crate::num::estimate::exact_values_tell_numbers_apart(half, x.div(Num::two()));
}

proof fn lemma_half_of(x: Num)
    requires
        x.is_finite(),
        x.units() % 2 == 0,
    ensures
        x.div(Num::two()).is_finite(),
        2real * crate::num::estimate::exact(x.div(Num::two())) == crate::num::estimate::exact(x),
{
    crate::num::laws::halving_is_exact(x);
    crate::num::estimate::lemma_doubled(x.div(Num::two()), x);
}

spec fn segment_area_estimate(arc: Arc, sine: Num) -> Estimate {
    let r = Estimate::of(arc.radius);
    let square = arc.radius.mul(arc.radius);
    let half = Num::half().mul(square);
    Estimate::of(Num::half()).times(r.times(r, square), half).times(
        Estimate::of(arc.sweep).minus(Estimate::of(sine), arc.sweep.sub(sine)),
        half.mul(arc.sweep.sub(sine)),
    )
}

/// How far the computed area between an arc and its chord may be from what it is.
pub closed spec fn segment_area_error(arc: Arc, sine: Num) -> real {
    segment_area_estimate(arc, sine).error
}

/// The signed area between an arc and its chord is half the square of the radius, times what the sweep
/// has more than its sine, up to rounding.
pub proof fn areas_beside_chords_follow_the_sweep<M: Fn(Elementary) -> Num>(arc: Arc, math: &M)
    requires
        crate::geometry::primitives::boundary::segment_area(&arc, math).is_finite(),
    ensures
        ({
            let sine = evaluate(math, Elementary::Sin(arc.sweep));
            let (r, a, s) = (
                crate::num::estimate::exact(arc.radius),
                crate::num::estimate::exact(arc.sweep),
                crate::num::estimate::exact(sine),
            );
            crate::num::estimate::size(
                crate::num::estimate::exact(
                    crate::geometry::primitives::boundary::segment_area(&arc, math),
                ) - (1real / 2real) * (r * r) * (a - s),
            ) <= segment_area_error(arc, sine)
        }),
{
    let sine = evaluate(math, Elementary::Sin(arc.sweep));
    crate::num::estimate::exact_constants();
    let (r, a) = (arc.radius, arc.sweep);
    let square = r.mul(r);
    let half = Num::half().mul(square);
    crate::num::estimate::products_are_near(half, a.sub(sine));
    crate::num::estimate::products_are_near(Num::half(), square);
    crate::num::estimate::products_are_near(r, r);
    crate::num::estimate::differences_are_near(a, sine);
    let (e, h) = (Estimate::of(r), Estimate::of(Num::half()));
    crate::num::estimate::estimated_products(e, r, e, r);
    crate::num::estimate::estimated_products(h, Num::half(), e.times(e, square), square);
    let difference = Estimate::of(a).minus(Estimate::of(sine), a.sub(sine));
    crate::num::estimate::estimated_differences(Estimate::of(a), a, Estimate::of(sine), sine);
    crate::num::estimate::estimated_products(
        h.times(e.times(e, square), half),
        half,
        difference,
        a.sub(sine),
    );
}

} // verus!
