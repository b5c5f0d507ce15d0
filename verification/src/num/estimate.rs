//! Exact values of numbers, and how far computed ones may be from them.
use vstd::arithmetic::power2::*;
use vstd::prelude::*;

use crate::num::Num;

verus! {

/// The value of a finite number.
pub open spec fn exact(x: Num) -> real {
    x.value() as real / Num::one_in_units() as real
}

/// The absolute value.
pub open spec fn size(v: real) -> real {
    if v < 0real {
        -v
    } else {
        v
    }
}

/// Half the distance from a finite number to the next one away from zero.
pub open spec fn half_step(x: Num) -> real {
    crate::num::accuracy::step(x) as real / (2real * Num::one_in_units() as real)
}

/// A value, and how far something computed may be from it.
pub struct Estimate {
    pub value: real,
    pub error: real,
}

impl Estimate {
    /// The number is finite and no farther from the value than that.
    pub open spec fn covers(self, x: Num) -> bool {
        x.is_finite() && size(exact(x) - self.value) <= self.error
    }

    /// A number as it is.
    pub open spec fn of(x: Num) -> Estimate {
        Estimate { value: exact(x), error: 0real }
    }

    pub open spec fn plus(self, other: Estimate, sum: Num) -> Estimate {
        Estimate {
            value: self.value + other.value,
            error: self.error + other.error + half_step(sum),
        }
    }

    pub open spec fn minus(self, other: Estimate, difference: Num) -> Estimate {
        Estimate {
            value: self.value - other.value,
            error: self.error + other.error + half_step(difference),
        }
    }

    pub open spec fn times(self, other: Estimate, product: Num) -> Estimate {
        Estimate {
            value: self.value * other.value,
            error: size(self.value) * other.error + size(other.value) * self.error + self.error
                * other.error + half_step(product),
        }
    }

    /// The quotient by a number as it is.
    pub open spec fn over(self, divisor: Num, quotient: Num) -> Estimate {
        Estimate {
            value: self.value / exact(divisor),
            error: self.error / size(exact(divisor)) + half_step(quotient),
        }
    }

    /// The quotient by an estimate of the divisor.
    pub open spec fn divided_by(self, other: Estimate, divisor: Num, quotient: Num) -> Estimate {
        Estimate {
            value: self.value / other.value,
            error: (self.error + size(self.value / other.value) * other.error) / size(
                exact(divisor),
            ) + half_step(quotient),
        }
    }

    pub open spec fn negated(self) -> Estimate {
        Estimate { value: -self.value, error: self.error }
    }
}

pub proof fn lemma_real_products(a: int, b: int)
    ensures
        (a * b) as real == a as real * b as real,
{
    assert((a * b) as real == a as real * b as real) by (nonlinear_arith);
}

/// How many units make one, as a real number.
proof fn lemma_one_real()
    ensures
        Num::one_in_units() as real > 0real,
{
    lemma_pow2_pos(1074);
}

/// A bound on twice the distance of two values, in units, bounds the distance.
proof fn lemma_distance_in_units(a: int, b: int, steps: nat)
    requires
        2 * crate::num::accuracy::gap(a, b) <= steps,
    ensures
        ({
            let one = Num::one_in_units() as real;
            size(a as real / one - b as real / one) <= steps as real / (2real * one)
        }),
{
    let one = Num::one_in_units() as real;
    lemma_one_real();
    let (x, y, s) = (a as real, b as real, steps as real);
    assert(2real * (x - y) <= s && 2real * (y - x) <= s);
    assert(x / one - y / one <= s / (2real * one)) by (nonlinear_arith)
        requires
            one > 0real,
            2real * (x - y) <= s,
    ;
    assert(y / one - x / one <= s / (2real * one)) by (nonlinear_arith)
        requires
            one > 0real,
            2real * (y - x) <= s,
    ;
}

/// A sum is off by at most half a step.
pub proof fn sums_are_near(x: Num, y: Num)
    requires
        x.add(y).is_finite(),
    ensures
        x.is_finite(),
        y.is_finite(),
        size(exact(x.add(y)) - (exact(x) + exact(y))) <= half_step(x.add(y)),
{
    crate::num::accuracy::finite_sums_have_finite_terms(x, y);
    crate::num::accuracy::sums_err_by_half_a_step(x, y);
    lemma_distance_in_units(
        x.add(y).value(),
        x.value() + y.value(),
        crate::num::accuracy::step(x.add(y)),
    );
    let one = Num::one_in_units() as real;
    lemma_one_real();
    let (a, b) = (x.value() as real, y.value() as real);
    assert((a + b) / one == a / one + b / one) by (nonlinear_arith)
        requires
            one > 0real,
    ;
}

/// A difference is off by at most half a step.
pub proof fn differences_are_near(x: Num, y: Num)
    requires
        x.sub(y).is_finite(),
    ensures
        x.is_finite(),
        y.is_finite(),
        size(exact(x.sub(y)) - (exact(x) - exact(y))) <= half_step(x.sub(y)),
{
    sums_are_near(x, y.neg());
    negations_are_exact(y);
}

pub proof fn negations_are_exact(x: Num)
    ensures
        exact(x.neg()) == -exact(x),
        x.neg().is_finite() == x.is_finite(),
        x.neg().neg() == x,
        half_step(x.neg()) == half_step(x),
{
    let one = Num::one_in_units() as real;
    lemma_one_real();
    assert(x.neg().value() == -x.value());
    let a = x.value() as real;
    assert((-a) / one == -(a / one)) by (nonlinear_arith)
        requires
            one > 0real,
    ;
}

pub proof fn absolute_values_are_exact(x: Num)
    ensures
        exact(x.abs()) == size(exact(x)),
        x.abs().is_finite() == x.is_finite(),
        half_step(x.abs()) == half_step(x),
{
    let one = Num::one_in_units() as real;
    lemma_one_real();
    assert(x.abs().value() == x.units());
    let a = x.value() as real;
    assert((-a) / one == -(a / one)) by (nonlinear_arith)
        requires
            one > 0real,
    ;
    lemma_sign(x);
}

/// The exact value has the sign of the value in units.
pub proof fn lemma_sign(x: Num)
    ensures
        exact(x) > 0real <==> x.value() > 0,
        exact(x) < 0real <==> x.value() < 0,
        half_step(x) > 0real,
{
    let one = Num::one_in_units() as real;
    lemma_one_real();
    let a = x.value() as real;
    if a > 0real {
        assert(a / one > 0real) by (nonlinear_arith)
            requires
                one > 0real,
                a > 0real,
        ;
    } else if a < 0real {
        assert(a / one < 0real) by (nonlinear_arith)
            requires
                one > 0real,
                a < 0real,
        ;
    } else {
        assert(a / one == 0real) by (nonlinear_arith)
            requires
                one > 0real,
                a == 0real,
        ;
    }
    lemma_pow2_pos(x.scale());
    let s = crate::num::accuracy::step(x) as real;
    assert(s / (2real * one) > 0real) by (nonlinear_arith)
        requires
            one > 0real,
            s > 0real,
    ;
}

/// Finite numbers compare as their exact values do.
pub proof fn exact_values_compare(x: Num, y: Num)
    requires
        x.is_finite(),
        y.is_finite(),
    ensures
        x.lt(y) <==> exact(x) < exact(y),
        x.le(y) <==> exact(x) <= exact(y),
        x.gt(y) <==> exact(x) > exact(y),
        x.ge(y) <==> exact(x) >= exact(y),
        x.num_eq(y) <==> exact(x) == exact(y),
{
    let one = Num::one_in_units() as real;
    lemma_one_real();
    crate::num::laws::order_agrees_with_value(x, y);
    crate::num::laws::order_agrees_with_value(y, x);
    let (a, b) = (x.value() as real, y.value() as real);
    if a < b {
        assert(a / one < b / one) by (nonlinear_arith)
            requires
                one > 0real,
                a < b,
        ;
    } else if a > b {
        assert(a / one > b / one) by (nonlinear_arith)
            requires
                one > 0real,
                a > b,
        ;
    }
}

/// A product is off by at most half a step.
pub proof fn products_are_near(x: Num, y: Num)
    requires
        x.mul(y).is_finite(),
    ensures
        x.is_finite(),
        y.is_finite(),
        size(exact(x.mul(y)) - exact(x) * exact(y)) <= half_step(x.mul(y)),
{
    assert(x.is_finite() && y.is_finite()) by {
        reveal(Num::spec_mul);
    }
    crate::num::accuracy::products_err_by_half_a_step(x, y);
    let one = Num::one_in_units() as real;
    lemma_one_real();
    let r = x.mul(y);
    let n = Num::one_in_units() as int;
    lemma_real_products(r.value(), n);
    lemma_real_products(x.value(), y.value());
    lemma_real_products(crate::num::accuracy::step(r) as int, n);
    let (v, a, b) = (r.value() as real, x.value() as real, y.value() as real);
    let s = crate::num::accuracy::step(r) as real;
    assert(2real * (v * one - a * b) <= s * one && 2real * (a * b - v * one) <= s * one);
    let (e, p, q) = (v / one, a / one, b / one);
    lemma_divided(v, one);
    lemma_divided(a, one);
    lemma_divided(b, one);
    let h = s / (2real * one);
    lemma_divided(s, 2real * one);
    assert(v == e * one && a == p * one && b == q * one && s == h * (2real * one));
    lemma_scaled_product(e, p, q, h, one);
}

pub proof fn lemma_divided(a: real, b: real)
    requires
        b != 0real,
    ensures
        (a / b) * b == a,
{
    assert((a / b) * b == a) by (nonlinear_arith)
        requires
            b != 0real,
    ;
}

proof fn lemma_scaled_product(e: real, p: real, q: real, h: real, one: real)
    requires
        one > 0real,
        2real * ((e * one) * one - (p * one) * (q * one)) <= (h * (2real * one)) * one,
        2real * ((p * one) * (q * one) - (e * one) * one) <= (h * (2real * one)) * one,
    ensures
        size(e - p * q) <= h,
{
    let square = one * one;
    assert(square > 0real) by (nonlinear_arith)
        requires
            one > 0real,
            square == one * one,
    ;
    assert((e * one) * one == e * square) by (nonlinear_arith)
        requires
            square == one * one,
    ;
    assert((p * one) * (q * one) == (p * q) * square) by (nonlinear_arith)
        requires
            square == one * one,
    ;
    assert((h * (2real * one)) * one == 2real * (h * square)) by (nonlinear_arith)
        requires
            square == one * one,
    ;
    let m = p * q;
    assert(e - m <= h) by (nonlinear_arith)
        requires
            square > 0real,
            e * square - m * square <= h * square,
    ;
    assert(m - e <= h) by (nonlinear_arith)
        requires
            square > 0real,
            m * square - e * square <= h * square,
    ;
}

/// A quotient is off by at most half a step.
pub proof fn quotients_are_near(x: Num, y: Num)
    requires
        x.is_finite(),
        y.is_finite(),
        exact(y) != 0real,
        x.div(y).is_finite(),
    ensures
        size(exact(x.div(y)) - exact(x) / exact(y)) <= half_step(x.div(y)),
{
    let one = Num::one_in_units() as real;
    lemma_one_real();
    lemma_sign(y);
    if y.magnitude() == 0 {
        crate::num::lemma_zero_significand(y);
    }
    crate::num::accuracy::quotients_err_by_half_a_step(x, y);
    let r = x.div(y);
    let n = Num::one_in_units() as int;
    lemma_real_products(r.value(), y.value());
    lemma_real_products(x.value(), n);
    lemma_real_products(crate::num::accuracy::step(r) as int, y.units() as int);
    let (v, a, b) = (r.value() as real, x.value() as real, y.value() as real);
    let (s, u) = (crate::num::accuracy::step(r) as real, y.units() as real);
    assert(2real * (v * b - a * one) <= s * u && 2real * (a * one - v * b) <= s * u);
    let (e, p, q, h) = (v / one, a / one, b / one, s / (2real * one));
    lemma_divided(v, one);
    lemma_divided(a, one);
    lemma_divided(b, one);
    lemma_divided(s, 2real * one);
    let w = size(q);
    assert(u == w * one) by {
        assert((-q) * one == -(q * one)) by (nonlinear_arith);
        lemma_sign(y);
    }
    let square = one * one;
    assert(square > 0real) by (nonlinear_arith)
        requires
            one > 0real,
            square == one * one,
    ;
    assert(v * b == (e * q) * square) by (nonlinear_arith)
        requires
            v == e * one,
            b == q * one,
            square == one * one,
    ;
    assert(a * one == p * square) by (nonlinear_arith)
        requires
            a == p * one,
            square == one * one,
    ;
    assert(s * u == 2real * ((h * w) * square)) by (nonlinear_arith)
        requires
            s == h * (2real * one),
            u == w * one,
            square == one * one,
    ;
    let (eq, hw) = (e * q, h * w);
    assert(eq - p <= hw) by (nonlinear_arith)
        requires
            square > 0real,
            eq * square - p * square <= hw * square,
    ;
    assert(p - eq <= hw) by (nonlinear_arith)
        requires
            square > 0real,
            p * square - eq * square <= hw * square,
    ;
    let z = p / q;
    lemma_divided(p, q);
    let d = e - z;
    assert(d * q == eq - p) by (nonlinear_arith)
        requires
            d == e - z,
            z * q == p,
            eq == e * q,
    ;
    if q > 0real {
        assert(d <= h && -d <= h) by (nonlinear_arith)
            requires
                q > 0real,
                d * q <= h * q,
                -(d * q) <= h * q,
        ;
    } else {
        assert(d <= h && -d <= h) by (nonlinear_arith)
            requires
                q < 0real,
                d * q <= h * (-q),
                -(d * q) <= h * (-q),
        ;
    }
}

/// The square of a root is off by at most what a step of the root makes up.
pub proof fn roots_are_near(x: Num)
    requires
        x.sqrt().is_finite(),
    ensures
        x.is_finite(),
        exact(x) >= 0real,
        exact(x.sqrt()) >= 0real,
        ({
            let (r, t) = (exact(x.sqrt()), 2real * half_step(x.sqrt()));
            size(r * r - exact(x)) <= t * (2real * r + t)
        }),
{
    let one = Num::one_in_units() as real;
    lemma_one_real();
    let r = x.sqrt();
    lemma_sign(x);
    lemma_sign(r);
    crate::num::square_root::lemma_root_in_units(x);
    let n = Num::one_in_units() as int;
    let (u, s) = (r.units() as int, crate::num::accuracy::step(r) as int);
    let v = x.units() * n;
    lemma_real_products(x.units() as int, n);
    lemma_real_products(u, u);
    lemma_real_products(s, 2 * u + s);
    assert(r.value() == u);
    let (a, b, c) = (u as real, s as real, x.units() as real);
    assert(a * a - c * one <= b * (2real * a + b));
    assert(c * one - a * a <= b * (2real * a + b));
    let (e, t, f) = (a / one, b / one, c / one);
    lemma_divided(a, one);
    lemma_divided(b, one);
    lemma_divided(c, one);
    assert(t == 2real * half_step(r)) by (nonlinear_arith)
        requires
            one > 0real,
            t == b / one,
            half_step(r) == b / (2real * one),
    ;
    let square = one * one;
    assert(square > 0real) by (nonlinear_arith)
        requires
            one > 0real,
            square == one * one,
    ;
    assert(a * a == (e * e) * square) by (nonlinear_arith)
        requires
            a == e * one,
            square == one * one,
    ;
    assert(c * one == f * square) by (nonlinear_arith)
        requires
            c == f * one,
            square == one * one,
    ;
    let w = t * (2real * e + t);
    assert(b * (2real * a + b) == w * square) by (nonlinear_arith)
        requires
            a == e * one,
            b == t * one,
            w == t * (2real * e + t),
            square == one * one,
    ;
    let ee = e * e;
    assert(ee - f <= w) by (nonlinear_arith)
        requires
            square > 0real,
            ee * square - f * square <= w * square,
    ;
    assert(f - ee <= w) by (nonlinear_arith)
        requires
            square > 0real,
            f * square - ee * square <= w * square,
    ;
}

/// Estimates of the terms make one of their sum.
pub proof fn estimated_sums(a: Estimate, x: Num, b: Estimate, y: Num)
    requires
        a.covers(x),
        b.covers(y),
        x.add(y).is_finite(),
    ensures
        a.plus(b, x.add(y)).covers(x.add(y)),
{
    sums_are_near(x, y);
}

/// Estimates of the terms make one of their difference.
pub proof fn estimated_differences(a: Estimate, x: Num, b: Estimate, y: Num)
    requires
        a.covers(x),
        b.covers(y),
        x.sub(y).is_finite(),
    ensures
        a.minus(b, x.sub(y)).covers(x.sub(y)),
{
    differences_are_near(x, y);
}

/// Estimates of the factors make one of their product.
pub proof fn estimated_products(a: Estimate, x: Num, b: Estimate, y: Num)
    requires
        a.covers(x),
        b.covers(y),
        x.mul(y).is_finite(),
    ensures
        a.times(b, x.mul(y)).covers(x.mul(y)),
{
    products_are_near(x, y);
    let (v, w) = (a.value, b.value);
    let (d, e) = (exact(x) - v, exact(y) - w);
    assert((v + d) * (w + e) == v * w + v * e + w * d + d * e) by (nonlinear_arith);
    lemma_product_bound(v, e, b.error);
    lemma_product_bound(w, d, a.error);
    lemma_two_bounds(d, e, a.error, b.error);
}

pub proof fn lemma_product_bound(v: real, e: real, bound: real)
    requires
        size(e) <= bound,
    ensures
        size(v * e) <= size(v) * bound,
{
    let (m, s) = (size(v), size(e));
    assert(m >= 0real && bound >= s >= 0real);
    assert(m * s <= m * bound) by (nonlinear_arith)
        requires
            m >= 0real,
            s <= bound,
    ;
    lemma_size_of_product(v, e);
}

pub proof fn lemma_size_of_product(v: real, e: real)
    ensures
        size(v * e) == size(v) * size(e),
        size(v) >= 0real,
{
    assert((-v) * e == -(v * e)) by (nonlinear_arith);
    assert(v * (-e) == -(v * e)) by (nonlinear_arith);
    assert((-v) * (-e) == v * e) by (nonlinear_arith);
    let (m, s) = (size(v), size(e));
    assert(m * s >= 0real) by (nonlinear_arith)
        requires
            m >= 0real,
            s >= 0real,
    ;
}

pub proof fn lemma_two_bounds(d: real, e: real, a: real, b: real)
    requires
        size(d) <= a,
        size(e) <= b,
    ensures
        size(d * e) <= a * b,
{
    lemma_size_of_product(d, e);
    let (m, s) = (size(d), size(e));
    assert(m * s <= a * b) by (nonlinear_arith)
        requires
            0real <= m <= a,
            0real <= s <= b,
    ;
}

/// An estimate of the dividend makes one of the quotient.
pub proof fn estimated_quotients(a: Estimate, x: Num, y: Num)
    requires
        a.covers(x),
        y.is_finite(),
        exact(y) != 0real,
        x.div(y).is_finite(),
    ensures
        a.over(y, x.div(y)).covers(x.div(y)),
{
    quotients_are_near(x, y);
    let (v, w) = (a.value, exact(y));
    let d = exact(x) - v;
    assert((v + d) / w == v / w + d / w) by (nonlinear_arith)
        requires
            w != 0real,
    ;
    lemma_size_of_quotient(d, w);
    let (m, s) = (size(d), size(w));
    assert(m / s <= a.error / s) by (nonlinear_arith)
        requires
            m <= a.error,
            s > 0real,
    ;
}

pub proof fn lemma_size_of_quotient(d: real, w: real)
    requires
        w != 0real,
    ensures
        size(d / w) == size(d) / size(w),
        size(w) > 0real,
{
    let q = d / w;
    lemma_divided(d, w);
    lemma_size_of_product(q, w);
    let (m, s) = (size(q), size(w));
    assert((m * s) / s == m) by (nonlinear_arith)
        requires
            s > 0real,
    ;
}

/// An estimate of a number makes one of its opposite.
pub proof fn estimated_negations(a: Estimate, x: Num)
    requires
        a.covers(x),
    ensures
        a.negated().covers(x.neg()),
{
    negations_are_exact(x);
}

/// Numbers nearer to zero have no greater steps.
pub proof fn smaller_numbers_have_smaller_steps(x: Num, y: Num)
    requires
        x.is_finite(),
        y.is_finite(),
        size(exact(x)) <= size(exact(y)),
    ensures
        half_step(x) <= half_step(y),
{
    absolute_values_are_exact(x);
    absolute_values_are_exact(y);
    exact_values_compare(x.abs(), y.abs());
    assert(x.magnitude() <= y.magnitude());
    assert(x.magnitude() / crate::num::rounding::BINADE <= y.magnitude()
        / crate::num::rounding::BINADE);
    assert(x.scale() <= y.scale());
    if x.scale() < y.scale() {
        lemma_pow2_strictly_increases(x.scale(), y.scale());
    }
    let one = Num::one_in_units() as real;
    lemma_one_real();
    let (s, t) = (crate::num::accuracy::step(x) as real, crate::num::accuracy::step(y) as real);
    assert(s / (2real * one) <= t / (2real * one)) by (nonlinear_arith)
        requires
            one > 0real,
            s <= t,
    ;
}

/// Both zeros are zero, and one is one.
pub proof fn exact_constants()
    ensures
        exact(Num::zero()) == 0real,
        exact(Num::one()) == 1real,
        exact(Num::two()) == 2real,
        exact(Num::four()) == 4real,
        2real * exact(Num::half()) == 1real,
        Num::zero().is_finite(),
        Num::one().is_finite(),
        Num::two().is_finite(),
        Num::four().is_finite(),
        Num::half().is_finite(),
{
    let one = Num::one_in_units() as real;
    lemma_one_real();
    crate::num::lemma_zero_significand(Num::zero());
    assert(0real / one == 0real) by (nonlinear_arith)
        requires
            one > 0real,
    ;
    lemma2_to64_rest();
    let unit = Num::one();
    assert(unit.magnitude() == 0x3ff0_0000_0000_0000u64);
    assert(unit.scale() == 1022);
    assert(unit.significand() == pow2(52));
    lemma_pow2_adds(52, 1022);
    assert(unit.value() == Num::one_in_units());
    let two = Num::two();
    assert(two.magnitude() == 0x4000_0000_0000_0000u64);
    assert(two.scale() == 1023);
    assert(two.significand() == pow2(52));
    lemma_pow2_adds(52, 1023);
    lemma_pow2_unfold(1075);
    let four = Num::four();
    assert(four.magnitude() == 0x4010_0000_0000_0000u64);
    assert(four.scale() == 1024);
    assert(four.significand() == pow2(52));
    lemma_pow2_adds(52, 1024);
    lemma_pow2_unfold(1076);
    let half = Num::half();
    assert(half.magnitude() == 0x3fe0_0000_0000_0000u64);
    assert(half.scale() == 1021);
    assert(half.significand() == pow2(52));
    lemma_pow2_adds(52, 1021);
    lemma_pow2_unfold(1074);
    let h = half.value() as real;
    assert(2real * h == one);
    assert(one / one == 1real && (2real * one) / one == 2real && (4real * one) / one == 4real)
        by (nonlinear_arith)
        requires
            one > 0real,
    ;
    assert(2real * (h / one) == 1real) by (nonlinear_arith)
        requires
            one > 0real,
            2real * h == one,
    ;
}

/// A half and a quarter of half a turn, and of a full one.
pub proof fn lemma_quarter_turns()
    ensures
        16real * exact(Num::frac_pi_2().div(Num::four())) == exact(Num::tau()),
        4real * exact(Num::frac_pi_2()) == exact(Num::tau()),
        2real * exact(Num::pi()) == exact(Num::tau()),
        8real * exact(Num::pi().div(Num::four())) == exact(Num::tau()),
        Num::tau().is_finite(),
        Num::pi().is_finite(),
        Num::frac_pi_2().is_finite(),
        Num::pi().div(Num::four()).is_finite(),
        Num::frac_pi_2().div(Num::four()).is_finite(),
{
    let one = Num::one_in_units() as real;
    lemma_one_real();
    let (q, p, t) = (Num::frac_pi_2(), Num::pi(), Num::tau());
    let e = Num { bits: (q.bits - 2 * crate::num::rounding::BINADE) as u64 };
    lemma_same_significand(e, q);
    assert(p.bits == q.bits + crate::num::rounding::BINADE);
    assert(t.bits == q.bits + 2 * crate::num::rounding::BINADE);
    lemma2_to64();
    let s = e.scale();
    assert(q.scale() == s + 2 && p.scale() == s + 3 && t.scale() == s + 4);
    let m = e.significand();
    assert(q.significand() == m && p.significand() == m && t.significand() == m);
    lemma_pow2_unfold(s + 1);
    lemma_pow2_unfold(s + 2);
    lemma_pow2_unfold(s + 3);
    lemma_pow2_unfold(s + 4);
    let b = pow2(s);
    assert(m * (4 * b) == 4 * (m * b) && m * (8 * b) == 8 * (m * b) && m * (16 * b) == 16 * (m
        * b)) by (nonlinear_arith);
    assert(q.units() == 4 * e.units());
    assert(p.units() == 8 * e.units());
    assert(t.units() == 16 * e.units());
    exact_constants();
    assert(Num::four().units() == 4 * Num::one_in_units()) by {
        lemma2_to64_rest();
        let four = Num::four();
        assert(four.magnitude() == 0x4010_0000_0000_0000u64);
        assert(four.scale() == 1024);
        assert(four.significand() == pow2(52));
        lemma_pow2_adds(52, 1024);
        lemma_pow2_unfold(1076);
        lemma_pow2_unfold(1075);
    }
    assert(q.div(Num::four()) == e) by {
        reveal(Num::spec_div);
        lemma_pow2_pos(1074);
        let n = Num::one_in_units();
        crate::num::laws::exact_results_are_kept(e, 4 * n);
        let u = e.units();
        assert((4 * u) * n == u * (4 * n)) by (nonlinear_arith);
    }
    let f = Num { bits: (p.bits - 2 * crate::num::rounding::BINADE) as u64 };
    assert(f.scale() == s + 1 && f.significand() == m);
    assert(m * (2 * b) == 2 * (m * b)) by (nonlinear_arith);
    assert(f.units() == 2 * e.units());
    assert(p.div(Num::four()) == f) by {
        reveal(Num::spec_div);
        lemma_pow2_pos(1074);
        let n = Num::one_in_units();
        crate::num::laws::exact_results_are_kept(f, 4 * n);
        let u = f.units();
        assert((4 * u) * n == u * (4 * n)) by (nonlinear_arith);
    }
    let v = e.value() as real;
    assert(8real * ((2real * v) / one) == (16real * v) / one) by (nonlinear_arith)
        requires
            one > 0real,
    ;
    assert(4real * ((4real * v) / one) == (16real * v) / one) by (nonlinear_arith)
        requires
            one > 0real,
    ;
    assert(16real * (v / one) == (16real * v) / one) by (nonlinear_arith)
        requires
            one > 0real,
    ;
    assert(2real * ((8real * v) / one) == (16real * v) / one) by (nonlinear_arith)
        requires
            one > 0real,
    ;
}

proof fn lemma_same_significand(e: Num, q: Num)
    requires
        q == Num::frac_pi_2(),
        e.bits == q.bits - 2 * crate::num::rounding::BINADE,
    ensures
        e.significand() == q.significand(),
        q.scale() == e.scale() + 2,
{
}

/// Estimates of the dividend and the divisor make one of the quotient.
pub proof fn estimated_ratios(a: Estimate, x: Num, b: Estimate, y: Num)
    requires
        a.covers(x),
        b.covers(y),
        b.value != 0real,
        exact(y) != 0real,
        x.div(y).is_finite(),
    ensures
        a.divided_by(b, y, x.div(y)).covers(x.div(y)),
{
    quotients_are_near(x, y);
    let (v, w) = (a.value, b.value);
    let (p, q) = (exact(x), exact(y));
    let z = v / w;
    let d = p / q - z;
    lemma_divided(v, w);
    lemma_divided(p, q);
    let n = (p - v) + z * (w - q);
    assert(d * q == n) by (nonlinear_arith)
        requires
            d == p / q - z,
            (p / q) * q == p,
            z * w == v,
            n == (p - v) + z * (w - q),
    ;
    lemma_product_bound(z, w - q, b.error);
    assert(size(n) <= a.error + size(z) * b.error);
    lemma_size_of_product(d, q);
    let (m, s, e) = (size(d), size(q), a.error + size(z) * b.error);
    assert(s > 0real);
    assert(m <= e / s) by (nonlinear_arith)
        requires
            m * s <= e,
            s > 0real,
    ;
}

/// A sum with a number that is not negative is not less than the other term.
pub proof fn sums_do_not_fall_below(x: Num, y: Num)
    requires
        x.is_finite(),
        y.is_finite(),
        exact(y) >= 0real,
    ensures
        x.le(x.add(y)),
{
    lemma_sign(y);
    reveal(Num::spec_add);
    let sum = x.value() + y.value();
    let r = x.add(y);
    if sum != 0 {
        let num = (if sum < 0 {
            -sum
        } else {
            sum
        }) as nat;
        crate::num::laws::rounded_numbers_are_numbers(num, 1);
        let m = Num { bits: crate::num::rounding::rounded_magnitude(num, 1) };
        if m.is_finite() {
            crate::num::laws::rounding_is_to_nearest(num, 1, x);
            assert(m.units() * 1 == m.units());
            assert(x.units() * 1 == x.units());
            assert(r.units() == m.units());
            crate::num::laws::order_agrees_with_value(x, r);
        } else {
            if sum < 0 {
                crate::num::laws::rounding_is_monotone_up_to(num, x);
            }
        }
    } else {
        crate::num::lemma_zero_significand(r);
        crate::num::laws::order_agrees_with_value(x, r);
    }
}

/// Numbers with the same exact value are the same, unless they are zero.
pub proof fn exact_values_tell_numbers_apart(x: Num, y: Num)
    requires
        x.is_finite(),
        y.is_finite(),
        exact(x) == exact(y),
        exact(x) != 0real,
    ensures
        x == y,
{
    exact_values_compare(x, y);
    lemma_sign(x);
    if x.magnitude() == 0 {
        crate::num::lemma_zero_significand(x);
    }
}

/// A value that is twice another one in units is twice the other one.
pub proof fn lemma_doubled(x: Num, y: Num)
    requires
        2 * x.value() == y.value(),
    ensures
        2real * exact(x) == exact(y),
{
    let one = Num::one_in_units() as real;
    lemma_one_real();
    let a = x.value() as real;
    assert(2real * (a / one) == (2real * a) / one) by (nonlinear_arith)
        requires
            one > 0real,
    ;
}

/// A value that is the sum of two others in units is the sum of the others.
pub proof fn lemma_exact_sum(x: Num, y: Num, r: Num)
    requires
        r.value() == x.value() + y.value(),
    ensures
        exact(r) == exact(x) + exact(y),
{
    let one = Num::one_in_units() as real;
    lemma_one_real();
    let (a, b) = (x.value() as real, y.value() as real);
    assert((a + b) / one == a / one + b / one) by (nonlinear_arith)
        requires
            one > 0real,
    ;
}

pub proof fn lemma_three_in_units()
    ensures
        Num::three().is_finite(),
        Num::three().value() == Num::one().value() + Num::two().value(),
{
    lemma2_to64_rest();
    let unit = Num::one();
    assert(unit.magnitude() == 0x3ff0_0000_0000_0000u64);
    assert(unit.scale() == 1022);
    assert(unit.significand() == pow2(52));
    let two = Num::two();
    assert(two.magnitude() == 0x4000_0000_0000_0000u64);
    assert(two.scale() == 1023);
    assert(two.significand() == pow2(52));
    let three = Num::three();
    assert(three.magnitude() == 0x4008_0000_0000_0000u64);
    assert(three.scale() == 1023);
    assert(2 * three.significand() == 3 * pow2(52));
    lemma_pow2_unfold(1023);
    let (h, p, m) = (pow2(52) as int, pow2(1022) as int, three.significand() as int);
    assert(m * (2 * p) == h * p + h * (2 * p)) by (nonlinear_arith)
        requires
            2 * m == 3 * h,
    ;
}

/// A finite quotient by a finite number has a finite dividend.
pub proof fn finite_quotients_have_finite_dividends(x: Num, y: Num)
    requires
        x.div(y).is_finite(),
        y.is_finite(),
    ensures
        x.is_finite(),
{
    reveal(Num::spec_div);
}

/// A remainder is what is left of the dividend after whole multiples of the divisor, up to half a
/// step; it has the sign of the dividend.
pub proof fn remainders_are_near(x: Num, y: Num) -> (k: int)
    requires
        x.is_finite(),
        y.is_finite(),
        exact(y) > 0real,
    ensures
        x.rem(y).is_finite(),
        size(exact(x.rem(y)) - (exact(x) - k as real * exact(y))) <= half_step(x.rem(y)),
        size(exact(x) - k as real * exact(y)) < exact(y),
{
    reveal(Num::spec_rem);
    lemma_sign(y);
    let (u, v) = (x.units(), y.units());
    crate::num::lemma_zero_significand(y);
    vstd::arithmetic::div_mod::lemma_fundamental_div_mod(u as int, v as int);
    let m = u % v;
    let q = u as int / v as int;
    let r = x.rem(y);
    crate::num::laws::rounding_is_monotone_up_to(m, y);
    crate::num::laws::rounded_numbers_are_numbers(m, 1);
    crate::num::accuracy::rounding_errs_by_half_a_step(m, 1);
    let n = Num { bits: crate::num::rounding::rounded_magnitude(m, 1) };
    assert(r.magnitude() == n.magnitude());
    assert(n.units() * 1 == n.units());
    assert(crate::num::accuracy::step(n) * 1 == crate::num::accuracy::step(n));
    assert(n.units() == r.units());
    let k = if x.is_negative() {
        -q
    } else {
        q
    };
    let rest = if x.is_negative() {
        -(m as int)
    } else {
        m as int
    };
    assert(v as int * q == q * v as int) by (nonlinear_arith);
    assert((-q) * v as int == -(q * v as int)) by (nonlinear_arith);
    assert(rest == x.value() - k * y.value());
    lemma_distance_in_units(r.value(), rest, crate::num::accuracy::step(r));
    let one = Num::one_in_units() as real;
    lemma_one_real();
    lemma_real_products(k, y.value());
    let (a, b, c) = (x.value() as real, y.value() as real, k as real);
    let d = c * b;
    assert((a - d) / one == a / one - d / one) by (nonlinear_arith)
        requires
            one > 0real,
    ;
    assert((c * b) / one == c * (b / one)) by (nonlinear_arith)
        requires
            one > 0real,
    ;
    let e = rest as real;
    assert(e == a - d);
    assert(e < b && -e < b);
    assert(e / one < b / one) by (nonlinear_arith)
        requires
            e < b,
            one > 0real,
    ;
    let f = -e;
    assert(f / one < b / one) by (nonlinear_arith)
        requires
            f < b,
            one > 0real,
    ;
    assert((-e) / one == -(e / one)) by (nonlinear_arith)
        requires
            one > 0real,
    ;
    k
}

/// The number made of a count is the count, up to half a step.
pub proof fn counts_are_near(n: usize)
    requires
        Num::from_usize(n).is_finite(),
    ensures
        size(exact(Num::from_usize(n)) - n as int as real) <= half_step(Num::from_usize(n)),
        exact(Num::from_usize(n)) >= 0real,
{
    let one = Num::one_in_units();
    lemma_one_real();
    let num = n as nat * one;
    crate::num::laws::rounded_numbers_are_numbers(num, 1);
    let m = Num { bits: crate::num::rounding::rounded_magnitude(num, 1) };
    let r = Num::from_usize(n);
    assert(r.magnitude() == m.magnitude());
    crate::num::accuracy::rounding_errs_by_half_a_step(num, 1);
    assert(m.units() * 1 == m.units());
    assert(crate::num::accuracy::step(m) * 1 == crate::num::accuracy::step(m));
    assert(m.units() == r.units());
    lemma_distance_in_units(r.value(), num as int, crate::num::accuracy::step(r));
    lemma_real_products(n as int, one as int);
    let (a, b) = (n as int as real, one as real);
    assert((a * b) / b == a) by (nonlinear_arith)
        requires
            b > 0real,
    ;
    lemma_sign(r);
}

/// What a number is rounded up to is no less than it, and less than one more.
pub proof fn rounding_up_adds_less_than_one(x: Num)
    requires
        x.is_finite(),
        exact(x) >= 0real,
        !x.is_negative(),
        x.ceil_to_usize() < usize::MAX,
    ensures
        exact(x) <= x.ceil_to_usize() as int as real,
        (x.ceil_to_usize() as int as real) < exact(x) + 1real,
{
    reveal(Num::spec_ceil_to_usize);
    let one = Num::one_in_units() as int;
    lemma_one_real();
    let u = x.units() as int;
    let c = (u + one - 1) / one;
    vstd::arithmetic::div_mod::lemma_fundamental_div_mod(u + one - 1, one);
    vstd::arithmetic::div_mod::lemma_mod_bound(u + one - 1, one);
    let d = c * one;
    assert(one * c == c * one) by (nonlinear_arith);
    assert(u <= d < u + one);
    lemma_real_products(c, one);
    let (a, b, e) = (u as real, one as real, c as real);
    assert(a <= e * b && e * b < a + b);
    assert(a / b <= e) by (nonlinear_arith)
        requires
            a <= e * b,
            b > 0real,
    ;
    assert(e < a / b + 1real) by (nonlinear_arith)
        requires
            e * b < a + b,
            b > 0real,
    ;
}

} // verus!
