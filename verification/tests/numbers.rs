use float_cmp::{ApproxEq, F64Margin};
use nesting_geometry::num::Num;

fn n(x: f64) -> Num {
    Num::from_bits(x.to_bits())
}

fn v(x: Num) -> f64 {
    f64::from_bits(x.to_bits())
}

/// The same bit pattern, or both no number.
fn same(actual: Num, expected: f64) -> bool {
    actual.to_bits() == expected.to_bits() || (v(actual).is_nan() && expected.is_nan())
}

/// Numbers of all sizes: special ones, and pseudo-random bit patterns.
fn samples() -> Vec<f64> {
    let mut xs = vec![
        0.0,
        -0.0,
        1.0,
        -1.0,
        0.5,
        3.0,
        1.0 / 3.0,
        f64::MIN_POSITIVE,
        f64::from_bits(1),
        -f64::from_bits(3),
        f64::from_bits(0x000f_ffff_ffff_ffff),
        f64::MAX,
        -f64::MAX,
        f64::INFINITY,
        f64::NEG_INFINITY,
        f64::NAN,
        f64::EPSILON,
        1.0 + f64::EPSILON,
        9007199254740991.0,
        9007199254740992.0,
        1.0e-300,
        1.0e300,
        std::f64::consts::PI,
    ];
    let mut state: u64 = 0x9e37_79b9_7f4a_7c15;
    for i in 0..120 {
        state = state
            .wrapping_mul(6364136223846793005)
            .wrapping_add(1442695040888963407);
        xs.push(f64::from_bits(state));
        // And one of moderate size.
        let mantissa = (state >> 11) as f64 / (1u64 << 53) as f64;
        xs.push((mantissa - 0.5) * 2.0_f64.powi(i % 40 - 20));
    }
    xs
}

#[test]
fn arithmetic_agrees_with_the_machine() {
    let xs = samples();
    for &x in &xs {
        for &y in &xs {
            let (a, b) = (n(x), n(y));
            assert!(same(a.add(b), x + y), "{x:e} + {y:e}");
            assert!(same(a.sub(b), x - y), "{x:e} - {y:e}");
            assert!(same(a.mul(b), x * y), "{x:e} * {y:e}");
            assert!(same(a.div(b), x / y), "{x:e} / {y:e}");
        }
    }
}

#[test]
fn remainders_agree_with_the_machine() {
    let xs = samples();
    for &x in &xs {
        for &y in &[1.0, std::f64::consts::TAU, 0.1, 3.0, 1.0e-3, -2.5, 0.0, f64::INFINITY] {
            assert!(same(n(x).rem(n(y)), x % y), "{x:e} % {y:e}");
        }
    }
}

#[test]
fn comparisons_agree_with_the_machine() {
    let xs = samples();
    for &x in &xs {
        for &y in &xs {
            let (a, b) = (n(x), n(y));
            assert_eq!(a.lt(b), x < y);
            assert_eq!(a.le(b), x <= y);
            assert_eq!(a.gt(b), x > y);
            assert_eq!(a.ge(b), x >= y);
            assert_eq!(a.num_eq(b), x == y);
            assert!(v(a.min(b)) == x.min(y) || x.min(y).is_nan());
            assert!(v(a.max(b)) == x.max(y) || x.max(y).is_nan());
        }
    }
}

#[test]
fn roots_signs_and_conversions_agree_with_the_machine() {
    for &x in &samples() {
        assert!(same(n(x).sqrt(), x.sqrt()), "sqrt {x:e}");
        assert!(same(n(x).neg(), -x));
        assert!(same(n(x).abs(), x.abs()));
        assert_eq!(n(x).is_finite(), x.is_finite());
        assert_eq!(n(x).is_nan(), x.is_nan());
        assert_eq!(n(x).ceil_to_usize(), x.ceil() as usize, "ceil {x:e}");
    }
    for k in [0usize, 1, 2, 180, 1 << 20, (1 << 53) - 1, (1 << 53) + 1, usize::MAX] {
        assert!(same(Num::from_usize(k), k as f64));
    }
}

#[test]
fn constants_are_those_of_the_machine() {
    assert_eq!(v(Num::pi()), std::f64::consts::PI);
    assert_eq!(v(Num::tau()), std::f64::consts::TAU);
    assert_eq!(v(Num::frac_pi_2()), std::f64::consts::FRAC_PI_2);
    assert_eq!(v(Num::max_value()), f64::MAX);
    assert_eq!(v(Num::infinity()), f64::INFINITY);
    assert_eq!(v(Num::epsilon()), f64::EPSILON);
    assert_eq!(v(Num::almost_one()), 0.9999);
    assert_eq!(v(Num::e_minus_4()), 1.0e-4);
    assert_eq!(v(Num::e_minus_5()), 1.0e-5);
    assert_eq!(v(Num::e_minus_6()), 1.0e-6);
    assert_eq!(
        [
            v(Num::zero()),
            v(Num::half()),
            v(Num::one()),
            v(Num::two()),
            v(Num::three()),
            v(Num::four()),
            v(Num::six())
        ],
        [0.0, 0.5, 1.0, 2.0, 3.0, 4.0, 6.0]
    );
}

#[test]
fn nearness_agrees_with_float_comparison_by_margin() {
    let xs = samples();
    for &x in &xs {
        for &y in &[x, x + 1.0e-4, x - 1.0e-4, x + 5.0e-5, x * (1.0 + 4.0e-16), 0.0] {
            let margin = F64Margin {
                epsilon: 1.0e-4,
                ulps: 0,
            };
            assert_eq!(
                n(x).approx_eq(n(y), Num::e_minus_4(), 0),
                x.approx_eq(y, margin),
                "{x:e} {y:e}"
            );
            let standard = F64Margin {
                epsilon: f64::EPSILON,
                ulps: 4,
            };
            assert_eq!(
                n(x).clearly_gt(n(y)),
                !x.approx_eq(y, standard) && x > y,
                "{x:e} {y:e}"
            );
        }
    }
}

#[test]
fn sort_keys_order_numbers_with_nan_last() {
    let mut xs = samples();
    xs.sort_by_key(|x| n(*x).to_sort_key());
    for pair in xs.windows(2) {
        assert!(pair[0] <= pair[1] || pair[1].is_nan());
    }
}

#[test]
fn halves_and_units() {
    // Halving is exact, and what is left is the other half.
    for x in [1.0, 0.1, 5.0e-324 * 2.0, 1.0e300, -7.25] {
        let half = n(x).div(Num::two());
        assert_eq!(v(half) * 2.0, x);
        assert_eq!(v(n(x).sub(half)), v(half));
    }
    // The least positive number has no half.
    let least = f64::from_bits(1);
    assert_eq!(v(n(least).div(Num::two())), 0.0);
    assert_eq!(v(n(least).sub(n(least).div(Num::two()))), least);
    assert_eq!(v(n(0.1).mul(Num::one())), 0.1);
}

#[test]
fn sums_are_off_by_half_a_step_at_most() {
    // All three are whole multiples of the last place of the least of them.
    let scaled = |x: f64| (x * 2.0f64.powi(56)) as i128;
    let sum = n(0.1).add(n(0.2));
    let off = (scaled(v(sum)) - scaled(0.1) - scaled(0.2)).abs();
    let step = 1i128 << (56 - 54);
    assert_ne!(off, 0);
    assert!(2 * off <= step);
    // The difference the other way round is the opposite one.
    assert_eq!(v(n(0.1).sub(n(0.7))), -v(n(0.7).sub(n(0.1))));
}
