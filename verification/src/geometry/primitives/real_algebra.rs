//! Facts of algebra on real numbers.
use vstd::prelude::*;

verus! {

pub proof fn lemma_line_and_circle(f: real, g: real, x: real, y: real, s: real, r: real)
    ensures
        2real * ((f + s * x) * x + (g + s * y) * y) == 2real * (x * x + y * y) * s + 2real * (f * x
            + g * y),
        (f + s * x) * (f + s * x) + (g + s * y) * (g + s * y) - r * r == (x * x + y * y) * s * s
            + 2real * (f * x + g * y) * s + (f * f + g * g - r * r),
{
    assert((f + s * x) * x == f * x + x * x * s) by (nonlinear_arith);
    assert((g + s * y) * y == g * y + y * y * s) by (nonlinear_arith);
    assert((x * x + y * y) * s == x * x * s + y * y * s) by (nonlinear_arith);
    assert(2real * (x * x + y * y) * s == 2real * ((x * x + y * y) * s)) by (nonlinear_arith);
    assert((f + s * x) * (f + s * x) == f * f + 2real * (f * x * s) + x * x * s * s)
        by (nonlinear_arith);
    assert((g + s * y) * (g + s * y) == g * g + 2real * (g * y * s) + y * y * s * s)
        by (nonlinear_arith);
    assert((x * x + y * y) * s * s == x * x * s * s + y * y * s * s) by (nonlinear_arith);
    assert(2real * (f * x + g * y) * s == 2real * (f * x * s) + 2real * (g * y * s))
        by (nonlinear_arith);
}

pub proof fn lemma_discriminant_of_root(a: real, b: real, k: real, s: real)
    requires
        a * s * s + b * s + k == 0real,
    ensures
        (2real * a * s + b) * (2real * a * s + b) == b * b - 4real * a * k,
{
    let q = a * s;
    assert((2real * q + b) * (2real * q + b) == 4real * (q * q) + 4real * (q * b) + b * b)
        by (nonlinear_arith);
    assert(2real * a * s == 2real * (a * s)) by (nonlinear_arith);
    assert(a * s * s == q * s);
    assert(a * (q * s) == (a * s) * q) by (nonlinear_arith);
    assert(a * (b * s) == (a * s) * b) by (nonlinear_arith);
    let (u, v) = (q * s, b * s);
    assert(a * (u + v + k) == a * u + a * v + a * k) by (nonlinear_arith);
    assert(a * 0real == 0real) by (nonlinear_arith);
    assert(4real * a * k == 4real * (a * k)) by (nonlinear_arith);
}

/// A number whose square is near that of a positive one is near it, or near its negative.
pub proof fn lemma_near_root(w: real, root: real, error: real)
    requires
        crate::num::estimate::size(w * w - root * root) <= error,
        root > 0real,
        w > 0real,
    ensures
        crate::num::estimate::size(w - root) <= error / root,
{
    let d = w - root;
    let m = crate::num::estimate::size(d);
    assert((w - root) * (w + root) == w * w - root * root) by (nonlinear_arith);
    crate::num::estimate::lemma_size_of_product(d, w + root);
    assert(m * (w + root) == m * w + m * root) by (nonlinear_arith);
    assert(m * w >= 0real) by (nonlinear_arith)
        requires
            m >= 0real,
            w > 0real,
    ;
    assert(m <= error / root) by (nonlinear_arith)
        requires
            m * root <= error,
            root > 0real,
    ;
}

/// What is true of two numbers is true of their quotients by a positive one.
pub proof fn lemma_near_quotient(w: real, root: real, b: real, a: real, error: real)
    requires
        crate::num::estimate::size(w - root) <= error,
        a > 0real,
    ensures
        crate::num::estimate::size((w - b) / a - (root - b) / a) <= error / a,
{
    let d = w - root;
    let (v, u) = (w - b, root - b);
    assert(v / a - u / a == (v - u) / a) by (nonlinear_arith)
        requires
            a > 0real,
    ;
    crate::num::estimate::lemma_size_of_quotient(d, a);
    let m = crate::num::estimate::size(d);
    assert(m / a <= error / a) by (nonlinear_arith)
        requires
            m <= error,
            a > 0real,
    ;
}

pub proof fn lemma_undone(q: real, s: real)
    requires
        q > 0real,
    ensures
        (q * s) / q == s,
{
    assert((q * s) / q == s) by (nonlinear_arith)
        requires
            q > 0real,
    ;
}

/// A square is positive, but for that of zero.
pub proof fn lemma_square(x: real)
    ensures
        x * x >= 0real,
        x != 0real ==> x * x > 0real,
{
    if x > 0real {
        assert(x * x > 0real) by (nonlinear_arith)
            requires
                x > 0real,
        ;
    } else if x < 0real {
        let y = -x;
        assert(y * y > 0real) by (nonlinear_arith)
            requires
                y > 0real,
        ;
        assert((-x) * (-x) == x * x) by (nonlinear_arith);
    } else {
        assert(x * x == 0real) by (nonlinear_arith)
            requires
                x == 0real,
        ;
    }
}

pub proof fn lemma_square_sum(x: real, y: real)
    ensures
        x * x + y * y >= 0real,
{
    lemma_square(x);
    lemma_square(y);
}

pub proof fn lemma_no_way(x: real, y: real)
    requires
        x * x + y * y == 0real,
    ensures
        x == 0real,
        y == 0real,
{
    lemma_square(x);
    lemma_square(y);
}

pub proof fn lemma_commuted(x: real, y: real)
    ensures
        x * y == y * x,
{
    assert(x * y == y * x) by (nonlinear_arith);
}

pub proof fn lemma_scaled_order(a: real, x: real, y: real)
    requires
        a > 0real,
        x < y,
    ensures
        a * x < a * y,
{
    let d = y - x;
    assert(a * d > 0real) by (nonlinear_arith)
        requires
            a > 0real,
            d > 0real,
    ;
    assert(a * (y - x) == a * y - a * x) by (nonlinear_arith);
}

/// Two numbers with the same square, the smaller of which is the negative one.
pub proof fn lemma_opposite_roots(v: real, w: real)
    requires
        v * v == w * w,
        v < w,
    ensures
        v < 0real,
        w > 0real,
{
    let (d, t) = (w - v, w + v);
    assert((w - v) * (w + v) == w * w - v * v) by (nonlinear_arith);
    if t > 0real {
        assert(d * t > 0real) by (nonlinear_arith)
            requires
                d > 0real,
                t > 0real,
        ;
    } else if t < 0real {
        let m = -t;
        assert(d * m > 0real) by (nonlinear_arith)
            requires
                d > 0real,
                m > 0real,
        ;
        assert(d * (-t) == -(d * t)) by (nonlinear_arith);
    }
}

pub proof fn lemma_square_of_negative(x: real)
    ensures
        (-x) * (-x) == x * x,
{
    assert((-x) * (-x) == x * x) by (nonlinear_arith);
}

/// A vector, taken apart along a direction of unit length and across it, and put together again.
pub proof fn lemma_taken_apart(x: real, y: real, u: real, v: real)
    requires
        u * u + v * v == 1real,
    ensures
        ({
            let (a, w) = (x * u + y * v, x * v - y * u);
            &&& a * u + w * v == x
            &&& a * v - w * u == y
            &&& a * a + w * w == x * x + y * y
        }),
{
    let (a, w) = (x * u + y * v, x * v - y * u);
    let (p, q, m) = (u * u, v * v, u * v);
    assert((x * u + y * v) * u == x * (u * u) + y * (u * v)) by (nonlinear_arith);
    assert((x * v - y * u) * v == x * (v * v) - y * (u * v)) by (nonlinear_arith);
    assert((x * u + y * v) * v == x * (u * v) + y * (v * v)) by (nonlinear_arith);
    assert((x * v - y * u) * u == x * (u * v) - y * (u * u)) by (nonlinear_arith);
    assert(x * p + x * q == x * (p + q)) by (nonlinear_arith);
    assert(y * p + y * q == y * (p + q)) by (nonlinear_arith);
    assert(x * 1real == x && y * 1real == y) by (nonlinear_arith);
    assert(a * u + w * v == x && a * v - w * u == y);
    let (au, av, wu, wv) = (a * u, a * v, w * u, w * v);
    assert((au + wv) * (au + wv) == au * au + 2real * (au * wv) + wv * wv) by (nonlinear_arith);
    assert((av - wu) * (av - wu) == av * av - 2real * (av * wu) + wu * wu) by (nonlinear_arith);
    assert((a * u) * (w * v) == (a * v) * (w * u)) by (nonlinear_arith);
    assert((a * u) * (a * u) == (a * a) * (u * u)) by (nonlinear_arith);
    assert((a * v) * (a * v) == (a * a) * (v * v)) by (nonlinear_arith);
    assert((w * u) * (w * u) == (w * w) * (u * u)) by (nonlinear_arith);
    assert((w * v) * (w * v) == (w * w) * (v * v)) by (nonlinear_arith);
    let (aa, ww) = (a * a, w * w);
    assert(aa * p + aa * q == aa * (p + q)) by (nonlinear_arith);
    assert(ww * p + ww * q == ww * (p + q)) by (nonlinear_arith);
    assert(aa * 1real == aa && ww * 1real == ww) by (nonlinear_arith);
}

/// The direction of a vector of known length has unit length.
pub proof fn lemma_unit(x: real, y: real, length: real)
    requires
        length > 0real,
        length * length == x * x + y * y,
    ensures
        (x / length) * length == x,
        (y / length) * length == y,
        (x / length) * (x / length) + (y / length) * (y / length) == 1real,
{
    let (u, v) = (x / length, y / length);
    assert((x / length) * length == x) by (nonlinear_arith)
        requires
            length > 0real,
    ;
    assert((y / length) * length == y) by (nonlinear_arith)
        requires
            length > 0real,
    ;
    let (p, q, m) = (u * u, v * v, length * length);
    assert((u * length) * (u * length) == (u * u) * (length * length)) by (nonlinear_arith);
    assert((v * length) * (v * length) == (v * v) * (length * length)) by (nonlinear_arith);
    assert((p + q) * m == p * m + q * m) by (nonlinear_arith);
    lemma_square(length);
    let k = p + q;
    assert(k == 1real) by {
        assert(m * (p + q) == m) by {
            lemma_commuted(m, p + q);
        }
        lemma_undone(m, k);
        assert(m / m == 1real) by (nonlinear_arith)
            requires
                m > 0real,
        ;
    }
}

/// Numbers that are not negative are ordered as their squares.
pub proof fn lemma_ordered_squares(x: real, y: real)
    requires
        x * x <= y * y,
        y >= 0real,
    ensures
        x <= y,
        -x <= y,
{
    lemma_square_of_negative(x);
    if x > y {
        let d = x - y;
        let t = x + y;
        assert(d * t > 0real) by (nonlinear_arith)
            requires
                d > 0real,
                t > 0real,
        ;
        assert((x - y) * (x + y) == x * x - y * y) by (nonlinear_arith);
    }
    if -x > y {
        let z = -x;
        let d = z - y;
        let t = z + y;
        assert(d * t > 0real) by (nonlinear_arith)
            requires
                d > 0real,
                t > 0real,
        ;
        assert((z - y) * (z + y) == z * z - y * y) by (nonlinear_arith);
    }
}

/// A place on two circles: how far it lies along and across the line from one center to the other.
pub proof fn lemma_on_both_circles(p: real, q: real, x: real, y: real, d: real, r: real, s: real)
    requires
        p * p + q * q == r * r,
        (p - x) * (p - x) + (q - y) * (q - y) == s * s,
        d > 0real,
        d * d == x * x + y * y,
    ensures
        ({
            let (u, v) = (x / d, y / d);
            let (a, w) = (p * u + q * v, p * v - q * u);
            &&& a == (r * r - s * s + d * d) / (2real * d)
            &&& a * a + w * w == r * r
            &&& (d - a) * (d - a) + w * w == s * s
            &&& a * u + w * v == p
            &&& a * v - w * u == q
            &&& 2real * (d * a) == r * r - s * s + d * d
        }),
{
    let (u, v) = (x / d, y / d);
    let (a, w) = (p * u + q * v, p * v - q * u);
    lemma_unit(x, y, d);
    lemma_taken_apart(p, q, u, v);
    assert((p - x) * (p - x) == p * p - 2real * (p * x) + x * x) by (nonlinear_arith);
    assert((q - y) * (q - y) == q * q - 2real * (q * y) + y * y) by (nonlinear_arith);
    assert(p * (u * d) == (p * u) * d) by (nonlinear_arith);
    assert(q * (v * d) == (q * v) * d) by (nonlinear_arith);
    let (pu, qv) = (p * u, q * v);
    assert(d * (pu + qv) == pu * d + qv * d) by (nonlinear_arith);
    assert(2real * (d * a) == r * r - s * s + d * d);
    assert((2real * d) * a == 2real * (d * a)) by (nonlinear_arith);
    lemma_undone(2real * d, a);
    assert((d - a) * (d - a) == d * d - 2real * (d * a) + a * a) by (nonlinear_arith);
}

/// Circles that share a place are neither too far apart nor one within the other.
pub proof fn lemma_circles_in_reach(a: real, w: real, d: real, r: real, s: real)
    requires
        a * a + w * w == r * r,
        (d - a) * (d - a) + w * w == s * s,
        2real * (d * a) == r * r - s * s + d * d,
        d > 0real,
        r >= 0real,
        s >= 0real,
    ensures
        d <= r + s,
        r - s <= d,
        s - r <= d,
{
    lemma_square(w);
    lemma_ordered_squares(a, r);
    lemma_ordered_squares(d - a, s);
    let (m, n) = (s + d, r + d);
    assert((s + d) * (s + d) == s * s + 2real * (s * d) + d * d) by (nonlinear_arith);
    assert((r + d) * (r + d) == r * r + 2real * (r * d) + d * d) by (nonlinear_arith);
    let (k, l) = (s + d - a, r + a);
    assert(d * k >= 0real) by (nonlinear_arith)
        requires
            d > 0real,
            k >= 0real,
    ;
    assert(d * l >= 0real) by (nonlinear_arith)
        requires
            d > 0real,
            l >= 0real,
    ;
    assert(d * (s + d - a) == s * d + d * d - d * a) by (nonlinear_arith);
    assert(d * (r + a) == r * d + d * a) by (nonlinear_arith);
    lemma_ordered_squares(r, m);
    lemma_ordered_squares(s, n);
}

pub proof fn lemma_negative_factor(x: real, y: real)
    ensures
        x * (-y) == -(y * x),
{
    assert(x * (-y) == -(y * x)) by (nonlinear_arith);
}

pub proof fn lemma_none_of(x: real)
    ensures
        0real * x == 0real,
{
    assert(0real * x == 0real) by (nonlinear_arith);
}

/// How far the exact foot lies from the parameter that a computed one is brought to.
pub proof fn lemma_near_foot(at: real, length: real, value: real, s: real, error: real)
    requires
        length > 0real,
        -error <= value - at / length <= error,
        s == if value < 0real {
            0real
        } else if value > 1real {
            1real
        } else {
            value
        },
    ensures
        s < 1real ==> at - length * s <= error * length,
        s > 0real ==> at - length * s >= -(error * length),
{
    let f = at / length;
    assert((at / length) * length == at) by (nonlinear_arith)
        requires
            length > 0real,
    ;
    let d = f - s;
    assert((f - s) * length == f * length - length * s) by (nonlinear_arith);
    if s < 1real {
        let m = error - d;
        assert(m * length >= 0real) by (nonlinear_arith)
            requires
                m >= 0real,
                length > 0real,
        ;
        assert((error - d) * length == error * length - d * length) by (nonlinear_arith);
    }
    if s > 0real {
        let m = error + d;
        assert(m * length >= 0real) by (nonlinear_arith)
            requires
                m >= 0real,
                length > 0real,
        ;
        assert((error + d) * length == error * length + d * length) by (nonlinear_arith);
    }
}

pub proof fn lemma_difference_times(a: real, b: real, c: real)
    ensures
        (a - b) * c == a * c - b * c,
        c * (a - b) == c * a - c * b,
{
    assert((a - b) * c == a * c - b * c) by (nonlinear_arith);
    assert(c * (a - b) == c * a - c * b) by (nonlinear_arith);
}

pub proof fn lemma_regrouped(a: real, b: real, c: real)
    ensures
        (a * b) * c == a * (b * c),
        (a * b) * c == a * (c * b),
{
    assert((a * b) * c == a * (b * c)) by (nonlinear_arith);
    assert((a * b) * c == a * (c * b)) by (nonlinear_arith);
}

/// What is made up of two vectors, crossed with each of them.
pub proof fn lemma_crossed(m: real, n: real, dx: real, dy: real, ex: real, ey: real)
    ensures
        (m * dx - n * ex) * ey - (m * dy - n * ey) * ex == m * (dx * ey - dy * ex),
        (m * dx - n * ex) * dy - (m * dy - n * ey) * dx == n * (dx * ey - dy * ex),
{
    lemma_difference_times(m * dx, n * ex, ey);
    lemma_difference_times(m * dy, n * ey, ex);
    lemma_difference_times(m * dx, n * ex, dy);
    lemma_difference_times(m * dy, n * ey, dx);
    lemma_regrouped(m, dx, ey);
    lemma_regrouped(n, ex, ey);
    lemma_regrouped(m, dy, ex);
    lemma_regrouped(n, ey, ex);
    lemma_regrouped(m, dx, dy);
    lemma_regrouped(n, ex, dy);
    lemma_regrouped(m, dy, dx);
    lemma_regrouped(n, ey, dx);
    lemma_difference_times(dx * ey, dy * ex, m);
    lemma_difference_times(dx * ey, dy * ex, n);
}

pub proof fn lemma_parts(m: real, k: real)
    requires
        k != 0real,
    ensures
        (m * k) / k == m,
{
    let q = (m * k) / k;
    crate::num::estimate::lemma_divided(m * k, k);
    lemma_difference_times(q, m, k);
    crate::num::estimate::lemma_size_of_product(q - m, k);
    let (s, t) = (crate::num::estimate::size(q - m), crate::num::estimate::size(k));
    if q != m {
        assert(s * t > 0real) by (nonlinear_arith)
            requires
                s > 0real,
                t > 0real,
        ;
    }
}

pub proof fn lemma_from_the_end(s: real, x: real)
    ensures
        (1real - s) * x == x - s * x,
        s * (-x) == -(s * x),
{
    assert((1real - s) * x == x - s * x) by (nonlinear_arith);
    assert(s * (-x) == -(s * x)) by (nonlinear_arith);
}

/// A quadratic expression, its derivative and its discriminant.
pub proof fn lemma_discriminant_at(a: real, b: real, k: real, s: real)
    ensures
        (2real * a * s + b) * (2real * a * s + b) == 4real * (a * (a * s * s + b * s + k)) + (b * b
            - 4real * a * k),
{
    let q = a * s;
    assert((2real * q + b) * (2real * q + b) == 4real * (q * q) + 4real * (q * b) + b * b)
        by (nonlinear_arith);
    assert(2real * a * s == 2real * (a * s)) by (nonlinear_arith);
    assert(a * s * s == q * s);
    assert(a * (q * s) == (a * s) * q) by (nonlinear_arith);
    assert(a * (b * s) == (a * s) * b) by (nonlinear_arith);
    let (u, v) = (q * s, b * s);
    assert(a * (u + v + k) == a * u + a * v + a * k) by (nonlinear_arith);
    assert(4real * a * k == 4real * (a * k)) by (nonlinear_arith);
}

pub proof fn lemma_moved_divisor(k: real, y: real, d: real)
    requires
        d > 0real,
    ensures
        (k * y) / d == k * (y / d),
        ((-k) * y) / d == -(k * (y / d)),
{
    let q = y / d;
    crate::num::estimate::lemma_divided(y, d);
    lemma_regrouped(k, q, d);
    lemma_parts(k * q, d);
    assert((-k) * y == -(k * y)) by (nonlinear_arith);
    let m = k * q;
    assert((-m) * d == -(m * d)) by (nonlinear_arith);
    lemma_parts(-m, d);
}

pub proof fn lemma_negative_times(k: real, u: real)
    ensures
        (-k) * u == -(k * u),
{
    assert((-k) * u == -(k * u)) by (nonlinear_arith);
}

/// Four factors, paired otherwise.
pub proof fn lemma_paired(a: real, b: real, c: real, d: real)
    ensures
        (a * b) * (c * d) == (a * c) * (b * d),
{
    lemma_regrouped(a, b, c * d);
    lemma_regrouped(a, c, b * d);
    lemma_regrouped(b, c, d);
    lemma_regrouped(c, b, d);
    lemma_commuted(b, c);
}

pub proof fn lemma_squared_sum(p: real, m: real)
    ensures
        (p + m) * (p + m) == p * p + 2real * (p * m) + m * m,
        (p - m) * (p - m) == p * p - 2real * (p * m) + m * m,
        (2real * p) * m == 2real * (p * m),
        (2real * p) * (2real * p) == 4real * (p * p),
{
    assert((p + m) * (p + m) == p * p + 2real * (p * m) + m * m) by (nonlinear_arith);
    assert((p - m) * (p - m) == p * p - 2real * (p * m) + m * m) by (nonlinear_arith);
    assert((2real * p) * m == 2real * (p * m)) by (nonlinear_arith);
    assert((2real * p) * (2real * p) == 4real * (p * p)) by (nonlinear_arith);
}

pub proof fn lemma_sum_times(a: real, b: real, c: real)
    ensures
        (a + b) * c == a * c + b * c,
        c * (a + b) == c * a + c * b,
{
    assert((a + b) * c == a * c + b * c) by (nonlinear_arith);
    assert(c * (a + b) == c * a + c * b) by (nonlinear_arith);
}

/// The radius, the offset of the center and half of the chord make a right triangle.
pub proof fn lemma_radius_and_offset(length: real, b: real, r: real)
    requires
        b > 0real,
        r == (length * (b * b + 1real)) / (4real * b),
    ensures
        ({
            let k = r - (b * length) / 2real;
            4real * (k * k) + length * length == 4real * (r * r)
        }),
{
    let m = b * length;
    let h = m / 2real;
    let w = b * r;
    let z = length * (b * b);
    crate::num::estimate::lemma_divided(length * (b * b + 1real), 4real * b);
    lemma_commuted(r, 4real * b);
    lemma_regrouped(4real, b, r);
    lemma_sum_times(b * b, 1real, length);
    assert(length * 1real == length) by (nonlinear_arith);
    assert(4real * w == z + length);
    lemma_squared_sum(r, h);
    lemma_squared_sum(h, r);
    lemma_commuted(r, h);
    // With m == 2 h: 4 (r - h)^2 == 4 r^2 - 4 m r + m^2.
    lemma_regrouped(b, length, r);
    lemma_regrouped(b, r, length);
    lemma_regrouped(4real, w, length);
    lemma_sum_times(z, length, length);
    lemma_paired(b, length, b, length);
    lemma_regrouped(length, b * b, length);
    lemma_regrouped(b * b, length, length);
    lemma_commuted(b * b, length);
    lemma_commuted(length, (b * b) * length);
    assert(m * r == w * length);
    assert(z * length == m * m);
}

/// A place beside the middle of a chord, square to it.
pub proof fn lemma_beside_chord(x: real, y: real, u: real, v: real, s: real, length: real)
    requires
        u * length == x,
        v * length == y,
        u * u + v * v == 1real,
        length * length == x * x + y * y,
    ensures
        ({
            let (a, b) = (x / 2real - s * v, y / 2real + s * u);
            &&& 4real * (a * a + b * b) == length * length + 4real * (s * s)
            &&& 4real * ((a - x) * (a - x) + (b - y) * (b - y)) == length * length + 4real * (s
                * s)
            &&& x * b - y * a == s * length
        }),
{
    let (p, q) = (x / 2real, y / 2real);
    let (m, n) = (s * v, s * u);
    let (a, b) = (p - m, q + n);
    assert(x == 2real * p && y == 2real * q);
    lemma_squared_sum(p, m);
    lemma_squared_sum(q, n);
    // x m == y n
    lemma_commuted(s, v);
    lemma_commuted(s, u);
    lemma_paired(u, length, v, s);
    lemma_paired(v, length, u, s);
    lemma_commuted(u, v);
    assert(x * m == y * n);
    // m^2 + n^2 == s^2
    lemma_paired(s, v, s, v);
    lemma_paired(s, u, s, u);
    let (ss, uu, vv) = (s * s, u * u, v * v);
    lemma_sum_times(uu, vv, ss);
    assert(ss * 1real == ss) by (nonlinear_arith);
    assert(m * m + n * n == ss);
    assert(a - x == -(p + m) && b - y == -(q - n));
    lemma_square_of_negative(p + m);
    lemma_square_of_negative(q - n);
    // x n + y m == s length
    lemma_sum_times(q, n, x);
    lemma_difference_times(p, m, y);
    lemma_squared_sum(p, q);
    lemma_squared_sum(q, p);
    lemma_commuted(p, q);
    lemma_paired(u, length, u, s);
    lemma_paired(v, length, v, s);
    lemma_commuted(length, s);
    let sl = s * length;
    lemma_sum_times(uu, vv, sl);
    assert(1real * sl == sl) by (nonlinear_arith);
    assert(x * n == uu * sl);
    assert(y * m == vv * sl);
}

} // verus!
