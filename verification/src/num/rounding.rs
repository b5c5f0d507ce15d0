//! Rounding of a non-negative rational to the nearest binary64 magnitude.
//!
//! Magnitudes are counted in units of 2^-1074, the smallest positive number of
//! the format. A magnitude with significand `m < 2^53` and scale `k` has the
//! value `m * 2^k` and the bit pattern `k * 2^52 + m`.
use vstd::arithmetic::power2::*;
use vstd::prelude::*;

verus! {

/// Number of significands per scale: 2^52.
pub const BINADE: u64 = 0x10_0000_0000_0000;

/// Bit pattern of the infinite magnitude.
pub const INFINITE: u64 = 0x7ff0_0000_0000_0000;

/// The smallest scale `k` at which `num / den` has a significand below 2^53.
pub open spec fn scale_of(num: nat, den: nat) -> nat
    decreases num - den,
{
    if den == 0 || num < den * pow2(53) {
        0
    } else {
        proof {
            lemma2_to64_rest();
            assert(num >= 2 * den) by (nonlinear_arith)
                requires
                    num >= den * 0x20000000000000nat,
            ;
        }
        1 + scale_of(num, 2 * den)
    }
}

/// The integer nearest to `num / den`, the even one of two equally near.
pub open spec fn nearest_even(num: nat, den: nat) -> nat {
    let q = num / den;
    let r = num % den;
    if 2 * r < den || (2 * r == den && q % 2 == 0) {
        q
    } else {
        q + 1
    }
}

/// The bit pattern of the magnitude nearest to `num / den`.
pub open spec fn rounded_magnitude(num: nat, den: nat) -> u64 {
    let k = scale_of(num, den);
    let pattern = k * BINADE + nearest_even(num, den * pow2(k));
    if pattern >= INFINITE {
        INFINITE
    } else {
        pattern as u64
    }
}

/// `num / den` lies in `[m * 2^e, (m + 1) * 2^e)`, and is not the lower end iff `sticky`.
pub open spec fn represents(num: nat, den: nat, m: nat, e: int, sticky: bool) -> bool {
    let a = num * pow2((if e < 0 { -e } else { 0 }) as nat);
    let b = den * pow2((if e < 0 { 0 } else { e }) as nat);
    &&& den > 0
    &&& m * b <= a < (m + 1) * b
    &&& sticky <==> m * b != a
}

pub proof fn lemma_scale_of(num: nat, den: nat, k: nat)
    requires
        den > 0,
        num < den * pow2(53 + k),
        k > 0 ==> num >= den * pow2((52 + k) as nat),
    ensures
        scale_of(num, den) == k,
    decreases k,
{
    if k > 0 {
        lemma_pow2_unfold(53 + k);
        lemma_pow2_unfold((52 + k) as nat);
        let p = pow2((52 + k) as nat);
        assert(den * (2 * p) == (2 * den) * p) by (nonlinear_arith);
        assert(num >= den * pow2(53)) by {
            if k > 1 {
                lemma_pow2_strictly_increases(53, (52 + k) as nat);
                assert(den * p >= den * pow2(53)) by (nonlinear_arith)
                    requires
                        p >= pow2(53),
                ;
            }
        }
        if k > 1 {
            let h = pow2((51 + k) as nat);
            assert(p == 2 * h);
            assert(den * (2 * h) == (2 * den) * h) by (nonlinear_arith);
            assert((52 + (k - 1)) as nat == (51 + k) as nat);
        }
        assert(53 + (k - 1) as nat == (52 + k) as nat);
        lemma_scale_of(num, 2 * den, (k - 1) as nat);
    }
}

proof fn lemma_represents_halved(num: nat, den: nat, m: nat, e: int, sticky: bool)
    requires
        represents(num, den, m, e, sticky),
    ensures
        represents(num, den, m / 2, e + 1, sticky || m % 2 == 1),
{
    let h = m / 2;
    let r = m % 2;
    assert(m == 2 * h + r);
    if e < 0 {
        let x = pow2((-e - 1) as nat);
        lemma_pow2_unfold((-e) as nat);
        let a = num * x;
        assert(num * pow2((-e) as nat) == 2 * a) by (nonlinear_arith)
            requires
                pow2((-e) as nat) == 2 * x,
                a == num * x,
        ;
        let b = den * pow2(0);
        assert(m * b == 2 * (h * b) + r * b) by (nonlinear_arith)
            requires
                m == 2 * h + r,
        ;
        assert((m + 1) * b == m * b + b) by (nonlinear_arith);
        assert((h + 1) * b == h * b + b) by (nonlinear_arith);
        assert(r * b == if r == 1 { b } else { 0 }) by (nonlinear_arith)
            requires
                r == 0 || r == 1,
        ;
        if e + 1 == 0 {
            lemma2_to64();
            assert(a == num * pow2(0));
        }
    } else {
        let y = pow2(e as nat);
        lemma_pow2_unfold((e + 1) as nat);
        let b = den * y;
        assert(den * pow2((e + 1) as nat) == 2 * b) by (nonlinear_arith)
            requires
                pow2((e + 1) as nat) == 2 * y,
                b == den * y,
        ;
        assert(m * b == h * (2 * b) + r * b) by (nonlinear_arith)
            requires
                m == 2 * h + r,
        ;
        assert((m + 1) * b == m * b + b) by (nonlinear_arith);
        assert((h + 1) * (2 * b) == h * (2 * b) + 2 * b) by (nonlinear_arith);
        assert(r * b == if r == 1 { b } else { 0 }) by (nonlinear_arith)
            requires
                r == 0 || r == 1,
        ;
    }
}

proof fn lemma_represents_doubled(num: nat, den: nat, m: nat, e: int)
    requires
        represents(num, den, m, e, false),
    ensures
        represents(num, den, 2 * m, e - 1, false),
{
    if e <= 0 {
        let x = pow2((-e) as nat);
        lemma_pow2_unfold((-e + 1) as nat);
        let a = num * x;
        assert(num * pow2((-e + 1) as nat) == 2 * a) by (nonlinear_arith)
            requires
                pow2((-e + 1) as nat) == 2 * x,
                a == num * x,
        ;
        let b = den * pow2(0);
        if e == 0 {
            lemma2_to64();
        }
        assert((2 * m) * b == 2 * (m * b)) by (nonlinear_arith);
        assert((2 * m + 1) * b == 2 * (m * b) + b) by (nonlinear_arith);
        lemma_pow2_pos(0);
        assert(b > 0) by (nonlinear_arith)
            requires
                b == den * pow2(0),
                den > 0,
                pow2(0) > 0,
        ;
    } else {
        let y = pow2((e - 1) as nat);
        lemma_pow2_unfold(e as nat);
        lemma_pow2_pos((e - 1) as nat);
        let b = den * y;
        assert(den * pow2(e as nat) == 2 * b) by (nonlinear_arith)
            requires
                pow2(e as nat) == 2 * y,
                b == den * y,
        ;
        assert(b > 0) by (nonlinear_arith)
            requires
                b == den * y,
                den > 0,
                y > 0,
        ;
        assert(m * (2 * b) == (2 * m) * b) by (nonlinear_arith);
        assert((2 * m + 1) * b == (2 * m) * b + b) by (nonlinear_arith);
    }
}

/// A quotient with one bit below the unit, and a sticky bit below that, rounds as the quotient.
proof fn lemma_nearest_even_guard(a: nat, b: nat, m: nat, sticky: bool)
    requires
        b > 0,
        m * b <= a < (m + 1) * b,
        sticky <==> m * b != a,
    ensures
        nearest_even(a, 2 * b) == m / 2 + (if m % 2 == 1 && (sticky || (m / 2) % 2 == 1) {
            1nat
        } else {
            0nat
        }),
{
    let h = m / 2;
    let r = m % 2;
    assert(m == 2 * h + r);
    let s = a - m * b;
    assert((m + 1) * b == m * b + b) by (nonlinear_arith);
    assert(m * b == h * (2 * b) + r * b) by (nonlinear_arith)
        requires
            m == 2 * h + r,
    ;
    let rem = r * b + s;
    assert(r * b == if r == 1 { b as int } else { 0 }) by (nonlinear_arith)
        requires
            r == 0 || r == 1,
    ;
    vstd::arithmetic::div_mod::lemma_fundamental_div_mod_converse(
        a as int,
        (2 * b) as int,
        h as int,
        rem,
    );
}

proof fn lemma_nearest_even_scaled(num: nat, den: nat)
    requires
        den > 0,
    ensures
        nearest_even(2 * num, 2 * den) == nearest_even(num, den),
{
    let q = num / den;
    let r = num % den;
    vstd::arithmetic::div_mod::lemma_fundamental_div_mod(num as int, den as int);
    assert(2 * num == (2 * den) * q + 2 * r) by (nonlinear_arith)
        requires
            num == den * q + r,
    ;
    vstd::arithmetic::div_mod::lemma_fundamental_div_mod_converse(
        (2 * num) as int,
        (2 * den) as int,
        q as int,
        (2 * r) as int,
    );
}

/// The rounded magnitude of a number whose significand has one bit too many.
proof fn lemma_rounded_magnitude(num: nat, den: nat, m: nat, e: int, sticky: bool)
    requires
        represents(num, den, m, e, sticky),
        e >= -1,
        m < 0x40_0000_0000_0000,
        e == -1 || m >= 0x20_0000_0000_0000,
    ensures
        scale_of(num, den) == e + 1,
        nearest_even(num, den * pow2((e + 1) as nat)) == m / 2 + (if m % 2 == 1 && (sticky || (m
            / 2) % 2 == 1) {
            1nat
        } else {
            0nat
        }),
{
    let k = (e + 1) as nat;
    lemma2_to64();
    lemma2_to64_rest();
    if e == -1 {
        let a = 2 * num;
        lemma_pow2_unfold(1);
        assert(num * pow2(1) == a);
        assert(den * pow2(0) == den);
        assert(num < den * pow2(53)) by (nonlinear_arith)
            requires
                2 * num < (m + 1) * den,
                m + 1 <= 0x40_0000_0000_0000,
                pow2(53) == 0x20_0000_0000_0000,
        ;
        lemma_scale_of(num, den, 0);
        lemma_nearest_even_guard(a, den, m, sticky);
        lemma_nearest_even_scaled(num, den);
    } else {
        let y = pow2(e as nat);
        let b = den * y;
        assert(num * pow2(0) == num);
        lemma_pow2_adds(53, k);
        lemma_pow2_unfold(k);
        assert(den * pow2(k) == 2 * b) by (nonlinear_arith)
            requires
                pow2(k) == 2 * y,
                b == den * y,
        ;
        assert(num < den * pow2(53 + k)) by (nonlinear_arith)
            requires
                num < (m + 1) * b,
                m + 1 <= 0x40_0000_0000_0000,
                pow2(53 + k) == pow2(53) * pow2(k),
                pow2(53) == 0x20_0000_0000_0000,
                pow2(k) == 2 * y,
                b == den * y,
        ;
        lemma_pow2_adds(53, e as nat);
        assert(num >= den * pow2((52 + k) as nat)) by (nonlinear_arith)
            requires
                num >= m * b,
                m >= 0x20_0000_0000_0000,
                pow2((52 + k) as nat) == pow2(53) * y,
                pow2(53) == 0x20_0000_0000_0000,
                b == den * y,
        ;
        lemma_pow2_pos(e as nat);
        assert(b > 0) by (nonlinear_arith)
            requires
                b == den * y,
                den > 0,
                y > 0,
        ;
        lemma_scale_of(num, den, k);
        lemma_nearest_even_guard(num, b, m, sticky);
    }
}

proof fn lemma_zero_magnitude(num: nat, den: nat, e: int)
    requires
        represents(num, den, 0, e, false),
    ensures
        rounded_magnitude(num, den) == 0,
{
    lemma2_to64_rest();
    let p = pow2((if e < 0 { -e } else { 0 }) as nat);
    lemma_pow2_pos((if e < 0 { -e } else { 0 }) as nat);
    assert(num == 0) by (nonlinear_arith)
        requires
            num * p == 0,
            p > 0,
    ;
    assert(num < den * pow2(53)) by (nonlinear_arith)
        requires
            num == 0,
            den > 0,
            pow2(53) > 0,
    ;
    assert(scale_of(num, den) == 0);
    lemma2_to64();
    assert(den * pow2(0) == den) by (nonlinear_arith)
        requires
            pow2(0) == 1,
    ;
    assert(0nat / den == 0 && 0nat % den == 0) by (nonlinear_arith)
        requires
            den > 0,
    ;
}

proof fn lemma_halvings_bounded(m: nat, n: nat)
    requires
        m >= 0x40_0000_0000_0000 ==> m * pow2(n) < 0x8000_0000_0000_0000_0000_0000_0000_0000,
    ensures
        m >= 0x40_0000_0000_0000 ==> n < 127,
{
    if m >= 0x40_0000_0000_0000 && n >= 127 {
        lemma2_to64();
        lemma2_to64_rest();
        lemma_pow2_adds(64, 63);
        if n > 127 {
            lemma_pow2_strictly_increases(127, n);
        }
        assert(m * pow2(n) >= pow2(127)) by (nonlinear_arith)
            requires
                m >= 1,
                pow2(n) >= pow2(127),
        ;
        assert(pow2(127) == 0x1_0000_0000_0000_0000 * 0x8000_0000_0000_0000nat);
    }
}

/// The magnitude nearest to the number that `m`, `e` and `sticky` represent.
pub fn round_parts(m: u128, e: i32, sticky: bool) -> (pattern: u64)
    requires
        m < 0x8000_0000_0000_0000_0000_0000_0000_0000,
        sticky ==> m >= 0x20_0000_0000_0000,
        -10000 <= e <= 10000,
    ensures
        pattern <= INFINITE,
        forall|num: nat, den: nat| #[trigger]
            represents(num, den, m as nat, e as int, sticky) ==> pattern == rounded_magnitude(
                num,
                den,
            ),
{
    if m == 0 && !sticky {
        proof {
            assert forall|num: nat, den: nat| #[trigger]
                represents(num, den, m as nat, e as int, sticky) implies rounded_magnitude(num, den)
                == 0 by {
                lemma_zero_magnitude(num, den, e as int);
            }
        }
        return 0;
    }
    let mut m1: u128 = m;
    let mut e1: i32 = e;
    let mut sticky1: bool = sticky;
    let ghost mut n: nat = 0;
    proof {
        lemma2_to64();
    }
    while m1 >= 0x40_0000_0000_0000 || e1 < -1
        invariant
            -10000 <= e1 <= 20000,
            e <= 10000,
            e1 == e + n,
            m1 * pow2(n) <= m < 0x8000_0000_0000_0000_0000_0000_0000_0000,
            sticky1 ==> m1 >= 0x20_0000_0000_0000 || e1 <= -1,
            forall|num: nat, den: nat| #[trigger]
                represents(num, den, m as nat, e as int, sticky) ==> represents(
                    num,
                    den,
                    m1 as nat,
                    e1 as int,
                    sticky1,
                ),
        decreases m1 + (if e1 < -1 { -1 - e1 } else { 0 }),
    {
        proof {
            assert forall|num: nat, den: nat| #[trigger]
                represents(num, den, m as nat, e as int, sticky) implies represents(
                num,
                den,
                (m1 / 2) as nat,
                e1 + 1,
                sticky1 || m1 % 2 == 1,
            ) by {
                lemma_represents_halved(num, den, m1 as nat, e1 as int, sticky1);
            }
            lemma_halvings_bounded(m1 as nat, n);
            lemma_pow2_unfold(n + 1);
            assert((m1 / 2) * pow2(n + 1) <= m1 * pow2(n)) by (nonlinear_arith)
                requires
                    pow2(n + 1) == 2 * pow2(n),
                    2 * (m1 / 2) <= m1,
            ;
            n = n + 1;
        }
        sticky1 = sticky1 || m1 % 2 == 1;
        m1 = m1 / 2;
        e1 = e1 + 1;
    }
    while m1 < 0x20_0000_0000_0000 && e1 > -1
        invariant
            -1 <= e1 <= 20000,
            m1 < 0x40_0000_0000_0000,
            sticky1 ==> m1 >= 0x20_0000_0000_0000 || e1 <= -1,
            forall|num: nat, den: nat| #[trigger]
                represents(num, den, m as nat, e as int, sticky) ==> represents(
                    num,
                    den,
                    m1 as nat,
                    e1 as int,
                    sticky1,
                ),
        decreases e1 + 1,
    {
        proof {
            assert forall|num: nat, den: nat| #[trigger]
                represents(num, den, m as nat, e as int, sticky) implies represents(
                num,
                den,
                (2 * m1) as nat,
                e1 - 1,
                sticky1,
            ) by {
                lemma_represents_doubled(num, den, m1 as nat, e1 as int);
            }
        }
        m1 = 2 * m1;
        e1 = e1 - 1;
    }
    let half: u64 = (m1 / 2) as u64;
    let up: bool = m1 % 2 == 1 && (sticky1 || half % 2 == 1);
    let q: u64 = if up { half + 1 } else { half };
    proof {
        assert forall|num: nat, den: nat| #[trigger]
            represents(num, den, m as nat, e as int, sticky) implies rounded_magnitude(num, den)
            == (if (e1 + 1) * BINADE + q >= INFINITE {
            INFINITE
        } else {
            ((e1 + 1) * BINADE + q) as u64
        }) by {
            lemma_rounded_magnitude(num, den, m1 as nat, e1 as int, sticky1);
        }
    }
    if e1 + 1 >= 2047 {
        return INFINITE;
    }
    let pattern: u64 = (e1 + 1) as u64 * BINADE + q;
    if pattern >= INFINITE {
        INFINITE
    } else {
        pattern
    }
}

} // verus!
