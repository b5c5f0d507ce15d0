//! IEEE 754 binary64 numbers, held by their bit patterns.
//!
//! The arithmetic is carried out on integers and is correctly rounded: each
//! operation returns the number nearest to its exact result, the one with the
//! even significand of two equally near. It therefore agrees bit for bit with
//! binary64 arithmetic in hardware, but for the payload of a NaN.
use vstd::arithmetic::div_mod::*;
use vstd::arithmetic::power2::*;
use vstd::prelude::*;

pub mod accuracy;
pub mod closeness;
pub mod constants;
pub mod estimate;
pub mod integers;
pub mod laws;
pub mod remainder;
pub mod rounding;
pub mod square_root;

use crate::num::rounding::{round_parts, BINADE, INFINITE};

verus! {

/// The sign bit.
pub const SIGN: u64 = 0x8000_0000_0000_0000;

/// Bit pattern of the NaN that arithmetic returns.
pub const NOT_A_NUMBER: u64 = 0x7ff8_0000_0000_0000;

/// A binary64 number.
///
/// The derived equality compares bit patterns; `num_eq` compares numbers.
#[derive(Clone, Copy, Debug, PartialEq, Eq, Hash, Structural)]
pub struct Num {
    pub bits: u64,
}

impl Num {
    /// The magnitude's bit pattern.
    pub open spec fn magnitude(self) -> u64 {
        if self.bits >= SIGN {
            (self.bits - SIGN) as u64
        } else {
            self.bits
        }
    }

    pub open spec fn spec_is_negative(self) -> bool {
        self.bits >= SIGN
    }

    pub open spec fn spec_is_nan(self) -> bool {
        self.magnitude() > INFINITE
    }

    pub open spec fn spec_is_infinite(self) -> bool {
        self.magnitude() == INFINITE
    }

    pub open spec fn spec_is_finite(self) -> bool {
        self.magnitude() < INFINITE
    }

    /// The power of two that scales the significand.
    pub open spec fn scale(self) -> nat {
        let field = self.magnitude() / BINADE;
        if field == 0 {
            0
        } else {
            (field - 1) as nat
        }
    }

    /// The integer significand.
    pub open spec fn significand(self) -> nat {
        (self.magnitude() - self.scale() * BINADE) as nat
    }

    /// The absolute value of a finite number, in units of 2^-1074.
    pub open spec fn units(self) -> nat {
        self.significand() * pow2(self.scale())
    }

    /// The value of a finite number, in units of 2^-1074.
    pub open spec fn value(self) -> int {
        if self.spec_is_negative() {
            -self.units()
        } else {
            self.units() as int
        }
    }

    /// How many units make one.
    pub open spec fn one_in_units() -> nat {
        pow2(1074)
    }

    /// The place of a number that is not NaN in the order of the numbers; both zeros have place 0.
    pub open spec fn order(self) -> int {
        if self.spec_is_negative() {
            -(self.magnitude() as int)
        } else {
            self.magnitude() as int
        }
    }

    pub open spec fn with_sign(negative: bool, magnitude: u64) -> Num {
        if negative {
            Num { bits: (magnitude + SIGN) as u64 }
        } else {
            Num { bits: magnitude }
        }
    }

    /// The number nearest to `num / den` units, with the given sign.
    pub open spec fn rounded(negative: bool, num: nat, den: nat) -> Num {
        Num::with_sign(negative, rounding::rounded_magnitude(num, den))
    }

    pub open spec fn nan() -> Num {
        Num { bits: NOT_A_NUMBER }
    }

    /// The number with the given bit pattern.
    pub fn from_bits(bits: u64) -> (r: Num)
        ensures
            r.bits == bits,
    {
        Num { bits }
    }

    /// The bit pattern of the number.
    pub fn to_bits(self) -> (r: u64)
        ensures
            r == self.bits,
    {
        self.bits
    }

    pub(crate) fn magnitude_bits(self) -> (r: u64)
        ensures
            r == self.magnitude(),
            r < SIGN,
    {
        if self.bits >= SIGN {
            self.bits - SIGN
        } else {
            self.bits
        }
    }

    pub(crate) fn signed(negative: bool, magnitude: u64) -> (r: Num)
        requires
            magnitude < SIGN,
        ensures
            r == Num::with_sign(negative, magnitude),
    {
        if negative {
            Num { bits: magnitude + SIGN }
        } else {
            Num { bits: magnitude }
        }
    }

    #[verifier::when_used_as_spec(spec_is_negative)]
    pub fn is_negative(self) -> (r: bool)
        ensures
            r == self.spec_is_negative(),
    {
        self.bits >= SIGN
    }

    #[verifier::when_used_as_spec(spec_is_nan)]
    pub fn is_nan(self) -> (r: bool)
        ensures
            r == self.spec_is_nan(),
    {
        self.magnitude_bits() > INFINITE
    }

    #[verifier::when_used_as_spec(spec_is_infinite)]
    pub fn is_infinite(self) -> (r: bool)
        ensures
            r == self.spec_is_infinite(),
    {
        self.magnitude_bits() == INFINITE
    }

    #[verifier::when_used_as_spec(spec_is_finite)]
    pub fn is_finite(self) -> (r: bool)
        ensures
            r == self.spec_is_finite(),
    {
        self.magnitude_bits() < INFINITE
    }

    /// The significand and the scale of a finite number.
    pub(crate) fn parts(self) -> (r: (u64, u32))
        requires
            self.spec_is_finite(),
        ensures
            r.0 == self.significand(),
            r.1 == self.scale(),
            r.0 < 0x20_0000_0000_0000,
            r.1 <= 2045,
            r.1 > 0 ==> r.0 >= BINADE,
            self.units() == r.0 * pow2(r.1 as nat),
    {
        let magnitude: u64 = self.magnitude_bits();
        let field: u64 = magnitude / BINADE;
        if field == 0 {
            (magnitude, 0)
        } else {
            (magnitude - (field - 1) * BINADE, (field - 1) as u32)
        }
    }

    pub open spec fn spec_num_eq(self, other: Num) -> bool {
        !self.spec_is_nan() && !other.spec_is_nan() && self.order() == other.order()
    }

    pub open spec fn spec_lt(self, other: Num) -> bool {
        !self.spec_is_nan() && !other.spec_is_nan() && self.order() < other.order()
    }

    pub open spec fn spec_le(self, other: Num) -> bool {
        !self.spec_is_nan() && !other.spec_is_nan() && self.order() <= other.order()
    }

    pub open spec fn spec_gt(self, other: Num) -> bool {
        other.spec_lt(self)
    }

    pub open spec fn spec_ge(self, other: Num) -> bool {
        other.spec_le(self)
    }

    fn order_index(self) -> (r: i64)
        ensures
            r == self.order(),
    {
        if self.bits >= SIGN {
            -((self.bits - SIGN) as i64)
        } else {
            self.bits as i64
        }
    }

    /// Whether the two numbers are equal: a NaN equals nothing, the two zeros are equal.
    #[verifier::when_used_as_spec(spec_num_eq)]
    pub fn num_eq(self, other: Num) -> (r: bool)
        ensures
            r == self.spec_num_eq(other),
    {
        !self.is_nan() && !other.is_nan() && self.order_index() == other.order_index()
    }

    #[verifier::when_used_as_spec(spec_lt)]
    pub fn lt(self, other: Num) -> (r: bool)
        ensures
            r == self.spec_lt(other),
    {
        !self.is_nan() && !other.is_nan() && self.order_index() < other.order_index()
    }

    #[verifier::when_used_as_spec(spec_le)]
    pub fn le(self, other: Num) -> (r: bool)
        ensures
            r == self.spec_le(other),
    {
        !self.is_nan() && !other.is_nan() && self.order_index() <= other.order_index()
    }

    #[verifier::when_used_as_spec(spec_gt)]
    pub fn gt(self, other: Num) -> (r: bool)
        ensures
            r == self.spec_gt(other),
    {
        other.lt(self)
    }

    #[verifier::when_used_as_spec(spec_ge)]
    pub fn ge(self, other: Num) -> (r: bool)
        ensures
            r == self.spec_ge(other),
    {
        other.le(self)
    }

    /// The place of the number in a total order: NaN comes last.
    pub open spec fn sort_key(self) -> int {
        if self.spec_is_nan() {
            INFINITE + 1
        } else {
            self.order()
        }
    }

    pub fn to_sort_key(self) -> (r: i64)
        ensures
            r == self.sort_key(),
    {
        if self.is_nan() {
            INFINITE as i64 + 1
        } else {
            self.order_index()
        }
    }

    pub open spec fn spec_neg(self) -> Num {
        Num::with_sign(!self.spec_is_negative(), self.magnitude())
    }

    #[verifier::when_used_as_spec(spec_neg)]
    pub fn neg(self) -> (r: Num)
        ensures
            r == self.spec_neg(),
    {
        Num::signed(!self.is_negative(), self.magnitude_bits())
    }

    pub open spec fn spec_abs(self) -> Num {
        Num { bits: self.magnitude() }
    }

    #[verifier::when_used_as_spec(spec_abs)]
    pub fn abs(self) -> (r: Num)
        ensures
            r == self.spec_abs(),
    {
        Num { bits: self.magnitude_bits() }
    }

    /// The lesser of two numbers; a NaN yields the other one.
    pub open spec fn spec_min(self, other: Num) -> Num {
        if other.spec_is_nan() || self.spec_le(other) {
            self
        } else {
            other
        }
    }

    #[verifier::when_used_as_spec(spec_min)]
    pub fn min(self, other: Num) -> (r: Num)
        ensures
            r == self.spec_min(other),
    {
        if other.is_nan() || self.le(other) {
            self
        } else {
            other
        }
    }

    /// The greater of two numbers; a NaN yields the other one.
    pub open spec fn spec_max(self, other: Num) -> Num {
        if other.spec_is_nan() || self.spec_ge(other) {
            self
        } else {
            other
        }
    }

    #[verifier::when_used_as_spec(spec_max)]
    pub fn max(self, other: Num) -> (r: Num)
        ensures
            r == self.spec_max(other),
    {
        if other.is_nan() || self.ge(other) {
            self
        } else {
            other
        }
    }

    /// The number itself, or the bound that it lies beyond.
    pub open spec fn spec_clamp(self, low: Num, high: Num) -> Num {
        if self.spec_lt(low) {
            low
        } else if self.spec_gt(high) {
            high
        } else {
            self
        }
    }

    #[verifier::when_used_as_spec(spec_clamp)]
    pub fn clamp(self, low: Num, high: Num) -> (r: Num)
        ensures
            r == self.spec_clamp(low, high),
    {
        if self.lt(low) {
            low
        } else if self.gt(high) {
            high
        } else {
            self
        }
    }

    /// The sum, rounded once.
    #[verifier::opaque]
    pub open spec fn spec_add(self, other: Num) -> Num {
        if self.spec_is_nan() || other.spec_is_nan() {
            Num::nan()
        } else if self.spec_is_infinite() {
            if other.spec_is_infinite() && self.spec_is_negative() != other.spec_is_negative() {
                Num::nan()
            } else {
                self
            }
        } else if other.spec_is_infinite() {
            other
        } else {
            let sum = self.value() + other.value();
            if sum == 0 {
                Num::with_sign(self.spec_is_negative() && other.spec_is_negative(), 0)
            } else if sum < 0 {
                Num::rounded(true, (-sum) as nat, 1)
            } else {
                Num::rounded(false, sum as nat, 1)
            }
        }
    }

    #[verifier::when_used_as_spec(spec_add)]
    pub fn add(self, other: Num) -> (r: Num)
        ensures
            r == self.spec_add(other),
    {
        reveal(Num::spec_add);
        if self.is_nan() || other.is_nan() {
            return Num { bits: NOT_A_NUMBER };
        }
        if self.is_infinite() {
            if other.is_infinite() && self.is_negative() != other.is_negative() {
                return Num { bits: NOT_A_NUMBER };
            }
            return self;
        }
        if other.is_infinite() {
            return other;
        }
        let (ms, ks): (u64, u32) = self.parts();
        let (mo, ko): (u64, u32) = other.parts();
        if ks >= ko {
            Num::add_aligned(self.is_negative(), ms, ks, other.is_negative(), mo, ko)
        } else {
            Num::add_aligned(other.is_negative(), mo, ko, self.is_negative(), ms, ks)
        }
    }

    /// Adds `mx * 2^kx` and `my * 2^ky`, each with its sign.
    fn add_aligned(nx: bool, mx: u64, kx: u32, ny: bool, my: u64, ky: u32) -> (r: Num)
        requires
            ky <= kx <= 2045,
            mx < 0x20_0000_0000_0000,
            my < 0x20_0000_0000_0000,
            kx > 0 ==> mx >= BINADE,
        ensures
            ({
                let ux = mx * pow2(kx as nat);
                let uy = my * pow2(ky as nat);
                let sum = (if nx { -ux } else { ux }) + (if ny { -uy } else { uy });
                r == if sum == 0 {
                    Num::with_sign(nx && ny, 0)
                } else if sum < 0 {
                    Num::rounded(true, (-sum) as nat, 1)
                } else {
                    Num::rounded(false, sum as nat, 1)
                }
            }),
    {
        let ghost px = pow2(kx as nat);
        let ghost py = pow2(ky as nat);
        let ghost ux: int = mx * px;
        let ghost uy: int = my * py;
        let ghost sum: int = (if nx { -ux } else { ux }) + (if ny { -uy } else { uy });
        let d: u32 = kx - ky;
        proof {
            lemma_pow2_pos(kx as nat);
            lemma_pow2_pos(ky as nat);
            lemma2_to64();
        }
        if d <= 70 {
            let x: u128 = shift_up(mx, d);
            let y: u128 = my as u128;
            proof {
                lemma_pow2_adds(d as nat, ky as nat);
                assert(x * py == ux) by (nonlinear_arith)
                    requires
                        x == mx * pow2(d as nat),
                        px == pow2(d as nat) * py,
                        ux == mx * px,
                ;
            }
            let (negative, m): (bool, u128) = if nx == ny {
                (nx, x + y)
            } else if x > y {
                (nx, x - y)
            } else if y > x {
                (ny, y - x)
            } else {
                (false, 0)
            };
            proof {
                assert((x + y) * py == x * py + y * py) by (nonlinear_arith);
                assert((x - y) * py == x * py - y * py) by (nonlinear_arith);
                assert((y - x) * py == y * py - x * py) by (nonlinear_arith);
                let total = (if sum < 0 { -sum } else { sum }) as nat;
                assert(m * py == total) by {
                    if nx != ny && x == y {
                        assert(m * py == 0);
                    } else if nx != ny && x > y {
                        assert(x * py > y * py) by (nonlinear_arith)
                            requires
                                x > y,
                                py > 0,
                        ;
                    } else if nx != ny && y > x {
                        assert(y * py > x * py) by (nonlinear_arith)
                            requires
                                y > x,
                                py > 0,
                        ;
                    } else {
                        assert(x * py >= 0 && y * py >= 0) by (nonlinear_arith)
                            requires
                                py > 0,
                        ;
                    }
                }
                assert(total * 1 == m * (1 * py)) by (nonlinear_arith)
                    requires
                        total == m * py,
                ;
                assert((m + 1) * (1 * py) > m * (1 * py)) by (nonlinear_arith)
                    requires
                        py > 0,
                ;
                assert(rounding::represents(total, 1, m as nat, ky as int, false));
                if sum == 0 {
                    lemma_rounded_zero();
                    assert(x * py == y * py ==> x == y) by (nonlinear_arith)
                        requires
                            py > 0,
                    ;
                    if nx == ny {
                        assert(ux == 0 && uy == 0) by (nonlinear_arith)
                            requires
                                ux >= 0,
                                uy >= 0,
                                ux + uy == 0,
                        ;
                    }
                } else {
                    assert(x > y ==> x * py > y * py) by (nonlinear_arith)
                        requires
                            py > 0,
                    ;
                    assert(y > x ==> y * py > x * py) by (nonlinear_arith)
                        requires
                            py > 0,
                    ;
                    assert(y * py == uy);
                    assert(ux >= 0 && uy >= 0) by (nonlinear_arith)
                        requires
                            ux == mx * px,
                            uy == my * py,
                            px > 0,
                            py > 0,
                    ;
                    assert(negative == (sum < 0));
                }
            }
            Num::signed(negative, round_parts(m, ky as i32, false))
        } else {
            let x: u128 = shift_up(mx, 17);
            let e: i32 = kx as i32 - 17;
            let ghost pe = pow2(e as nat);
            proof {
                lemma_pow2_adds(17, e as nat);
                assert(x * pe == ux) by (nonlinear_arith)
                    requires
                        x == mx * pow2(17),
                        px == pow2(17) * pe,
                        ux == mx * px,
                ;
                lemma2_to64_rest();
                assert(x >= BINADE * 0x20000) by (nonlinear_arith)
                    requires
                        x == mx * pow2(17),
                        pow2(17) == 0x20000,
                        mx >= BINADE,
                ;
                lemma_pow2_adds(53, ky as nat);
                if 53 + ky < e {
                    lemma_pow2_strictly_increases((53 + ky) as nat, e as nat);
                }
                assert(0 <= uy < pe) by (nonlinear_arith)
                    requires
                        uy == my * py,
                        my < 0x20_0000_0000_0000,
                        0x20_0000_0000_0000 * py <= pe,
                        py > 0,
                ;
                assert(uy == 0 <==> my == 0) by (nonlinear_arith)
                    requires
                        uy == my * py,
                        py > 0,
                ;
                assert((x + 1) * pe == x * pe + pe) by (nonlinear_arith);
                assert((x - 1) * pe == x * pe - pe) by (nonlinear_arith);
                assert(x * pe >= pe) by (nonlinear_arith)
                    requires
                        x >= 1,
                        pe > 0,
                ;
            }
            let sticky: bool = my != 0;
            let m: u128 = if nx != ny && sticky {
                x - 1
            } else {
                x
            };
            proof {
                let total = (if sum < 0 { -sum } else { sum }) as nat;
                assert(total == if nx == ny { ux + uy } else { ux - uy });
                assert(1 * pe == pe);
                assert(total * 1 == total);
                assert(rounding::represents(total, 1, m as nat, e as int, sticky));
                assert(ux >= pe > uy);
                assert(sum != 0 && (sum < 0 <==> nx));
            }
            Num::signed(nx, round_parts(m, e, sticky))
        }
    }

    /// The difference, rounded once.
    pub open spec fn spec_sub(self, other: Num) -> Num {
        self.spec_add(other.spec_neg())
    }

    #[verifier::when_used_as_spec(spec_sub)]
    pub fn sub(self, other: Num) -> (r: Num)
        ensures
            r == self.spec_sub(other),
    {
        self.add(other.neg())
    }

    /// The product, rounded once.
    #[verifier::opaque]
    pub open spec fn spec_mul(self, other: Num) -> Num {
        let negative = self.spec_is_negative() != other.spec_is_negative();
        if self.spec_is_nan() || other.spec_is_nan() {
            Num::nan()
        } else if self.spec_is_infinite() || other.spec_is_infinite() {
            if self.magnitude() == 0 || other.magnitude() == 0 {
                Num::nan()
            } else {
                Num::with_sign(negative, INFINITE)
            }
        } else {
            Num::rounded(negative, self.units() * other.units(), Num::one_in_units())
        }
    }

    #[verifier::when_used_as_spec(spec_mul)]
    pub fn mul(self, other: Num) -> (r: Num)
        ensures
            r == self.spec_mul(other),
    {
        reveal(Num::spec_mul);
        let negative: bool = self.is_negative() != other.is_negative();
        if self.is_nan() || other.is_nan() {
            return Num { bits: NOT_A_NUMBER };
        }
        if self.is_infinite() || other.is_infinite() {
            if self.magnitude_bits() == 0 || other.magnitude_bits() == 0 {
                return Num { bits: NOT_A_NUMBER };
            }
            return Num::signed(negative, INFINITE);
        }
        let (ms, ks): (u64, u32) = self.parts();
        let (mo, ko): (u64, u32) = other.parts();
        assert(ms * mo < 0x400_0000_0000_0000_0000_0000_0000) by (nonlinear_arith)
            requires
                ms < 0x20_0000_0000_0000,
                mo < 0x20_0000_0000_0000,
        ;
        let m: u128 = ms as u128 * mo as u128;
        let e: i32 = ks as i32 + ko as i32 - 1074;
        proof {
            let num = self.units() * other.units();
            let en = (if e < 0 { -e } else { 0 }) as nat;
            let ep = (if e < 0 { 0 } else { e as int }) as nat;
            lemma_pow2_adds(ks as nat, ko as nat);
            lemma_pow2_adds((ks + ko) as nat, en);
            lemma_pow2_adds(1074, ep);
            lemma_pow2_pos((1074 + ep) as nat);
            let p = pow2((1074 + ep) as nat);
            assert(num * pow2(en) == m * p) by (nonlinear_arith)
                requires
                    num == (ms * pow2(ks as nat)) * (mo * pow2(ko as nat)),
                    m == ms * mo,
                    p == pow2(ks as nat) * pow2(ko as nat) * pow2(en),
            ;
            assert((m + 1) * p > m * p) by (nonlinear_arith)
                requires
                    p > 0,
            ;
            assert(rounding::represents(num, Num::one_in_units(), m as nat, e as int, false));
        }
        Num::signed(negative, round_parts(m, e, false))
    }

    /// The quotient, rounded once.
    #[verifier::opaque]
    pub open spec fn spec_div(self, other: Num) -> Num {
        let negative = self.spec_is_negative() != other.spec_is_negative();
        if self.spec_is_nan() || other.spec_is_nan() {
            Num::nan()
        } else if self.spec_is_infinite() {
            if other.spec_is_infinite() {
                Num::nan()
            } else {
                Num::with_sign(negative, INFINITE)
            }
        } else if other.spec_is_infinite() {
            Num::with_sign(negative, 0)
        } else if other.magnitude() == 0 {
            if self.magnitude() == 0 {
                Num::nan()
            } else {
                Num::with_sign(negative, INFINITE)
            }
        } else {
            Num::rounded(negative, self.units() * Num::one_in_units(), other.units())
        }
    }

    #[verifier::when_used_as_spec(spec_div)]
    pub fn div(self, other: Num) -> (r: Num)
        ensures
            r == self.spec_div(other),
    {
        reveal(Num::spec_div);
        let negative: bool = self.is_negative() != other.is_negative();
        if self.is_nan() || other.is_nan() {
            return Num { bits: NOT_A_NUMBER };
        }
        if self.is_infinite() {
            if other.is_infinite() {
                return Num { bits: NOT_A_NUMBER };
            }
            return Num::signed(negative, INFINITE);
        }
        if other.is_infinite() {
            return Num::signed(negative, 0);
        }
        let (ms, ks): (u64, u32) = self.parts();
        let (mo, ko): (u64, u32) = other.parts();
        if mo == 0 {
            proof {
                lemma_zero_significand(other);
                lemma_zero_significand(self);
            }
            if ms == 0 {
                return Num { bits: NOT_A_NUMBER };
            }
            return Num::signed(negative, INFINITE);
        }
        if ms == 0 {
            proof {
                lemma_zero_significand(self);
                lemma_zero_significand(other);
                lemma_pow2_pos(1074);
                lemma_pow2_pos(ko as nat);
                assert(other.units() > 0) by (nonlinear_arith)
                    requires
                        other.units() == mo * pow2(ko as nat),
                        mo > 0,
                        pow2(ko as nat) > 0,
                ;
                lemma_rounded_zero_over(other.units());
                assert(self.units() * Num::one_in_units() == 0) by (nonlinear_arith)
                    requires
                        self.units() == 0,
                ;
            }
            return Num::signed(negative, 0);
        }
        let (mn, z): (u64, u32) = normalized(ms);
        let n: u128 = shift_up(mn, 72);
        let q: u128 = n / mo as u128;
        let sticky: bool = n % mo as u128 != 0;
        let e: i32 = ks as i32 - z as i32 - 72 + 1074 - ko as i32;
        proof {
            lemma_zero_significand(other);
            lemma2_to64();
            lemma2_to64_rest();
            lemma_pow2_adds(64, 8);
            lemma_fundamental_div_mod(n as int, mo as int);
            assert(q >= 0x20_0000_0000_0000) by (nonlinear_arith)
                requires
                    n == mn * pow2(72),
                    pow2(72) == 0x1_0000_0000_0000_0000 * 0x100,
                    mn >= BINADE,
                    mo < 0x20_0000_0000_0000,
                    mo > 0,
                    n == mo * q + n % mo as u128,
                    (n % mo as u128) < mo,
            ;
            let num = self.units() * Num::one_in_units();
            let den = other.units();
            let en = (if e < 0 { -e } else { 0 }) as nat;
            let ep = (if e < 0 { 0 } else { e as int }) as nat;
            let p = pow2((ko + ep) as nat);
            lemma_pow2_adds(ko as nat, ep);
            lemma_pow2_adds(ks as nat, 1074);
            lemma_pow2_adds((ks + 1074) as nat, en);
            lemma_pow2_adds(z as nat, 72);
            lemma_pow2_adds((z + 72) as nat, (ko + ep) as nat);
            assert((ks + 1074) as nat + en == (z + 72) as nat + (ko + ep) as nat);
            lemma_pow2_pos((ko + ep) as nat);
            lemma_pow2_pos(ko as nat);
            assert(num * pow2(en) == n * p) by (nonlinear_arith)
                requires
                    num == (ms * pow2(ks as nat)) * pow2(1074),
                    n == mn * pow2(72),
                    mn == ms * pow2(z as nat),
                    pow2(ks as nat) * pow2(1074) * pow2(en) == pow2(z as nat) * pow2(72) * p,
            ;
            let b = den * pow2(ep);
            assert(b == mo * p) by (nonlinear_arith)
                requires
                    b == den * pow2(ep),
                    den == mo * pow2(ko as nat),
                    p == pow2(ko as nat) * pow2(ep),
            ;
            let rem = (n % mo as u128) as nat;
            assert(n * p == q * b + rem * p) by (nonlinear_arith)
                requires
                    n == mo * q + rem,
                    b == mo * p,
            ;
            assert(0 <= rem * p < b) by (nonlinear_arith)
                requires
                    b == mo * p,
                    rem < mo,
                    p > 0,
            ;
            assert(rem * p == 0 <==> rem == 0) by (nonlinear_arith)
                requires
                    p > 0,
            ;
            assert((q + 1) * b == q * b + b) by (nonlinear_arith);
            assert(den > 0) by (nonlinear_arith)
                requires
                    den == mo * pow2(ko as nat),
                    mo > 0,
                    pow2(ko as nat) > 0,
            ;
            assert(rounding::represents(num, den, q as nat, e as int, sticky));
        }
        Num::signed(negative, round_parts(q, e, sticky))
    }
}

pub(crate) proof fn lemma_zero_significand(x: Num)
    requires
        x.spec_is_finite(),
    ensures
        x.magnitude() == 0 <==> x.significand() == 0,
        x.magnitude() == 0 <==> x.units() == 0,
{
    lemma_pow2_pos(x.scale());
    assert(x.units() == 0 <==> x.significand() == 0) by (nonlinear_arith)
        requires
            x.units() == x.significand() * pow2(x.scale()),
            pow2(x.scale()) > 0,
    ;
}

proof fn lemma_rounded_zero_over(den: nat)
    requires
        den > 0,
    ensures
        rounding::rounded_magnitude(0, den) == 0,
{
    lemma2_to64();
    lemma2_to64_rest();
    assert(0 < den * pow2(53)) by (nonlinear_arith)
        requires
            den > 0,
            pow2(53) > 0,
    ;
    assert(rounding::scale_of(0, den) == 0);
    assert(den * pow2(0) == den) by (nonlinear_arith)
        requires
            pow2(0) == 1,
    ;
    assert(0nat / den == 0 && 0nat % den == 0) by (nonlinear_arith)
        requires
            den > 0,
    ;
}

proof fn lemma_rounded_zero()
    ensures
        rounding::rounded_magnitude(0, 1) == 0,
{
    lemma_rounded_zero_over(1);
}

/// `m * 2^d`.
pub(crate) fn shift_up(m: u64, d: u32) -> (r: u128)
    requires
        m < 0x20_0000_0000_0000,
        d <= 72,
    ensures
        r == m * pow2(d as nat),
        r < 0x2000_0000_0000_0000_0000_0000_0000_0000,
{
    let mut r: u128 = m as u128;
    let mut i: u32 = 0;
    proof {
        lemma2_to64();
    }
    while i < d
        invariant
            i <= d <= 72,
            m < 0x20_0000_0000_0000,
            r == m * pow2(i as nat),
        decreases d - i,
    {
        proof {
            lemma_shift_bound(m as nat, i as nat);
            lemma_pow2_unfold((i + 1) as nat);
            assert(m * (2 * pow2(i as nat)) == 2 * (m * pow2(i as nat))) by (nonlinear_arith);
        }
        r = 2 * r;
        i = i + 1;
    }
    proof {
        lemma_shift_bound(m as nat, d as nat);
    }
    r
}

proof fn lemma_shift_bound(m: nat, d: nat)
    requires
        m < 0x20_0000_0000_0000,
        d <= 72,
    ensures
        m * pow2(d) < 0x2000_0000_0000_0000_0000_0000_0000_0000,
{
    lemma2_to64();
    lemma_pow2_adds(64, 8);
    if d < 72 {
        lemma_pow2_strictly_increases(d, 72);
    }
    lemma_pow2_pos(d);
    assert(m * pow2(d) < 0x20_0000_0000_0000 * (0x1_0000_0000_0000_0000 * 0x100)) by (nonlinear_arith)
        requires
            m < 0x20_0000_0000_0000,
            pow2(d) <= 0x1_0000_0000_0000_0000 * 0x100,
            pow2(d) > 0,
    ;
}

/// A positive significand moved up until it has 53 bits, and by how many places.
pub(crate) fn normalized(m: u64) -> (r: (u64, u32))
    requires
        0 < m < 0x20_0000_0000_0000,
    ensures
        BINADE <= r.0 < 0x20_0000_0000_0000,
        r.0 == m * pow2(r.1 as nat),
        r.1 <= 52,
{
    let mut x: u64 = m;
    let mut z: u32 = 0;
    proof {
        lemma2_to64();
    }
    while x < BINADE
        invariant
            0 < m,
            0 < x < 0x20_0000_0000_0000,
            x == m * pow2(z as nat),
            x < BINADE ==> z <= 51,
            z <= 52,
        decreases 0x20_0000_0000_0000 - x,
    {
        proof {
            lemma_pow2_unfold((z + 1) as nat);
            assert(m * (2 * pow2(z as nat)) == 2 * (m * pow2(z as nat))) by (nonlinear_arith);
            if z == 51 {
                lemma2_to64_rest();
                assert(m * pow2(52) >= BINADE) by (nonlinear_arith)
                    requires
                        m >= 1,
                        pow2(52) == BINADE,
                ;
            }
        }
        x = 2 * x;
        z = z + 1;
    }
    (x, z)
}

} // verus!
