//! Single-precision numbers, held as the bits that encode them.
//!
//! The library stores, compares and selects coordinates, but it computes none. A coordinate is
//! therefore kept as its binary32 encoding, and the comparisons that decide what is drawn are
//! integer comparisons on that encoding, proved against the number that it encodes.
use vstd::arithmetic::power2::{lemma_pow2_pos, lemma_pow2_unfold, pow2};
use vstd::prelude::*;

verus! {

/// The bit that carries the sign.
pub const SIGN_BIT: u32 = 0x8000_0000;

/// The encoding of positive infinity; every larger magnitude is not a number.
pub const INFINITY_BITS: u32 = 0x7f80_0000;

/// The number of encodings that share one exponent.
pub const MANTISSA_COUNT: u32 = 0x0080_0000;

/// A single-precision number, as the bits of its binary32 encoding.
#[derive(Clone, Copy, Debug, PartialEq, Eq, Structural)]
pub struct Scalar {
    pub bits: u32,
}

/// The encoding of the number one.
pub const ONE_BITS: u32 = 0x3f80_0000;

/// The absolute value that the 31 magnitude bits `m` encode, in units of the smallest positive
/// number. Infinity counts as the number that would follow the largest finite one.
pub open spec fn magnitude_value(m: int) -> int {
    let exponent = m / MANTISSA_COUNT as int;
    let mantissa = m % MANTISSA_COUNT as int;
    if exponent == 0 {
        mantissa
    } else {
        (MANTISSA_COUNT + mantissa) * pow2((exponent - 1) as nat)
    }
}

impl Scalar {
    /// Positive zero.
    #[verifier::allow_in_spec]
    pub fn zero() -> (r: Scalar)
        returns
            (Scalar { bits: 0 }),
    {
        Scalar { bits: 0 }
    }

    /// The number one.
    #[verifier::allow_in_spec]
    pub fn one() -> (r: Scalar)
        returns
            (Scalar { bits: ONE_BITS }),
    {
        Scalar { bits: ONE_BITS }
    }

    /// Whether the sign bit is set.
    pub open spec fn is_negative(self) -> bool {
        self.bits >= SIGN_BIT
    }

    /// The encoding without its sign.
    pub open spec fn magnitude(self) -> int {
        if self.is_negative() {
            self.bits - SIGN_BIT
        } else {
            self.bits as int
        }
    }

    /// Whether the encoding stands for no number at all.
    pub open spec fn is_nan_spec(self) -> bool {
        self.magnitude() > INFINITY_BITS
    }

    /// The encoded number, in units of the smallest positive number.
    pub open spec fn value(self) -> int {
        if self.is_negative() {
            -magnitude_value(self.magnitude())
        } else {
            magnitude_value(self.magnitude())
        }
    }

    /// The magnitude with the sign applied: an integer that orders encodings as the numbers that
    /// they stand for.
    pub open spec fn order_key(self) -> int {
        if self.is_negative() {
            -self.magnitude()
        } else {
            self.magnitude()
        }
    }

    /// Whether both are numbers and `self` is at least `other`.
    pub open spec fn at_least_spec(self, other: Scalar) -> bool {
        !self.is_nan_spec() && !other.is_nan_spec() && self.value() >= other.value()
    }

    /// Whether this is zero, of either sign.
    pub open spec fn is_zero_spec(self) -> bool {
        !self.is_nan_spec() && self.value() == 0
    }

    /// Whether this is a number below zero.
    pub open spec fn is_below_zero_spec(self) -> bool {
        !self.is_nan_spec() && self.value() < 0
    }

    /// `self` if it is a positive number, zero otherwise.
    pub open spec fn positive_part_spec(self) -> Scalar {
        if !self.is_nan_spec() && self.value() > 0 {
            self
        } else {
            Scalar::zero()
        }
    }

    /// `self` if it is a negative number, zero otherwise.
    pub open spec fn negative_part_spec(self) -> Scalar {
        if !self.is_nan_spec() && self.value() < 0 {
            self
        } else {
            Scalar::zero()
        }
    }

    /// The number without its sign.
    pub open spec fn abs_spec(self) -> Scalar {
        Scalar { bits: self.magnitude() as u32 }
    }

    /// The number without its sign.
    pub fn abs(self) -> (r: Scalar)
        ensures
            r == self.abs_spec(),
    {
        if self.bits >= SIGN_BIT {
            Scalar { bits: self.bits - SIGN_BIT }
        } else {
            self
        }
    }

    /// Whether the encoding stands for no number.
    pub fn is_nan(self) -> (r: bool)
        ensures
            r == self.is_nan_spec(),
    {
        let magnitude: u32 = if self.bits >= SIGN_BIT {
            self.bits - SIGN_BIT
        } else {
            self.bits
        };
        magnitude > INFINITY_BITS
    }

    /// The signed magnitude.
    fn key(self) -> (r: i64)
        ensures
            r == self.order_key(),
    {
        if self.bits >= SIGN_BIT {
            -((self.bits - SIGN_BIT) as i64)
        } else {
            self.bits as i64
        }
    }

    /// Whether this is zero, of either sign.
    pub fn is_zero(self) -> (r: bool)
        ensures
            r == self.is_zero_spec(),
    {
        proof {
            law_order_key_orders_values(self, Scalar::zero());
            law_order_key_orders_values(Scalar::zero(), self);
            lemma_zero();
        }
        !self.is_nan() && self.key() == 0
    }

    /// Whether this is a number below zero.
    pub fn is_below_zero(self) -> (r: bool)
        ensures
            r == self.is_below_zero_spec(),
    {
        proof {
            law_order_key_orders_values(Scalar::zero(), self);
            lemma_zero();
        }
        !self.is_nan() && self.key() < 0
    }

    /// Whether `self >= other`, which is false when either is not a number.
    pub fn at_least(self, other: Scalar) -> (r: bool)
        ensures
            r == self.at_least_spec(other),
    {
        proof {
            law_order_key_orders_values(other, self);
        }
        !self.is_nan() && !other.is_nan() && self.key() >= other.key()
    }

    /// The larger of `self` and zero; zero where `self` is not a number.
    pub fn positive_part(self) -> (r: Scalar)
        ensures
            r == self.positive_part_spec(),
    {
        proof {
            law_order_key_orders_values(self, Scalar::zero());
            lemma_zero();
        }
        if !self.is_nan() && self.key() > 0 {
            self
        } else {
            Scalar::zero()
        }
    }

    /// The smaller of `self` and zero; zero where `self` is not a number.
    pub fn negative_part(self) -> (r: Scalar)
        ensures
            r == self.negative_part_spec(),
    {
        proof {
            law_order_key_orders_values(Scalar::zero(), self);
            lemma_zero();
        }
        if !self.is_nan() && self.key() < 0 {
            self
        } else {
            Scalar::zero()
        }
    }
}

proof fn lemma_zero()
    ensures
        Scalar::zero().value() == 0,
        Scalar::zero().order_key() == 0,
        !Scalar::zero().is_nan_spec(),
{
}

/// The next magnitude encodes a larger absolute value.
proof fn lemma_magnitude_step(m: int)
    requires
        0 <= m,
    ensures
        0 <= magnitude_value(m) < magnitude_value(m + 1),
{
    let c = MANTISSA_COUNT as int;
    let e = m / c;
    let f = m % c;
    assert(m == c * e + f && 0 <= f < c) by (nonlinear_arith)
        requires
            c == 0x0080_0000,
            e == m / c,
            f == m % c,
    ;
    if f + 1 < c {
        assert((m + 1) / c == e && (m + 1) % c == f + 1) by (nonlinear_arith)
            requires
                c == 0x0080_0000,
                m + 1 == c * e + (f + 1),
                0 <= f + 1 < c,
        ;
        if e > 0 {
            let p = pow2((e - 1) as nat) as int;
            lemma_pow2_pos((e - 1) as nat);
            assert(0 <= (c + f) * p < (c + (f + 1)) * p) by (nonlinear_arith)
                requires
                    p > 0,
                    c > 0,
                    f >= 0,
            ;
        }
    } else {
        assert((m + 1) / c == e + 1 && (m + 1) % c == 0) by (nonlinear_arith)
            requires
                c == 0x0080_0000,
                m + 1 == c * (e + 1),
        ;
        if e == 0 {
            vstd::arithmetic::power2::lemma2_to64();
        } else {
            let p = pow2((e - 1) as nat) as int;
            lemma_pow2_pos((e - 1) as nat);
            lemma_pow2_unfold(e as nat);
            assert(pow2(e as nat) == 2 * p);
            assert(0 <= (c + f) * p < (c + 0) * (2 * p)) by (nonlinear_arith)
                requires
                    p > 0,
                    c > 0,
                    0 <= f < c,
            ;
        }
    }
}

/// A larger magnitude encodes a larger absolute value.
proof fn lemma_magnitude_increases(m: int, n: int)
    requires
        0 <= m < n,
    ensures
        0 <= magnitude_value(m) < magnitude_value(n),
    decreases n - m,
{
    lemma_magnitude_step(n - 1);
    if m < n - 1 {
        lemma_magnitude_increases(m, n - 1);
    }
}

/// The number without its sign is the number or its opposite, whichever is not negative, and it is
/// a number if the one with the sign is.
pub proof fn law_abs_drops_the_sign(a: Scalar)
    ensures
        a.abs_spec().value() >= 0,
        a.abs_spec().value() == a.value() || a.abs_spec().value() == -a.value(),
        a.abs_spec().is_nan_spec() == a.is_nan_spec(),
{
    assert(a.abs_spec().magnitude() == a.magnitude());
    if a.magnitude() > 0 {
        lemma_magnitude_increases(0, a.magnitude());
    }
}

/// The signed magnitudes of two encodings compare as the numbers that they encode.
pub proof fn law_order_key_orders_values(a: Scalar, b: Scalar)
    ensures
        a.order_key() <= b.order_key() <==> a.value() <= b.value(),
        a.order_key() == b.order_key() <==> a.value() == b.value(),
{
    let (m, n) = (a.magnitude(), b.magnitude());
    assert(magnitude_value(0) == 0);
    if m > 0 {
        lemma_magnitude_increases(0, m);
    }
    if n > 0 {
        lemma_magnitude_increases(0, n);
    }
    if m < n {
        lemma_magnitude_increases(m, n);
    } else if n < m {
        lemma_magnitude_increases(n, m);
    }
}

/// What an encoding stands for: the smallest magnitudes count up by one, from there on the value
/// doubles whenever the exponent goes up by one, the sign bit gives the opposite number, and the
/// magnitudes above infinity are no numbers.
pub proof fn law_encodings_stand_for_numbers(a: Scalar)
    ensures
        a.bits < 0x0100_0000 ==> a.value() == a.bits,
        0x0080_0000 <= a.bits < 0x7f80_0000 ==> (Scalar {
            bits: (a.bits + 0x0080_0000) as u32,
        }).value() == 2 * a.value(),
        a.bits < 0x8000_0000 ==> (Scalar { bits: (a.bits + 0x8000_0000) as u32 }).value()
            == -a.value(),
        a.is_nan_spec() <==> 0x7f80_0000 < a.bits < 0x8000_0000 || 0xff80_0000 < a.bits,
{
    let c = 0x0080_0000int;
    let m = a.bits as int;
    vstd::arithmetic::power2::lemma2_to64();
    if c <= m < 0x0100_0000 {
        assert(m / c == 1 && m % c == m - c) by (nonlinear_arith)
            requires
                c == 0x0080_0000,
                c <= m < 2 * c,
        ;
        assert((c + (m - c)) * 1 == m) by (nonlinear_arith);
    }
    if c <= m < 0x7f80_0000 {
        let e = m / c;
        let f = m % c;
        assert(m == c * e + f && 0 <= f < c && e >= 1) by (nonlinear_arith)
            requires
                c == 0x0080_0000,
                e == m / c,
                f == m % c,
                m >= c,
        ;
        assert((m + c) / c == e + 1 && (m + c) % c == f) by (nonlinear_arith)
            requires
                c == 0x0080_0000,
                m + c == c * (e + 1) + f,
                0 <= f < c,
        ;
        lemma_pow2_unfold(e as nat);
        let q = pow2((e - 1) as nat) as int;
        assert((c + f) * (2 * q) == 2 * ((c + f) * q)) by (nonlinear_arith);
    }
}

/// The positive and the negative part of a number are the larger and the smaller of it and zero, one
/// of them is the number itself and the other is zero; of what is no number both are zero.
pub proof fn law_parts_add_up(a: Scalar)
    ensures
        !a.is_nan_spec() && a.value() > 0 ==> a.positive_part_spec().bits == a.bits
            && a.negative_part_spec().bits == 0,
        !a.is_nan_spec() && a.value() < 0 ==> a.negative_part_spec().bits == a.bits
            && a.positive_part_spec().bits == 0,
        a.is_nan_spec() || a.value() == 0 ==> a.positive_part_spec().bits == 0
            && a.negative_part_spec().bits == 0,
{
}

/// Comparing encodings is comparing the numbers: both zeros are zero, a number below zero has the
/// sign bit, what is no number is neither, and without its sign an encoding only lacks that bit.
pub proof fn law_comparisons_follow_the_numbers(a: Scalar, b: Scalar)
    ensures
        a.is_zero_spec() <==> a.bits == 0 || a.bits == 0x8000_0000,
        a.is_below_zero_spec() <==> 0x8000_0000 < a.bits <= 0xff80_0000,
        a.at_least_spec(b) <==> !a.is_nan_spec() && !b.is_nan_spec() && a.value() >= b.value(),
        !a.is_nan_spec() && !b.is_nan_spec() ==> a.at_least_spec(b) || b.at_least_spec(a),
        a.abs_spec().bits < 0x8000_0000,
        a.abs_spec().bits == a.bits || a.abs_spec().bits + 0x8000_0000 == a.bits,
{
    law_order_key_orders_values(a, Scalar::zero());
    law_order_key_orders_values(Scalar::zero(), a);
    lemma_zero();
}

} // verus!
