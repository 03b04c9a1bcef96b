//! IEEE 754 double-precision values, read from their 64-bit patterns.
//!
//! A finite double is a whole number of units of `2^-1074`, so its value is
//! modelled as an `int` count of such units. Truncation to a machine integer
//! and comparison against whole numbers are then integer arithmetic.
use vstd::prelude::*;
use vstd::arithmetic::div_mod::*;
use vstd::arithmetic::mul::*;
use vstd::arithmetic::power2::*;
use vstd::bits::*;

verus! {

/// The bit that holds the sign: `2^63`.
pub const SIGN_BIT: u64 = 0x8000_0000_0000_0000;

/// The leading bit of a normal significand, left out of the pattern: `2^52`.
pub const HIDDEN_BIT: u64 = 0x0010_0000_0000_0000;

/// The biased exponent of infinities and NaNs.
pub const SPECIAL_EXPONENT: u64 = 2047;

/// The biased exponent of `1.0`.
pub const EXPONENT_BIAS: u64 = 1023;

/// The number of units of `2^-1074` in `1.0`.
pub open spec fn one() -> nat {
    pow2(1074)
}

/// A double-precision value, held as its bit pattern.
#[derive(Clone, Copy, Debug, PartialEq, Eq, Structural)]
pub struct Binary64 {
    pub bits: u64,
}

impl Binary64 {
    /// Whether the sign bit is set.
    pub open spec fn negative(self) -> bool {
        self.bits >= SIGN_BIT
    }

    /// The eleven exponent bits.
    pub open spec fn biased_exponent(self) -> nat {
        ((self.bits / HIDDEN_BIT) % 2048) as nat
    }

    /// The fifty-two fraction bits.
    pub open spec fn fraction(self) -> nat {
        (self.bits % HIDDEN_BIT) as nat
    }

    /// The pattern without its sign bit.
    pub open spec fn magnitude_bits(self) -> nat {
        (self.bits % SIGN_BIT) as nat
    }

    /// Whether the pattern is no number.
    pub open spec fn is_nan(self) -> bool {
        self.biased_exponent() == SPECIAL_EXPONENT && self.fraction() != 0
    }

    /// Whether the pattern is an infinity.
    pub open spec fn is_infinite(self) -> bool {
        self.biased_exponent() == SPECIAL_EXPONENT && self.fraction() == 0
    }

    /// The significand: the fraction, with the hidden bit unless the value
    /// is subnormal.
    pub open spec fn significand(self) -> nat {
        if self.biased_exponent() == 0 {
            self.fraction()
        } else {
            self.fraction() + HIDDEN_BIT as nat
        }
    }

    /// The absolute value, in units of `2^-1074`. An infinity stands as
    /// `2^2098` units, above every finite magnitude.
    pub open spec fn magnitude(self) -> nat {
        if self.biased_exponent() == 0 {
            self.fraction()
        } else {
            self.significand() * pow2((self.biased_exponent() - 1) as nat)
        }
    }

    /// The value, in units of `2^-1074`.
    pub open spec fn units(self) -> int {
        if self.negative() {
            -(self.magnitude() as int)
        } else {
            self.magnitude() as int
        }
    }

    /// The whole part of the absolute value.
    pub open spec fn whole(self) -> nat {
        self.magnitude() / one()
    }

    /// The value with its fractional part dropped: rounded toward zero.
    pub open spec fn truncated(self) -> int {
        if self.negative() {
            -(self.whole() as int)
        } else {
            self.whole() as int
        }
    }

    /// The value as a 32-bit integer: truncated toward zero, the nearest
    /// bound where that is out of range, and zero for a NaN.
    pub open spec fn saturated(self) -> int {
        if self.is_nan() {
            0
        } else if self.is_infinite() {
            if self.negative() {
                i32::MIN as int
            } else {
                i32::MAX as int
            }
        } else if self.truncated() < i32::MIN {
            i32::MIN as int
        } else if self.truncated() > i32::MAX {
            i32::MAX as int
        } else {
            self.truncated()
        }
    }

    /// The value with the opposite sign.
    pub open spec fn negated(self) -> Binary64 {
        if self.bits >= SIGN_BIT {
            Binary64 { bits: (self.bits - SIGN_BIT) as u64 }
        } else {
            Binary64 { bits: (self.bits + SIGN_BIT) as u64 }
        }
    }

    /// Whether the value is at most the whole number `bound`. No NaN is.
    pub open spec fn at_most(self, bound: nat) -> bool {
        !self.is_nan() && self.units() <= bound * one()
    }

    /// Whether `self <= other` as IEEE 754 orders values: false as soon as
    /// either is a NaN, and the two zeros are equal.
    pub open spec fn le(self, other: Binary64) -> bool {
        !self.is_nan() && !other.is_nan() && self.units() <= other.units()
    }

    /// Below `1.0` in absolute value, the whole part is zero.
    pub proof fn lemma_whole_below_one(self)
        requires
            self.biased_exponent() < EXPONENT_BIAS,
        ensures
            self.magnitude() < one(),
            self.whole() == 0,
    {
        let b = self.biased_exponent();
        lemma2_to64_rest();
        if b == 0 {
            lemma_pow2_strictly_increases(52, 1074);
        } else {
            let low = (b - 1) as nat;
            lemma_pow2_pos(low);
            lemma_mul_strict_inequality(
                self.significand() as int,
                pow2(53) as int,
                pow2(low) as int,
            );
            lemma_pow2_adds(53, low);
            if 53 + low < 1074 {
                lemma_pow2_strictly_increases(53 + low, 1074);
            }
        }
        lemma_basic_div(self.magnitude() as int, one() as int);
    }

    /// From `1.0` up to `2^53`, the whole part is the significand shifted
    /// right, and the fractional part is what the shift drops.
    pub proof fn lemma_whole_shifted(self)
        requires
            1 <= self.biased_exponent() <= 1075,
        ensures
            self.whole() == self.significand() / pow2((1075 - self.biased_exponent()) as nat),
            (self.magnitude() % one() == 0) == (self.significand() % pow2(
                (1075 - self.biased_exponent()) as nat,
            ) == 0),
    {
        let b = self.biased_exponent();
        let low = (b - 1) as nat;
        let shift = (1075 - b) as nat;
        let sig = self.significand() as int;
        let scale = pow2(low) as int;
        let divisor = pow2(shift) as int;
        lemma_pow2_pos(low);
        lemma_pow2_pos(shift);
        lemma_pow2_adds(low, shift);
        assert(one() == scale * divisor);
        assert(self.magnitude() == scale * sig) by {
            lemma_mul_is_commutative(sig, scale);
        }
        lemma_div_multiples_vanish_quotient(scale, sig, divisor);
        lemma_truncate_middle(sig, scale, divisor);
        lemma_mod_bound(sig, divisor);
        let dropped = sig % divisor;
        if dropped != 0 {
            lemma_mul_strictly_positive(scale, dropped);
        } else {
            assert(scale * dropped == 0);
        }
    }

    /// A biased exponent of `1023 + k` or more makes the absolute value at
    /// least `2^k`.
    pub proof fn lemma_whole_at_least(self, k: nat)
        requires
            self.biased_exponent() >= EXPONENT_BIAS + k,
        ensures
            self.whole() >= pow2(k),
    {
        let b = self.biased_exponent();
        let low = (b - 1) as nat;
        lemma2_to64_rest();
        lemma_pow2_pos(low);
        lemma_pow2_pos(k);
        lemma_pow2_pos(1074);
        // magnitude >= 2^52 * 2^(b-1) = 2^(b+51) >= 2^(1074+k)
        lemma_mul_inequality(pow2(52) as int, self.significand() as int, pow2(low) as int);
        lemma_pow2_adds(52, low);
        if 1074 + k < 52 + low {
            lemma_pow2_strictly_increases(1074 + k, 52 + low);
        }
        lemma_pow2_adds(1074, k);
        assert(self.magnitude() >= one() * pow2(k));
        lemma_div_is_ordered((one() * pow2(k)) as int, self.magnitude() as int, one() as int);
        lemma_div_multiples_vanish(pow2(k) as int, one() as int);
        assert((one() * pow2(k)) as int == pow2(k) as int * one() as int) by {
            lemma_mul_is_commutative(one() as int, pow2(k) as int);
        }
    }

    /// Negation flips the sign and keeps everything else.
    pub proof fn lemma_negated(self)
        ensures
            self.negated().negative() == !self.negative(),
            self.negated().biased_exponent() == self.biased_exponent(),
            self.negated().fraction() == self.fraction(),
            self.negated().magnitude_bits() == self.magnitude_bits(),
            self.negated().is_nan() == self.is_nan(),
            self.negated().units() == -self.units(),
            self.negated().truncated() == -self.truncated(),
            self.negated().negated() == self,
    {
    }

    /// Wraps a bit pattern.
    pub fn from_bits(bits: u64) -> (value: Binary64)
        ensures
            value.bits == bits,
    {
        Binary64 { bits }
    }

    /// The bit pattern.
    pub fn to_bits(self) -> (bits: u64)
        ensures
            bits == self.bits,
    {
        self.bits
    }

    /// The value with the opposite sign.
    pub fn negate(self) -> (opposite: Binary64)
        ensures
            opposite == self.negated(),
    {
        if self.bits >= SIGN_BIT {
            Binary64 { bits: self.bits - SIGN_BIT }
        } else {
            Binary64 { bits: self.bits + SIGN_BIT }
        }
    }

    /// Converts to a 32-bit integer by dropping the fractional part, with
    /// saturation at the bounds and zero for a NaN.
    pub fn to_i32(self) -> (whole: i32)
        ensures
            whole == self.saturated(),
    {
        let negative = self.bits >= SIGN_BIT;
        let biased: u64 = (self.bits / HIDDEN_BIT) % 2048;
        let fraction: u64 = self.bits % HIDDEN_BIT;
        if biased == SPECIAL_EXPONENT {
            if fraction != 0 {
                0
            } else if negative {
                i32::MIN
            } else {
                i32::MAX
            }
        } else if biased < EXPONENT_BIAS {
            proof {
                self.lemma_whole_below_one();
            }
            0
        } else if biased >= EXPONENT_BIAS + 31 {
            proof {
                self.lemma_whole_at_least(31);
                lemma2_to64();
            }
            if negative {
                i32::MIN
            } else {
                i32::MAX
            }
        } else {
            let shift: u64 = 1075 - biased;
            let divisor: u64 = power_of_two(shift);
            let quotient: u64 = (fraction + HIDDEN_BIT) / divisor;
            proof {
                self.lemma_whole_shifted();
                lemma2_to64();
                if 22 < shift {
                    lemma_pow2_strictly_increases(22, shift as nat);
                }
                lemma_div_is_ordered_by_denominator(
                    (fraction + HIDDEN_BIT) as int,
                    pow2(22) as int,
                    divisor as int,
                );
            }
            if negative {
                -(quotient as i32)
            } else {
                quotient as i32
            }
        }
    }
}

/// The bit pattern of positive infinity: every magnitude above it is a NaN.
pub const INFINITY_BITS: u64 = 0x7ff0_0000_0000_0000;

/// A count `m` of parts of size `d` is at most `bound` wholes exactly when
/// its whole part is smaller, or equal with nothing left over.
pub proof fn lemma_compare_by_whole(m: nat, d: nat, bound: nat)
    requires
        d > 0,
    ensures
        (m <= bound * d) == (m / d < bound || (m / d == bound && m % d == 0)),
{
    let q = (m / d) as int;
    let r = (m % d) as int;
    lemma_fundamental_div_mod(m as int, d as int);
    lemma_mod_bound(m as int, d as int);
    assert(m == d * q + r);
    if q < bound {
        assert(d * q + r <= bound * d) by (nonlinear_arith)
            requires
                q + 1 <= bound,
                0 <= r < d,
        ;
    } else if q > bound {
        assert(d * q + r > bound * d) by (nonlinear_arith)
            requires
                q >= bound + 1,
                0 <= r,
                d > 0,
        ;
    } else {
        assert(d * q == bound * d) by (nonlinear_arith)
            requires
                q == bound,
        ;
    }
}

impl Binary64 {
    /// The pattern without its sign is the exponent bits above the fraction
    /// bits; it is zero only for a zero and exceeds that of infinity only
    /// for a NaN.
    pub proof fn lemma_magnitude_bits(self)
        ensures
            self.magnitude_bits() == self.biased_exponent() * HIDDEN_BIT + self.fraction(),
            self.is_nan() == (self.magnitude_bits() > INFINITY_BITS),
            self.is_infinite() == (self.magnitude_bits() == INFINITY_BITS),
            (self.magnitude() == 0) == (self.magnitude_bits() == 0),
    {
        let b = self.biased_exponent();
        if b > 0 {
            let low = (b - 1) as nat;
            lemma_pow2_pos(low);
            lemma_mul_strictly_positive(self.significand() as int, pow2(low) as int);
        }
    }

    /// Magnitudes are ordered as their bit patterns are.
    pub proof fn lemma_magnitude_ordered(self, other: Binary64)
        ensures
            self.magnitude_bits() < other.magnitude_bits() ==> self.magnitude()
                < other.magnitude(),
            self.magnitude_bits() == other.magnitude_bits() ==> self.magnitude()
                == other.magnitude(),
    {
        self.lemma_magnitude_bits();
        other.lemma_magnitude_bits();
        let ba = self.biased_exponent();
        let bb = other.biased_exponent();
        let hidden = HIDDEN_BIT as int;
        if self.magnitude_bits() < other.magnitude_bits() {
            assert(ba <= bb) by (nonlinear_arith)
                requires
                    ba * hidden + self.fraction() < bb * hidden + other.fraction(),
                    self.fraction() < hidden,
                    other.fraction() < hidden,
            ;
            if ba == bb {
                if ba > 0 {
                    let low = (ba - 1) as nat;
                    lemma_pow2_pos(low);
                    lemma_mul_strict_inequality(
                        self.significand() as int,
                        other.significand() as int,
                        pow2(low) as int,
                    );
                }
            } else {
                let high = (bb - 1) as nat;
                lemma_pow2_pos(high);
                // other.magnitude() >= 2^52 * 2^(bb-1)
                lemma_mul_inequality(hidden, other.significand() as int, pow2(high) as int);
                if ba == 0 {
                    lemma_mul_inequality(1, pow2(high) as int, hidden);
                    assert(hidden * pow2(high) == pow2(high) * hidden) by {
                        lemma_mul_is_commutative(hidden, pow2(high) as int);
                    }
                } else {
                    let low = (ba - 1) as nat;
                    lemma_pow2_pos(low);
                    // self.magnitude() < 2^53 * 2^(ba-1) = 2^52 * 2^ba <= 2^52 * 2^(bb-1)
                    lemma_mul_strict_inequality(
                        self.significand() as int,
                        2 * hidden,
                        pow2(low) as int,
                    );
                    lemma_pow2_unfold(ba);
                    assert((2 * hidden) * pow2(low) == hidden * pow2(ba)) by (nonlinear_arith)
                        requires
                            pow2(ba) == 2 * pow2(low),
                    ;
                    if ba < high {
                        lemma_pow2_strictly_increases(ba, high);
                    }
                    lemma_mul_left_inequality(hidden, pow2(ba) as int, pow2(high) as int);
                }
            }
        }
    }

    /// Truncation rounds toward zero: the whole part is the largest whole
    /// number that the absolute value reaches, whatever the sign.
    pub proof fn lemma_truncation_toward_zero(self)
        ensures
            self.whole() * one() <= self.magnitude() < (self.whole() + 1) * one(),
            self.negative() ==> self.truncated() == -(self.whole() as int),
            !self.negative() ==> self.truncated() == self.whole(),
    {
        let m = self.magnitude() as int;
        let d = one() as int;
        lemma_pow2_pos(1074);
        lemma_fundamental_div_mod(m, d);
        lemma_mod_bound(m, d);
        let q = m / d;
        assert(q * d == d * q && (q + 1) * d == d * q + d) by (nonlinear_arith);
    }

    /// Truncation keeps the order: of two ordered values, the lesser never
    /// converts to the greater integer.
    pub proof fn lemma_truncation_monotone(self, other: Binary64)
        requires
            self.le(other),
        ensures
            self.saturated() <= other.saturated(),
    {
        lemma_pow2_pos(1074);
        self.lemma_magnitude_bits();
        other.lemma_magnitude_bits();
        self.lemma_magnitude_ordered(other);
        other.lemma_magnitude_ordered(self);
        let d = one() as int;
        if self.negative() == other.negative() {
            if self.negative() {
                lemma_div_is_ordered(other.magnitude() as int, self.magnitude() as int, d);
            } else {
                lemma_div_is_ordered(self.magnitude() as int, other.magnitude() as int, d);
            }
        } else if !self.negative() {
            assert(self.magnitude() == 0 && other.magnitude() == 0);
            lemma_basic_div(0, d);
        }
    }

    /// Whether the value is at most the whole number `bound`.
    pub fn is_at_most(self, bound: u32) -> (within: bool)
        ensures
            within == self.at_most(bound as nat),
    {
        let negative = self.bits >= SIGN_BIT;
        let biased: u64 = (self.bits / HIDDEN_BIT) % 2048;
        let fraction: u64 = self.bits % HIDDEN_BIT;
        proof {
            lemma_pow2_pos(1074);
            lemma_mul_nonnegative(bound as int, one() as int);
            lemma_compare_by_whole(self.magnitude(), one(), bound as nat);
            lemma2_to64();
        }
        if biased == SPECIAL_EXPONENT {
            proof {
                self.lemma_whole_at_least(32);
            }
            fraction == 0 && negative
        } else if negative {
            true
        } else if biased < EXPONENT_BIAS {
            proof {
                self.lemma_whole_below_one();
                self.lemma_magnitude_bits();
                lemma_small_mod(self.magnitude(), one());
            }
            bound >= 1 || (biased == 0 && fraction == 0)
        } else if biased >= EXPONENT_BIAS + 32 {
            proof {
                self.lemma_whole_at_least(32);
            }
            false
        } else {
            let shift: u64 = 1075 - biased;
            let divisor: u64 = power_of_two(shift);
            let significand: u64 = fraction + HIDDEN_BIT;
            let quotient: u64 = significand / divisor;
            let dropped: u64 = significand % divisor;
            proof {
                self.lemma_whole_shifted();
            }
            quotient < bound as u64 || (quotient == bound as u64 && dropped == 0)
        }
    }

    /// Whether `self <= other` as IEEE 754 orders values.
    pub fn is_le(self, other: Binary64) -> (ordered: bool)
        ensures
            ordered == self.le(other),
    {
        let mine: u64 = self.bits % SIGN_BIT;
        let theirs: u64 = other.bits % SIGN_BIT;
        proof {
            self.lemma_magnitude_bits();
            other.lemma_magnitude_bits();
            self.lemma_magnitude_ordered(other);
            other.lemma_magnitude_ordered(self);
        }
        if mine > INFINITY_BITS || theirs > INFINITY_BITS {
            false
        } else if self.bits >= SIGN_BIT {
            if other.bits >= SIGN_BIT {
                theirs <= mine
            } else {
                true
            }
        } else if other.bits >= SIGN_BIT {
            mine == 0 && theirs == 0
        } else {
            mine <= theirs
        }
    }
}

/// `2^shift` as a machine word.
fn power_of_two(shift: u64) -> (power: u64)
    requires
        shift < 64,
    ensures
        power == pow2(shift as nat),
        power > 0,
{
    proof {
        lemma_u64_pow2_no_overflow(shift as nat);
        lemma_u64_shl_is_mul(1, shift);
    }
    1u64 << shift
}

} // verus!
