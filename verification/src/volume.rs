//! Quote volumes as IEEE-754 binary64 bit patterns.
//!
//! A pattern has a sign bit, an eleven-bit exponent field and a fifty-two-bit
//! fraction field. The number that a finite pattern encodes is a multiple of
//! 2^-1074; `scaled_value` is that number multiplied by 2^1074, an integer,
//! and every ordering in this crate is stated over it. The two infinities get
//! scaled values beyond those of all finite patterns, and a NaN compares with
//! nothing.

use vstd::prelude::*;
use vstd::arithmetic::power2::*;
use vstd::arithmetic::mul::*;

verus! {

/// Two to the power 63: the weight of the sign bit.
pub const SIGN_WEIGHT: u64 = 0x8000_0000_0000_0000;

/// Two to the power 52: the weight of the lowest bit of the exponent field.
pub const EXPONENT_UNIT: u64 = 0x0010_0000_0000_0000;

/// The magnitude of the two infinities. Every larger magnitude is a NaN.
pub const INFINITY_MAGNITUDE: u64 = 0x7ff0_0000_0000_0000;

/// A quote volume, held as the bit pattern of a binary64 number.
#[derive(Clone, Copy, Debug)]
pub struct Volume {
    pub bits: u64,
}

impl Volume {
    /// The pattern without its sign bit.
    pub open spec fn magnitude(self) -> int {
        self.bits as int % (SIGN_WEIGHT as int)
    }

    /// Whether the sign bit is set.
    pub open spec fn is_negative(self) -> bool {
        self.bits >= SIGN_WEIGHT
    }

    /// The exponent field, between 0 and 2047.
    pub open spec fn exponent_field(self) -> int {
        self.magnitude() / (EXPONENT_UNIT as int)
    }

    /// The fraction field, below 2^52.
    pub open spec fn fraction_field(self) -> int {
        self.magnitude() % (EXPONENT_UNIT as int)
    }

    /// The significand as an integer: the fraction field, with the implicit
    /// leading bit added unless the pattern is subnormal or zero.
    pub open spec fn significand(self) -> int {
        if self.exponent_field() == 0 {
            self.fraction_field()
        } else {
            EXPONENT_UNIT as int + self.fraction_field()
        }
    }

    /// The power of two by which the significand is multiplied in
    /// `scaled_magnitude`. Subnormal patterns share the scale of the
    /// smallest normal ones.
    pub open spec fn scale(self) -> nat {
        if self.exponent_field() == 0 {
            0
        } else {
            (self.exponent_field() - 1) as nat
        }
    }

    /// The absolute value of the encoded number, multiplied by 2^1074.
    pub open spec fn scaled_magnitude(self) -> int {
        self.significand() * pow2(self.scale())
    }

    /// The encoded number, multiplied by 2^1074. Both zeros give 0.
    pub open spec fn scaled_value(self) -> int {
        if self.is_negative() {
            -self.scaled_magnitude()
        } else {
            self.scaled_magnitude()
        }
    }

    /// Whether the pattern is a NaN: exponent field all ones, fraction not zero.
    pub open spec fn spec_is_nan(&self) -> bool {
        self.magnitude() > INFINITY_MAGNITUDE as int
    }

    /// Whether the pattern encodes a number: neither an infinity nor a NaN.
    pub open spec fn spec_is_finite(&self) -> bool {
        self.magnitude() < INFINITY_MAGNITUDE as int
    }

    /// The comparison `self >= other` of binary64 numbers: false as soon as
    /// one side is a NaN, and otherwise the order of the encoded numbers.
    pub open spec fn spec_at_least(&self, other: &Volume) -> bool {
        &&& !self.spec_is_nan()
        &&& !other.spec_is_nan()
        &&& self.scaled_value() >= other.scaled_value()
    }

    /// The order in which volumes are ranked: larger numbers first, and NaNs,
    /// which are all tied, after every number.
    pub open spec fn spec_ranks_at_or_above(&self, other: &Volume) -> bool {
        other.spec_is_nan() || self.spec_at_least(other)
    }

    /// An integer that orders patterns as `spec_ranks_at_or_above` does:
    /// 0 for a NaN, and otherwise 2^63 plus or minus the magnitude.
    pub open spec fn spec_rank_key(&self) -> u64 {
        if self.spec_is_nan() {
            0
        } else if self.is_negative() {
            (SIGN_WEIGHT - self.magnitude()) as u64
        } else {
            (SIGN_WEIGHT + self.magnitude()) as u64
        }
    }

    /// Wraps a bit pattern. Every pattern is accepted, NaNs included.
    pub fn from_bits(bits: u64) -> (v: Volume)
        ensures
            v.bits == bits,
    {
        Volume { bits }
    }

    /// The bit pattern.
    pub fn to_bits(&self) -> (bits: u64)
        ensures
            bits == self.bits,
    {
        self.bits
    }

    #[verifier::when_used_as_spec(spec_is_nan)]
    pub fn is_nan(&self) -> (r: bool)
        ensures
            r == self.spec_is_nan(),
    {
        self.bits % SIGN_WEIGHT > INFINITY_MAGNITUDE
    }

    #[verifier::when_used_as_spec(spec_is_finite)]
    pub fn is_finite(&self) -> (r: bool)
        ensures
            r == self.spec_is_finite(),
    {
        self.bits % SIGN_WEIGHT < INFINITY_MAGNITUDE
    }

    /// Computes the rank key. It is 0 exactly for the NaNs.
    #[verifier::when_used_as_spec(spec_rank_key)]
    pub fn rank_key(&self) -> (key: u64)
        ensures
            key == self.spec_rank_key(),
            key == 0 <==> self.spec_is_nan(),
    {
        let magnitude: u64 = self.bits % SIGN_WEIGHT;
        if magnitude > INFINITY_MAGNITUDE {
            0
        } else if self.bits >= SIGN_WEIGHT {
            SIGN_WEIGHT - magnitude
        } else {
            SIGN_WEIGHT + magnitude
        }
    }

    /// Decides `self >= other` on the bit patterns.
    #[verifier::when_used_as_spec(spec_at_least)]
    pub fn at_least(&self, other: &Volume) -> (r: bool)
        ensures
            r == self.spec_at_least(other),
    {
        proof {
            lemma_rank_key_orders(*self, *other);
        }
        !self.is_nan() && !other.is_nan() && self.rank_key() >= other.rank_key()
    }

    /// Decides the ranking order on the bit patterns.
    #[verifier::when_used_as_spec(spec_ranks_at_or_above)]
    pub fn ranks_at_or_above(&self, other: &Volume) -> (r: bool)
        ensures
            r == self.spec_ranks_at_or_above(other),
    {
        proof {
            lemma_rank_key_orders(*self, *other);
        }
        self.rank_key() >= other.rank_key()
    }
}

/// A larger magnitude encodes a number of larger absolute value.
pub proof fn lemma_scaled_magnitude_increases(a: Volume, b: Volume)
    requires
        a.magnitude() < b.magnitude(),
    ensures
        0 <= a.scaled_magnitude() < b.scaled_magnitude(),
{
    let unit = EXPONENT_UNIT as int;
    let pa = pow2(a.scale()) as int;
    let pb = pow2(b.scale()) as int;
    let sa = a.significand();
    let sb = b.significand();
    lemma_pow2_pos(a.scale());
    lemma_pow2_pos(b.scale());
    assert(0 <= sa * pa) by (nonlinear_arith)
        requires
            0 <= sa,
            0 < pa,
    ;
    if a.exponent_field() == b.exponent_field() {
        // One scale for both: the significands decide.
        assert(sa * pa < sb * pa) by (nonlinear_arith)
            requires
                sa < sb,
                0 < pa,
        ;
    } else {
        assert(unit * pb <= sb * pb) by (nonlinear_arith)
            requires
                unit <= sb,
                0 < pb,
        ;
        if a.exponent_field() == 0 {
            // `a` is zero or subnormal and stays below 2^52; `b` is normal.
            lemma2_to64();
            assert(sa * pa == sa) by (nonlinear_arith)
                requires
                    pa == 1,
            ;
            assert(unit <= unit * pb) by (nonlinear_arith)
                requires
                    0 < unit,
                    1 <= pb,
            ;
        } else {
            // `a` stays below 2^53 times its power of two, and the power of
            // two of `b` is at least twice as large.
            assert(sa * pa < (2 * unit) * pa) by (nonlinear_arith)
                requires
                    sa < 2 * unit,
                    0 < pa,
            ;
            lemma_pow2_unfold(a.scale() + 1);
            let pn = pow2(a.scale() + 1) as int;
            if a.scale() + 1 < b.scale() {
                lemma_pow2_strictly_increases(a.scale() + 1, b.scale());
            }
            assert((2 * unit) * pa == unit * pn) by (nonlinear_arith)
                requires
                    pn == 2 * pa,
            ;
            assert(unit * pn <= unit * pb) by (nonlinear_arith)
                requires
                    pn <= pb,
                    0 < unit,
            ;
        }
    }
}

/// Magnitude 0 encodes zero, and every other magnitude a number that is not
/// zero.
pub proof fn lemma_scaled_magnitude_sign(a: Volume)
    ensures
        a.magnitude() == 0 ==> a.scaled_magnitude() == 0,
        a.magnitude() != 0 ==> a.scaled_magnitude() > 0,
{
    let zero = Volume { bits: 0 };
    assert(zero.significand() * pow2(zero.scale()) == 0) by (nonlinear_arith)
        requires
            zero.significand() == 0,
    ;
    if a.magnitude() != 0 {
        lemma_scaled_magnitude_increases(zero, a);
    }
}

/// Among patterns that are not NaNs, the rank key orders as the encoded
/// numbers do. With a NaN on either side, the key of the NaN is the smaller
/// one, or both are 0.
pub proof fn lemma_rank_key_orders(a: Volume, b: Volume)
    ensures
        !a.spec_is_nan() && !b.spec_is_nan() ==> (a.spec_rank_key() >= b.spec_rank_key()
            <==> a.scaled_value() >= b.scaled_value()),
        a.spec_rank_key() >= b.spec_rank_key() <==> a.spec_ranks_at_or_above(&b),
        a.spec_is_nan() <==> a.spec_rank_key() == 0,
{
    if a.magnitude() < b.magnitude() {
        lemma_scaled_magnitude_increases(a, b);
    }
    if b.magnitude() < a.magnitude() {
        lemma_scaled_magnitude_increases(b, a);
    }
    lemma_scaled_magnitude_sign(a);
    lemma_scaled_magnitude_sign(b);
}

} // verus!
