//! Doubles, held as the bits that define them.

use vstd::arithmetic::power2::{lemma_pow2_adds, lemma_pow2_pos, lemma_pow2_unfold, pow2};
use vstd::prelude::*;
use vstd::std_specs::cmp::PartialEqSpec;

verus! {

/// The weight of the sign bit.
pub const SIGN: u64 = 0x8000_0000_0000_0000;

/// The weight of the lowest bit of the exponent.
pub const EXPONENT_UNIT: u64 = 0x0010_0000_0000_0000;

/// A double, as the bits of IEEE 754's 64-bit format.
///
/// Bits rather than any decimal form: a number routed through text is a different number.
/// Equality is the format's own: a NaN equals nothing, itself included, and the two zeros are
/// equal.
#[derive(Debug, Clone, Copy)]
pub struct Double {
    /// The sign bit, the eleven bits of the exponent, and the fifty-two of the fraction.
    pub bits: u64,
}

impl Double {
    /// The bits without the sign.
    pub open spec fn unsigned(self) -> nat {
        (self.bits % SIGN) as nat
    }

    /// The exponent as it is stored.
    pub open spec fn exponent(self) -> nat {
        self.unsigned() / (EXPONENT_UNIT as nat)
    }

    /// The fraction as it is stored.
    pub open spec fn fraction(self) -> nat {
        self.unsigned() % (EXPONENT_UNIT as nat)
    }

    /// Whether the bits stand for a number at all, rather than an infinity or a NaN.
    pub open spec fn is_finite(self) -> bool {
        self.exponent() < 2047
    }

    /// Whether the bits stand for no number and no infinity.
    pub open spec fn is_nan(self) -> bool {
        self.exponent() == 2047 && self.fraction() != 0
    }

    /// The magnitude, in units of two to the minus 1075.
    ///
    /// An exponent of zero marks a number without the implied leading one, on the scale of an
    /// exponent of one.
    pub open spec fn scaled(self) -> nat {
        if self.exponent() == 0 {
            self.fraction() * pow2(1)
        } else {
            (EXPONENT_UNIT as nat + self.fraction()) * pow2(self.exponent())
        }
    }

    /// Whether this is a number whose magnitude is `bound` or less.
    pub open spec fn is_within(self, bound: nat) -> bool {
        self.is_finite() && self.scaled() <= bound * pow2(1075)
    }

    /// The double with these bits.
    pub fn from_bits(bits: u64) -> (double: Self)
        ensures
            double.bits == bits,
    {
        Double { bits }
    }

    /// The bits of this double.
    pub fn to_bits(&self) -> (bits: u64)
        ensures
            bits == self.bits,
    {
        self.bits
    }

    /// Whether this is a number from -180 to 180.
    pub fn is_within_180(&self) -> (within: bool)
        ensures
            within == self.is_within(180),
    {
        proof {
            lemma_order_of_bits(*self, 180, 1030, 45);
        }
        self.bits % SIGN <= 0x4066_8000_0000_0000
    }

    /// Whether this is a number from -90 to 90.
    pub fn is_within_90(&self) -> (within: bool)
        ensures
            within == self.is_within(90),
    {
        proof {
            lemma_order_of_bits(*self, 90, 1029, 46);
        }
        self.bits % SIGN <= 0x4056_8000_0000_0000
    }
}

impl PartialEq for Double {
    fn eq(&self, other: &Self) -> (same: bool) {
        let left: u64 = self.bits % SIGN;
        let right: u64 = other.bits % SIGN;
        if left > 0x7ff0_0000_0000_0000 || right > 0x7ff0_0000_0000_0000 {
            false
        } else {
            self.bits == other.bits || (left == 0 && right == 0)
        }
    }
}

impl vstd::std_specs::cmp::PartialEqSpecImpl for Double {
    open spec fn obeys_eq_spec() -> bool {
        true
    }

    open spec fn eq_spec(&self, other: &Self) -> bool {
        &&& !self.is_nan()
        &&& !other.is_nan()
        &&& self.bits == other.bits || (self.unsigned() == 0 && other.unsigned() == 0)
    }
}

/// Without their signs, doubles are ordered as their bits are, and a bound that has the leading
/// one shifted by `shift` and the exponent `exponent` is compared by its bits alone.
proof fn lemma_order_of_bits(double: Double, bound: nat, exponent: nat, shift: nat)
    requires
        bound == 180 && exponent == 1030 && shift == 45 || bound == 90 && exponent == 1029 && shift
            == 46,
    ensures
        double.is_within(bound) == (double.unsigned() <= exponent * (EXPONENT_UNIT as nat)
            + 0x0006_8000_0000_0000),
{
    let unit = EXPONENT_UNIT as nat;
    let lead: nat = unit + 0x0006_8000_0000_0000;
    let held = if double.exponent() == 0 {
        1
    } else {
        double.exponent()
    };
    let significand = if double.exponent() == 0 {
        double.fraction()
    } else {
        unit + double.fraction()
    };
    assert(bound * pow2(1075) == lead * pow2(exponent)) by {
        lemma_pow2_adds(shift, exponent);
        vstd::arithmetic::power2::lemma2_to64();
        vstd::arithmetic::power2::lemma2_to64_rest();
        assert(bound * pow2(shift) == lead);
        assert(bound * (pow2(shift) * pow2(exponent)) == (bound * pow2(shift)) * pow2(exponent))
            by (nonlinear_arith);
    }
    lemma_pow2_pos(held);
    lemma_pow2_pos(exponent);
    if held < exponent {
        lemma_pow2_adds(held, (exponent - held) as nat);
        lemma_pow2_unfold((exponent - held) as nat);
        lemma_pow2_pos((exponent - held - 1) as nat);
        let step = pow2((exponent - held - 1) as nat);
        assert(significand * pow2(held) <= lead * pow2(exponent)) by (nonlinear_arith)
            requires
                significand < 2 * unit,
                lead >= unit,
                step >= 1,
                pow2(held) > 0,
                pow2(exponent) == pow2(held) * (2 * step),
        ;
    } else if held == exponent {
        assert(significand <= lead <==> significand * pow2(exponent) <= lead * pow2(exponent))
            by (nonlinear_arith)
            requires
                pow2(exponent) > 0,
        ;
    } else {
        lemma_pow2_adds(exponent, (held - exponent) as nat);
        lemma_pow2_unfold((held - exponent) as nat);
        lemma_pow2_pos((held - exponent - 1) as nat);
        let step = pow2((held - exponent - 1) as nat);
        assert(significand * pow2(held) > lead * pow2(exponent)) by (nonlinear_arith)
            requires
                significand >= unit,
                lead < 2 * unit,
                step >= 1,
                pow2(exponent) > 0,
                pow2(held) == pow2(exponent) * (2 * step),
        ;
    }
}

/// Doubles that are no larger than a bound, whatever their sign, are those whose bits without the
/// sign are no more than the bound's own: infinities and what is not a number are larger than any.
pub proof fn law_bounds_are_compared_by_their_bits(double: Double)
    ensures
        double.is_within(180) <==> double.bits % 0x8000_0000_0000_0000
            <= 0x4066_8000_0000_0000,
        double.is_within(90) <==> double.bits % 0x8000_0000_0000_0000 <= 0x4056_8000_0000_0000,
{
    lemma_order_of_bits(double, 180, 1030, 45);
    lemma_order_of_bits(double, 90, 1029, 46);
}

/// What is not a number equals nothing, the two zeros equal each other, and every other double
/// equals only the one with the same bits.
pub proof fn law_doubles_are_equal_as_numbers(a: Double, b: Double)
    ensures
        a.is_nan() <==> a.bits % 0x8000_0000_0000_0000 > 0x7FF0_0000_0000_0000,
        a.is_finite() <==> a.bits % 0x8000_0000_0000_0000 < 0x7FF0_0000_0000_0000,
        a.is_nan() || b.is_nan() ==> !a.eq_spec(&b),
        a.bits % 0x8000_0000_0000_0000 == 0 && b.bits % 0x8000_0000_0000_0000 == 0 ==> a.eq_spec(
            &b,
        ),
        !a.is_nan() && !b.is_nan() && a.bits % 0x8000_0000_0000_0000 != 0 ==> (a.eq_spec(&b)
            <==> a.bits == b.bits),
        a.eq_spec(&b) == b.eq_spec(&a),
{
}

/// A double is the bits that it was made of, and is compared to its bounds by them.
pub proof fn law_doubles_are_their_bits(
    bits: u64,
    made: Double,
    held: u64,
    within_180: bool,
    within_90: bool,
)
    requires
        call_ensures(Double::from_bits, (bits,), made),
        call_ensures(Double::to_bits, (&made,), held),
        call_ensures(Double::is_within_180, (&made,), within_180),
        call_ensures(Double::is_within_90, (&made,), within_90),
    ensures
        made.bits == bits,
        held == bits,
        within_180 <==> bits % 0x8000_0000_0000_0000 <= 0x4066_8000_0000_0000,
        within_90 <==> bits % 0x8000_0000_0000_0000 <= 0x4056_8000_0000_0000,
{
    law_bounds_are_compared_by_their_bits(made);
}

}
