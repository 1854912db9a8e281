//! Numbers in double precision.
use vstd::arithmetic::power2::*;
use vstd::prelude::*;

use super::rounding::Format;
use super::single::F32;

verus! {

/// A number in double precision, held as its bit pattern.
#[derive(Clone, Copy, Debug)]
pub struct F64 {
    pub bits: u64,
}

impl F64 {
    /// Not the pattern of a number.
    pub open spec fn nan(self) -> bool {
        Format::double().is_nan(self.bits)
    }

    pub open spec fn finite(self) -> bool {
        Format::double().is_finite(self.bits)
    }

    pub open spec fn infinite(self) -> bool {
        Format::double().is_infinite(self.bits)
    }

    /// The value in units of the least subnormal.
    pub open spec fn value(self) -> int {
        Format::double().value(self.bits)
    }

    pub open spec fn spec_from_bits(bits: u64) -> F64 {
        F64 { bits }
    }

    /// The number with the given pattern.
    #[verifier::when_used_as_spec(spec_from_bits)]
    pub fn from_bits(bits: u64) -> (r: F64)
        ensures
            r == F64::from_bits(bits),
    {
        F64 { bits }
    }

    /// The pattern.
    pub fn to_bits(self) -> (r: u64)
        ensures
            r == self.bits,
    {
        self.bits
    }

    #[verifier::opaque]
    pub open spec fn spec_plus(self, other: F64) -> F64 {
        F64 { bits: Format::double().sum(self.bits, other.bits) }
    }

    /// `self + other`.
    #[verifier::when_used_as_spec(spec_plus)]
    pub fn plus(self, other: F64) -> (r: F64)
        ensures
            r == self.plus(other),
    {
        proof {
            reveal(F64::spec_plus);
        }
        F64 { bits: Format::double().plus(self.bits, other.bits) }
    }

    #[verifier::opaque]
    pub open spec fn spec_times(self, other: F64) -> F64 {
        F64 { bits: Format::double().product(self.bits, other.bits) }
    }

    /// `self * other`.
    #[verifier::when_used_as_spec(spec_times)]
    pub fn times(self, other: F64) -> (r: F64)
        ensures
            r == self.times(other),
    {
        proof {
            reveal(F64::spec_times);
        }
        F64 { bits: Format::double().times(self.bits, other.bits) }
    }

    #[verifier::opaque]
    pub open spec fn spec_over(self, other: F64) -> F64 {
        F64 { bits: Format::double().quotient(self.bits, other.bits) }
    }

    /// `self / other`.
    #[verifier::when_used_as_spec(spec_over)]
    pub fn over(self, other: F64) -> (r: F64)
        ensures
            r == self.over(other),
    {
        proof {
            reveal(F64::spec_over);
        }
        F64 { bits: Format::double().over(self.bits, other.bits) }
    }

    #[verifier::opaque]
    pub open spec fn spec_rem(self, other: F64) -> F64 {
        F64 { bits: Format::double().remainder(self.bits, other.bits) }
    }

    /// `self % other`.
    #[verifier::when_used_as_spec(spec_rem)]
    pub fn rem(self, other: F64) -> (r: F64)
        ensures
            r == self.rem(other),
    {
        proof {
            reveal(F64::spec_rem);
        }
        F64 { bits: Format::double().rem(self.bits, other.bits) }
    }

    #[verifier::opaque]
    pub open spec fn spec_sqrt(self) -> F64 {
        F64 { bits: Format::double().root(self.bits) }
    }

    /// The square root.
    #[verifier::when_used_as_spec(spec_sqrt)]
    pub fn sqrt(self) -> (r: F64)
        ensures
            r == self.sqrt(),
    {
        proof {
            reveal(F64::spec_sqrt);
        }
        F64 { bits: Format::double().sqrt(self.bits) }
    }

    pub open spec fn spec_negated(self) -> F64 {
        if self.bits < 0x8000_0000_0000_0000 {
            F64 { bits: (self.bits + 0x8000_0000_0000_0000) as u64 }
        } else {
            F64 { bits: (self.bits - 0x8000_0000_0000_0000) as u64 }
        }
    }

    /// `-self`: the other sign bit.
    #[verifier::when_used_as_spec(spec_negated)]
    pub fn negated(self) -> (r: F64)
        ensures
            r == self.negated(),
    {
        if self.bits < 0x8000_0000_0000_0000 {
            F64 { bits: self.bits + 0x8000_0000_0000_0000 }
        } else {
            F64 { bits: self.bits - 0x8000_0000_0000_0000 }
        }
    }

    pub open spec fn spec_abs(self) -> F64 {
        if self.bits < 0x8000_0000_0000_0000 {
            self
        } else {
            F64 { bits: (self.bits - 0x8000_0000_0000_0000) as u64 }
        }
    }

    /// The absolute value: the sign bit cleared.
    #[verifier::when_used_as_spec(spec_abs)]
    pub fn abs(self) -> (r: F64)
        ensures
            r == self.abs(),
    {
        if self.bits < 0x8000_0000_0000_0000 {
            self
        } else {
            F64 { bits: self.bits - 0x8000_0000_0000_0000 }
        }
    }

    pub open spec fn spec_minus(self, other: F64) -> F64 {
        self.plus(other.negated())
    }

    /// `self - other`.
    #[verifier::when_used_as_spec(spec_minus)]
    pub fn minus(self, other: F64) -> (r: F64)
        ensures
            r == self.minus(other),
    {
        self.plus(other.negated())
    }

    #[verifier::opaque]
    pub open spec fn spec_less(self, other: F64) -> bool {
        Format::double().below(self.bits, other.bits)
    }

    /// `self < other`.
    #[verifier::when_used_as_spec(spec_less)]
    pub fn less(self, other: F64) -> (r: bool)
        ensures
            r == self.less(other),
    {
        proof {
            reveal(F64::spec_less);
        }
        Format::double().less(self.bits, other.bits)
    }

    #[verifier::opaque]
    pub open spec fn spec_at_most(self, other: F64) -> bool {
        Format::double().at_most(self.bits, other.bits)
    }

    /// `self <= other`.
    #[verifier::when_used_as_spec(spec_at_most)]
    pub fn at_most(self, other: F64) -> (r: bool)
        ensures
            r == self.at_most(other),
    {
        proof {
            reveal(F64::spec_at_most);
        }
        Format::double().less_or_equal(self.bits, other.bits)
    }

    /// Neither an infinity nor a pattern without a value.
    pub fn is_finite(self) -> (r: bool)
        ensures
            r == self.finite(),
    {
        Format::double().unsigned(self.bits) < Format::double().infinity
    }

    /// Zero of either sign.
    pub open spec fn zero(self) -> bool {
        Format::double().is_zero(self.bits)
    }

    pub fn is_zero(self) -> (r: bool)
        ensures
            r == self.zero(),
    {
        Format::double().unsigned(self.bits) == 0
    }

    pub fn is_infinite(self) -> (r: bool)
        ensures
            r == self.infinite(),
    {
        Format::double().unsigned(self.bits) == Format::double().infinity
    }

    pub fn is_nan(self) -> (r: bool)
        ensures
            r == self.nan(),
    {
        Format::double().unsigned(self.bits) > Format::double().infinity
    }

    #[verifier::opaque]
    pub open spec fn spec_from_usize(n: usize) -> F64 {
        F64 { bits: Format::double().of_whole(n as nat) }
    }

    /// The number nearest to `n`.
    #[verifier::when_used_as_spec(spec_from_usize)]
    pub fn from_usize(n: usize) -> (r: F64)
        ensures
            r == F64::from_usize(n),
    {
        proof {
            reveal(F64::spec_from_usize);
        }
        F64 { bits: Format::double().from_whole(n as u64) }
    }

    #[verifier::opaque]
    pub open spec fn spec_to_single(self) -> F32 {
        F32 { bits: (Format::double().converted(Format::single(), self.bits)) as u32 }
    }

    /// The nearest number in single precision.
    #[verifier::when_used_as_spec(spec_to_single)]
    pub fn to_single(self) -> (r: F32)
        ensures
            r == self.to_single(),
    {
        proof {
            reveal(F64::spec_to_single);
        }
        F32 { bits: Format::double().convert(Format::single(), self.bits) as u32 }
    }

    pub open spec fn spec_max(self, other: F64) -> F64 {
        if self.nan() {
            other
        } else if self.less(other) {
            other
        } else {
            self
        }
    }

    /// The larger of two numbers; one that has no value gives way.
    #[verifier::when_used_as_spec(spec_max)]
    pub fn max(self, other: F64) -> (r: F64)
        ensures
            r == self.max(other),
    {
        if self.is_nan() || self.less(other) {
            other
        } else {
            self
        }
    }

    #[verifier::opaque]
    pub open spec fn spec_to_usize(self) -> usize {
        Format::double().cut(self.bits)
    }

    /// The value cut towards zero, held to the range of `usize`.
    #[verifier::when_used_as_spec(spec_to_usize)]
    pub fn to_usize(self) -> (r: usize)
        ensures
            r == self.to_usize(),
    {
        proof {
            reveal(F64::spec_to_usize);
        }
        Format::double().to_usize(self.bits)
    }

    #[verifier::opaque]
    pub open spec fn spec_floor_to_i32(self) -> i32 {
        Format::double().floor_i32(self.bits)
    }

    /// The floor, held to the range of `i32`.
    #[verifier::when_used_as_spec(spec_floor_to_i32)]
    pub fn floor_to_i32(self) -> (r: i32)
        ensures
            r == self.floor_to_i32(),
    {
        proof {
            reveal(F64::spec_floor_to_i32);
        }
        Format::double().floor_to_i32(self.bits)
    }
}

/// The zeros are the finite numbers without value.
pub proof fn zero_has_no_value(a: F64)
    requires
        a.finite(),
    ensures
        a.zero() == (a.value() == 0),
{
    let f = Format::double();
    f.lemma_zero();
    if f.encoded(a.bits) > 0 {
        f.lemma_monotone(0, f.encoded(a.bits));
    }
}

/// Adding nothing keeps the value.
pub proof fn zero_is_neutral(a: F64, zero: F64)
    requires
        a.finite(),
        zero.zero(),
    ensures
        a.plus(zero).finite(),
        a.plus(zero).value() == a.value(),
        zero.plus(a).finite(),
        zero.plus(a).value() == a.value(),
{
    let f = Format::double();
    reveal(F64::spec_plus);
    f.lemma_zero();
    f.rounding_keeps_numbers(f.encoded(a.bits));
    f.lemma_signed(true, f.encoded(a.bits));
    f.lemma_signed(false, f.encoded(a.bits));
    f.lemma_signed(true, 0);
    f.lemma_signed(false, 0);
}

/// Nothing times a number is nothing.
pub proof fn zero_absorbs(a: F64, zero: F64)
    requires
        a.finite(),
        zero.zero(),
    ensures
        a.times(zero).zero(),
        zero.times(a).zero(),
{
    let f = Format::double();
    reveal(F64::spec_times);
    f.lemma_zero();
    lemma_pow2_pos(1074);
    let q = f.lemma_quantum_exists(0, 1);
    f.lemma_rounded_equal(q, 0, 1, 0, pow2(1074));
    assert(f.size(a.bits) * f.size(zero.bits) == 0) by (nonlinear_arith)
        requires
            f.size(zero.bits) == 0,
    ;
    assert(f.size(zero.bits) * f.size(a.bits) == 0) by (nonlinear_arith)
        requires
            f.size(zero.bits) == 0,
    ;
    f.lemma_signed(true, 0);
    f.lemma_signed(false, 0);
}

/// The pattern of 1.0 stands for one unit.
pub proof fn lemma_one()
    ensures
        Format::double().size(0x3ff0_0000_0000_0000) == pow2(1074),
{
    lemma2_to64_rest();
    lemma_pow2_adds(52, 1022);
    assert(0x3ff0_0000_0000_0000nat / 0x10_0000_0000_0000 == 1023);
}

/// One times a number is the number.
pub proof fn one_is_neutral(a: F64)
    requires
        a.finite(),
    ensures
        a.times(F64::from_bits(0x3ff0_0000_0000_0000)) == a,
        F64::from_bits(0x3ff0_0000_0000_0000).times(a) == a,
{
    let f = Format::double();
    let unit = pow2(1074);
    let size = f.size(a.bits);
    reveal(F64::spec_times);
    lemma_one();
    lemma_pow2_pos(1074);
    f.rounding_keeps_numbers(f.encoded(a.bits));
    let q = f.lemma_quantum_exists(size, 1);
    assert(size * unit == (size * unit) * 1) by (nonlinear_arith);
    f.lemma_rounded_equal(q, size, 1, size * unit, unit);
    assert(unit * size == size * unit) by (nonlinear_arith);
}

/// The order of two factors does not matter.
pub proof fn products_commute(a: F64, b: F64)
    ensures
        a.times(b) == b.times(a),
{
    let f = Format::double();
    reveal(F64::spec_times);
    vstd::arithmetic::mul::lemma_mul_is_commutative(
        f.size(a.bits) as int,
        f.size(b.bits) as int,
    );
}

/// The order of two summands does not matter.
pub proof fn sums_commute(a: F64, b: F64)
    ensures
        a.plus(b) == b.plus(a),
{
    reveal(F64::spec_plus);
}

} // verus!
