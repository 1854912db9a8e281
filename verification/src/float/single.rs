//! Numbers in single precision.
use vstd::prelude::*;

use super::rounding::Format;
use super::double::F64;

verus! {

/// A number in single precision, held as its bit pattern.
#[derive(Clone, Copy, Debug)]
pub struct F32 {
    pub bits: u32,
}

impl F32 {
    /// Not the pattern of a number.
    pub open spec fn nan(self) -> bool {
        Format::single().is_nan(self.bits as u64)
    }

    pub open spec fn finite(self) -> bool {
        Format::single().is_finite(self.bits as u64)
    }

    pub open spec fn infinite(self) -> bool {
        Format::single().is_infinite(self.bits as u64)
    }

    /// The value in units of the least subnormal.
    pub open spec fn value(self) -> int {
        Format::single().value(self.bits as u64)
    }

    pub open spec fn spec_from_bits(bits: u32) -> F32 {
        F32 { bits }
    }

    /// The number with the given pattern.
    #[verifier::when_used_as_spec(spec_from_bits)]
    pub fn from_bits(bits: u32) -> (r: F32)
        ensures
            r == F32::from_bits(bits),
    {
        F32 { bits }
    }

    /// The pattern.
    pub fn to_bits(self) -> (r: u32)
        ensures
            r == self.bits,
    {
        self.bits
    }

    #[verifier::opaque]
    pub open spec fn spec_plus(self, other: F32) -> F32 {
        F32 { bits: (Format::single().sum(self.bits as u64, other.bits as u64)) as u32 }
    }

    /// `self + other`.
    #[verifier::when_used_as_spec(spec_plus)]
    pub fn plus(self, other: F32) -> (r: F32)
        ensures
            r == self.plus(other),
    {
        proof {
            reveal(F32::spec_plus);
        }
        F32 { bits: Format::single().plus(self.bits as u64, other.bits as u64) as u32 }
    }

    #[verifier::opaque]
    pub open spec fn spec_times(self, other: F32) -> F32 {
        F32 { bits: (Format::single().product(self.bits as u64, other.bits as u64)) as u32 }
    }

    /// `self * other`.
    #[verifier::when_used_as_spec(spec_times)]
    pub fn times(self, other: F32) -> (r: F32)
        ensures
            r == self.times(other),
    {
        proof {
            reveal(F32::spec_times);
        }
        F32 { bits: Format::single().times(self.bits as u64, other.bits as u64) as u32 }
    }

    #[verifier::opaque]
    pub open spec fn spec_over(self, other: F32) -> F32 {
        F32 { bits: (Format::single().quotient(self.bits as u64, other.bits as u64)) as u32 }
    }

    /// `self / other`.
    #[verifier::when_used_as_spec(spec_over)]
    pub fn over(self, other: F32) -> (r: F32)
        ensures
            r == self.over(other),
    {
        proof {
            reveal(F32::spec_over);
        }
        F32 { bits: Format::single().over(self.bits as u64, other.bits as u64) as u32 }
    }

    #[verifier::opaque]
    pub open spec fn spec_sqrt(self) -> F32 {
        F32 { bits: (Format::single().root(self.bits as u64)) as u32 }
    }

    /// The square root.
    #[verifier::when_used_as_spec(spec_sqrt)]
    pub fn sqrt(self) -> (r: F32)
        ensures
            r == self.sqrt(),
    {
        proof {
            reveal(F32::spec_sqrt);
        }
        F32 { bits: Format::single().sqrt(self.bits as u64) as u32 }
    }

    pub open spec fn spec_negated(self) -> F32 {
        if self.bits < 0x8000_0000 {
            F32 { bits: (self.bits + 0x8000_0000) as u32 }
        } else {
            F32 { bits: (self.bits - 0x8000_0000) as u32 }
        }
    }

    /// `-self`: the other sign bit.
    #[verifier::when_used_as_spec(spec_negated)]
    pub fn negated(self) -> (r: F32)
        ensures
            r == self.negated(),
    {
        if self.bits < 0x8000_0000 {
            F32 { bits: self.bits + 0x8000_0000 }
        } else {
            F32 { bits: self.bits - 0x8000_0000 }
        }
    }

    pub open spec fn spec_abs(self) -> F32 {
        if self.bits < 0x8000_0000 {
            self
        } else {
            F32 { bits: (self.bits - 0x8000_0000) as u32 }
        }
    }

    /// The absolute value: the sign bit cleared.
    #[verifier::when_used_as_spec(spec_abs)]
    pub fn abs(self) -> (r: F32)
        ensures
            r == self.abs(),
    {
        if self.bits < 0x8000_0000 {
            self
        } else {
            F32 { bits: self.bits - 0x8000_0000 }
        }
    }

    pub open spec fn spec_minus(self, other: F32) -> F32 {
        self.plus(other.negated())
    }

    /// `self - other`.
    #[verifier::when_used_as_spec(spec_minus)]
    pub fn minus(self, other: F32) -> (r: F32)
        ensures
            r == self.minus(other),
    {
        self.plus(other.negated())
    }

    #[verifier::opaque]
    pub open spec fn spec_less(self, other: F32) -> bool {
        Format::single().below(self.bits as u64, other.bits as u64)
    }

    /// `self < other`.
    #[verifier::when_used_as_spec(spec_less)]
    pub fn less(self, other: F32) -> (r: bool)
        ensures
            r == self.less(other),
    {
        proof {
            reveal(F32::spec_less);
        }
        Format::single().less(self.bits as u64, other.bits as u64)
    }

    #[verifier::opaque]
    pub open spec fn spec_at_most(self, other: F32) -> bool {
        Format::single().at_most(self.bits as u64, other.bits as u64)
    }

    /// `self <= other`.
    #[verifier::when_used_as_spec(spec_at_most)]
    pub fn at_most(self, other: F32) -> (r: bool)
        ensures
            r == self.at_most(other),
    {
        proof {
            reveal(F32::spec_at_most);
        }
        Format::single().less_or_equal(self.bits as u64, other.bits as u64)
    }

    /// Neither an infinity nor a pattern without a value.
    pub fn is_finite(self) -> (r: bool)
        ensures
            r == self.finite(),
    {
        Format::single().unsigned(self.bits as u64) < Format::single().infinity
    }

    pub fn is_infinite(self) -> (r: bool)
        ensures
            r == self.infinite(),
    {
        Format::single().unsigned(self.bits as u64) == Format::single().infinity
    }

    pub fn is_nan(self) -> (r: bool)
        ensures
            r == self.nan(),
    {
        Format::single().unsigned(self.bits as u64) > Format::single().infinity
    }

    #[verifier::opaque]
    pub open spec fn spec_from_usize(n: usize) -> F32 {
        F32 { bits: (Format::single().of_whole(n as nat)) as u32 }
    }

    /// The number nearest to `n`.
    #[verifier::when_used_as_spec(spec_from_usize)]
    pub fn from_usize(n: usize) -> (r: F32)
        ensures
            r == F32::from_usize(n),
    {
        proof {
            reveal(F32::spec_from_usize);
        }
        F32 { bits: Format::single().from_whole(n as u64) as u32 }
    }

    #[verifier::opaque]
    pub open spec fn spec_to_double(self) -> F64 {
        F64 { bits: Format::single().converted(Format::double(), self.bits as u64) }
    }

    /// The nearest number in double precision.
    #[verifier::when_used_as_spec(spec_to_double)]
    pub fn to_double(self) -> (r: F64)
        ensures
            r == self.to_double(),
    {
        proof {
            reveal(F32::spec_to_double);
        }
        F64 { bits: Format::single().convert(Format::double(), self.bits as u64) }
    }
}

/// The square of a difference does not depend on which number is taken from
/// which.
pub proof fn squared_gaps_commute(a: F32, b: F32)
    ensures
        a.minus(b).times(a.minus(b)) == b.minus(a).times(b.minus(a)),
{
    let f = Format::single();
    reveal(F32::spec_plus);
    reveal(F32::spec_times);
    let (x, y) = (a.minus(b), b.minus(a));
    let gap = a.value() - b.value();
    if a.finite() && b.finite() {
        f.lemma_signed(true, 0);
        f.lemma_signed(false, 0);
        if gap > 0 {
            f.lemma_rounded_bound(gap as nat, 1);
            f.lemma_signed(true, f.rounded(gap as nat, 1));
            f.lemma_signed(false, f.rounded(gap as nat, 1));
        } else if gap < 0 {
            f.lemma_rounded_bound((-gap) as nat, 1);
            f.lemma_signed(true, f.rounded((-gap) as nat, 1));
            f.lemma_signed(false, f.rounded((-gap) as nat, 1));
        }
    }
    assert(f.encoded(x.bits as u64) == f.encoded(y.bits as u64));
}

} // verus!
