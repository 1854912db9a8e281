//! The arithmetic of a binary interchange format, on bit patterns.
//!
//! Each operation is stated as the exact result, rounded once to the nearest
//! value of the format with ties to even. Patterns that stand for no number
//! are all answered by one quiet pattern.
use vstd::arithmetic::div_mod::*;
use vstd::arithmetic::mul::*;
use vstd::arithmetic::power2::*;
use vstd::prelude::*;

use super::rounding::{bit_length, power, Format};

verus! {

impl Format {
    /// The weight of the sign bit.
    pub open spec fn sign_weight(self) -> nat {
        (self.infinity + self.half) as nat
    }

    /// `bits` is a pattern of the format.
    pub open spec fn fits(self, bits: u64) -> bool {
        bits < 2 * self.sign_weight()
    }

    pub open spec fn negative(self, bits: u64) -> bool {
        bits >= self.sign_weight()
    }

    /// The pattern without its sign bit.
    pub open spec fn encoded(self, bits: u64) -> nat {
        if self.negative(bits) {
            (bits - self.sign_weight()) as nat
        } else {
            bits as nat
        }
    }

    pub open spec fn is_nan(self, bits: u64) -> bool {
        self.encoded(bits) > self.infinity
    }

    pub open spec fn is_infinite(self, bits: u64) -> bool {
        self.encoded(bits) == self.infinity
    }

    pub open spec fn is_finite(self, bits: u64) -> bool {
        self.encoded(bits) < self.infinity
    }

    pub open spec fn is_zero(self, bits: u64) -> bool {
        self.encoded(bits) == 0
    }

    /// The size of a pattern in units of the least subnormal. For the
    /// infinities it exceeds the size of every finite pattern.
    pub open spec fn size(self, bits: u64) -> nat {
        self.magnitude(self.encoded(bits))
    }

    /// The signed size.
    pub open spec fn value(self, bits: u64) -> int {
        if self.negative(bits) {
            -(self.size(bits) as int)
        } else {
            self.size(bits) as int
        }
    }

    /// The pattern with the given sign and encoded magnitude.
    pub open spec fn signed(self, negative: bool, encoded: nat) -> u64 {
        if negative {
            (self.sign_weight() + encoded) as u64
        } else {
            encoded as u64
        }
    }

    /// The pattern that answers an operation without a result.
    pub open spec fn nan(self) -> u64 {
        (self.infinity + self.half / 2) as u64
    }

    /// Addition.
    pub open spec fn sum(self, a: u64, b: u64) -> u64 {
        if self.is_nan(a) || self.is_nan(b) {
            self.nan()
        } else if self.is_infinite(a) {
            if self.is_infinite(b) && self.negative(a) != self.negative(b) {
                self.nan()
            } else {
                a
            }
        } else if self.is_infinite(b) {
            b
        } else {
            let exact = self.value(a) + self.value(b);
            if exact == 0 {
                self.signed(self.negative(a) && self.negative(b), 0)
            } else if exact < 0 {
                self.signed(true, self.rounded((-exact) as nat, 1))
            } else {
                self.signed(false, self.rounded(exact as nat, 1))
            }
        }
    }

    /// Multiplication.
    pub open spec fn product(self, a: u64, b: u64) -> u64 {
        let negative = self.negative(a) != self.negative(b);
        if self.is_nan(a) || self.is_nan(b) {
            self.nan()
        } else if self.is_infinite(a) || self.is_infinite(b) {
            if self.is_zero(a) || self.is_zero(b) {
                self.nan()
            } else {
                self.signed(negative, self.infinity as nat)
            }
        } else {
            self.signed(
                negative,
                self.rounded(self.size(a) * self.size(b), pow2(self.offset as nat)),
            )
        }
    }

    /// Division.
    pub open spec fn quotient(self, a: u64, b: u64) -> u64 {
        let negative = self.negative(a) != self.negative(b);
        if self.is_nan(a) || self.is_nan(b) {
            self.nan()
        } else if self.is_infinite(a) {
            if self.is_infinite(b) {
                self.nan()
            } else {
                self.signed(negative, self.infinity as nat)
            }
        } else if self.is_infinite(b) {
            self.signed(negative, 0)
        } else if self.is_zero(b) {
            if self.is_zero(a) {
                self.nan()
            } else {
                self.signed(negative, self.infinity as nat)
            }
        } else {
            self.signed(
                negative,
                self.rounded(self.size(a) * pow2(self.offset as nat), self.size(b)),
            )
        }
    }

    /// The square root.
    pub open spec fn root(self, a: u64) -> u64 {
        if self.is_nan(a) {
            self.nan()
        } else if self.is_zero(a) {
            a
        } else if self.negative(a) {
            self.nan()
        } else if self.is_infinite(a) {
            a
        } else {
            self.signed(false, self.rounded_root(self.size(a) * pow2(self.offset as nat)))
        }
    }

    /// The remainder of the division that cuts towards zero.
    pub open spec fn remainder(self, a: u64, b: u64) -> u64 {
        if self.is_nan(a) || self.is_nan(b) || self.is_infinite(a) || self.is_zero(b) {
            self.nan()
        } else if self.is_infinite(b) {
            a
        } else {
            self.signed(self.negative(a), self.rounded(self.size(a) % self.size(b), 1))
        }
    }

    /// `a < b`.
    pub open spec fn below(self, a: u64, b: u64) -> bool {
        &&& !self.is_nan(a)
        &&& !self.is_nan(b)
        &&& self.value(a) < self.value(b)
    }
}

/// A significand and the exponent of its last place.
#[derive(Clone, Copy)]
pub struct Parts {
    pub significand: u64,
    pub exponent: u32,
}

impl Parts {
    pub open spec fn size(self) -> nat {
        self.significand as nat * pow2(self.exponent as nat)
    }

    pub open spec fn fits(self, format: Format) -> bool {
        &&& self.significand < 2 * format.half
        &&& self.exponent <= 2045
        &&& self.significand >= format.half || self.exponent == 0
    }
}

impl Format {
    /// The significand and exponent of a finite encoded magnitude.
    pub fn split(self, encoded: u64) -> (r: Parts)
        requires
            self.valid(),
            encoded < self.infinity,
        ensures
            r.size() == self.magnitude(encoded as nat),
            r.fits(self),
            (r.significand == 0) == (encoded == 0),
    {
        let exponent: u64 = encoded / self.half;
        let fraction: u64 = encoded % self.half;
        proof {
            lemma2_to64();
            lemma_fundamental_div_mod(encoded as int, self.half as int);
            let half = self.half;
            assert(exponent <= 2046 && (exponent == 0 ==> encoded == fraction)) by (nonlinear_arith)
                requires
                    encoded == half * exponent + fraction,
                    encoded < 2047 * half,
            ;
            assert(fraction * pow2(0) == fraction) by (nonlinear_arith)
                requires
                    pow2(0) == 1,
            ;
        }
        if exponent == 0 {
            Parts { significand: fraction, exponent: 0 }
        } else {
            Parts { significand: self.half + fraction, exponent: (exponent - 1) as u32 }
        }
    }

    /// The encoded sum of two magnitudes.
    fn add_sizes(self, a: Parts, b: Parts) -> (r: u64)
        requires
            self.valid(),
            a.fits(self),
            b.fits(self),
            a.exponent >= b.exponent,
        ensures
            r == self.rounded(a.size() + b.size(), 1),
            r <= self.infinity,
    {
        let gap: u32 = a.exponent - b.exponent;
        proof {
            lemma2_to64();
            lemma_pow2_adds(gap as nat, b.exponent as nat);
        }
        if gap <= 64 {
            let scale: u128 = power(gap);
            proof {
                lemma_gap(a.significand as nat, gap as nat);
                let (s, k, x) = (a.significand as nat, scale as nat, pow2(b.exponent as nat));
                assert((s * k + b.significand as nat) * x == s * (k * x) + b.significand as nat * x)
                    by (nonlinear_arith);
            }
            let m: u128 = a.significand as u128 * scale + b.significand as u128;
            return self.round_dyadic(m, b.exponent as i32);
        }
        if b.significand == 0 {
            proof {
                lemma_mul_by_zero_is_zero(pow2(b.exponent as nat) as int);
            }
            return self.round_dyadic(a.significand as u128, a.exponent as i32);
        }
        let m: u128 = a.significand as u128 * 1024;
        let bits: u32 = bit_length(m);
        proof {
            self.lemma_far(a, b);
            self.lemma_enough_bits(m as nat, bits as nat);
            self.lemma_inside_whole(
                a.size() + b.size(),
                m as nat,
                (a.exponent - 10) as nat,
                bits as nat,
            );
        }
        self.round_dyadic(2 * m + 1, a.exponent as i32 - 11)
    }

    /// The encoded difference of two magnitudes, and whether it is negative.
    fn subtract_sizes(self, a: Parts, b: Parts) -> (r: (bool, u64))
        requires
            self.valid(),
            a.fits(self),
            b.fits(self),
            a.exponent >= b.exponent,
        ensures
            r.0 == (a.size() < b.size()),
            !r.0 ==> r.1 == self.rounded((a.size() - b.size()) as nat, 1),
            r.0 ==> r.1 == self.rounded((b.size() - a.size()) as nat, 1),
            r.1 <= self.infinity,
    {
        let gap: u32 = a.exponent - b.exponent;
        proof {
            lemma2_to64();
            lemma_pow2_adds(gap as nat, b.exponent as nat);
            lemma_pow2_pos(b.exponent as nat);
        }
        if gap <= 64 {
            let scale: u128 = power(gap);
            proof {
                lemma_gap(a.significand as nat, gap as nat);
            }
            let high: u128 = a.significand as u128 * scale;
            let low: u128 = b.significand as u128;
            proof {
                let (s, k, x) = (a.significand as nat, scale as nat, pow2(b.exponent as nat));
                assert((s * k) * x == s * (k * x)) by (nonlinear_arith);
                assert((high - low) * x == high * x - low * x) by (nonlinear_arith);
                assert((low - high) * x == low * x - high * x) by (nonlinear_arith);
                assert((high < low) == (high * x < low * x)) by (nonlinear_arith)
                    requires
                        x > 0,
                ;
            }
            if high < low {
                (true, self.round_dyadic(low - high, b.exponent as i32))
            } else {
                (false, self.round_dyadic(high - low, b.exponent as i32))
            }
        } else if b.significand == 0 {
            proof {
                lemma_mul_by_zero_is_zero(pow2(b.exponent as nat) as int);
                lemma_mul_nonnegative(a.significand as int, pow2(a.exponent as nat) as int);
            }
            (false, self.round_dyadic(a.significand as u128, a.exponent as i32))
        } else {
            let m: u128 = a.significand as u128 * 1024 - 1;
            let bits: u32 = bit_length(m);
            proof {
                self.lemma_far(a, b);
                self.lemma_enough_bits(m as nat, bits as nat);
                self.lemma_inside_whole(
                    (a.size() - b.size()) as nat,
                    m as nat,
                    (a.exponent - 10) as nat,
                    bits as nat,
                );
            }
            (false, self.round_dyadic(2 * m + 1, a.exponent as i32 - 11))
        }
    }

    /// A magnitude far below another is less than `2^-10` of its last place.
    proof fn lemma_far(self, a: Parts, b: Parts)
        requires
            self.valid(),
            a.fits(self),
            b.fits(self),
            a.exponent > b.exponent + 64,
            b.significand > 0,
        ensures
            ({
                let cell = pow2((a.exponent - 10) as nat);
                &&& a.size() == (a.significand * 1024) as nat * cell
                &&& 0 < b.size() < cell
                &&& a.size() + b.size() < (a.significand * 1024 + 1) as nat * cell
                &&& a.size() - b.size() > (a.significand * 1024 - 1) as nat * cell
            }),
    {
        lemma2_to64();
        let cell = pow2((a.exponent - 10) as nat);
        lemma_pow2_adds(10, (a.exponent - 10) as nat);
        assert(a.significand as nat * (1024 * cell) == (a.significand * 1024) as nat * cell)
            by (nonlinear_arith);
        self.lemma_half();
        let x = pow2(b.exponent as nat);
        lemma_pow2_pos(b.exponent as nat);
        lemma_pow2_adds(self.precision as nat, b.exponent as nat);
        lemma_pow2_strictly_increases(
            (self.precision + b.exponent) as nat,
            (a.exponent - 10) as nat,
        );
        lemma_mul_strict_inequality(
            b.significand as int,
            pow2(self.precision as nat) as int,
            x as int,
        );
        lemma_mul_strictly_positive(b.significand as int, x as int);
        let s = (a.significand * 1024) as nat;
        assert((s + 1) as nat * cell == s * cell + cell && (s - 1) * cell == s * cell - cell)
            by (nonlinear_arith);
    }

    /// A number above `2^precision` has more bits than the precision.
    pub proof fn lemma_enough_bits(self, m: nat, bits: nat)
        requires
            self.valid(),
            m >= 2 * self.half,
            m < pow2(bits),
        ensures
            bits > self.precision,
    {
        self.lemma_half();
        if bits < self.precision {
            lemma_pow2_strictly_increases(bits, self.precision as nat);
        }
    }
}

/// A significand shifted by at most 64 places fits in 127 bits.
proof fn lemma_gap(s: nat, gap: nat)
    requires
        s <= 0x20_0000_0000_0000,
        gap <= 64,
    ensures
        s * pow2(gap) <= 0x20_0000_0000_0000 * 0x1_0000_0000_0000_0000,
{
    lemma2_to64();
    if gap < 64 {
        lemma_pow2_strictly_increases(gap, 64);
    }
    lemma_mul_upper_bound(
        s as int,
        0x20_0000_0000_0000,
        pow2(gap) as int,
        0x1_0000_0000_0000_0000,
    );
}

impl Format {
    pub fn sign(self, bits: u64) -> (r: bool)
        requires
            self.valid(),
        ensures
            r == self.negative(bits),
    {
        bits >= self.infinity + self.half
    }

    pub fn unsigned(self, bits: u64) -> (r: u64)
        requires
            self.valid(),
        ensures
            r == self.encoded(bits),
    {
        if self.sign(bits) {
            bits - (self.infinity + self.half)
        } else {
            bits
        }
    }

    pub fn join(self, negative: bool, encoded: u64) -> (r: u64)
        requires
            self.valid(),
            encoded <= self.infinity,
        ensures
            r == self.signed(negative, encoded as nat),
            self.fits(r),
    {
        if negative {
            self.infinity + self.half + encoded
        } else {
            encoded
        }
    }

    pub fn quiet(self) -> (r: u64)
        requires
            self.valid(),
        ensures
            r == self.nan(),
            self.fits(r),
    {
        self.infinity + self.half / 2
    }

    /// `a + b`.
    pub fn plus(self, a: u64, b: u64) -> (r: u64)
        requires
            self.valid(),
            self.fits(a),
            self.fits(b),
        ensures
            r == self.sum(a, b),
            self.fits(r),
    {
        let ea: u64 = self.unsigned(a);
        let eb: u64 = self.unsigned(b);
        let na: bool = self.sign(a);
        let nb: bool = self.sign(b);
        if ea > self.infinity || eb > self.infinity {
            return self.quiet();
        }
        if ea == self.infinity {
            return if eb == self.infinity && na != nb {
                self.quiet()
            } else {
                a
            };
        }
        if eb == self.infinity {
            return b;
        }
        let pa: Parts = self.split(ea);
        let pb: Parts = self.split(eb);
        proof {
            self.lemma_zero();
            self.lemma_positive(pa);
            self.lemma_positive(pb);
        }
        if na == nb {
            let total: u64 = if pa.exponent >= pb.exponent {
                self.add_sizes(pa, pb)
            } else {
                self.add_sizes(pb, pa)
            };
            self.join(na, total)
        } else {
            let (flipped, total): (bool, u64) = if pa.exponent >= pb.exponent {
                self.subtract_sizes(pa, pb)
            } else {
                let (flipped, total): (bool, u64) = self.subtract_sizes(pb, pa);
                (!flipped, total)
            };
            if ea == eb {
                self.join(false, 0)
            } else {
                proof {
                    if ea < eb {
                        self.lemma_monotone(ea as nat, eb as nat);
                    } else {
                        self.lemma_monotone(eb as nat, ea as nat);
                    }
                }
                self.join(na != flipped, total)
            }
        }
    }

    /// Nothing rounds to nothing.
    pub proof fn lemma_zero(self)
        requires
            self.valid(),
        ensures
            self.rounded(0, 1) == 0,
            self.magnitude(0) == 0,
    {
        reveal(Format::rounded);
        lemma2_to64();
        lemma_pow2_pos(self.precision as nat);
        self.lemma_quantum_unique(0, 0, 1);
    }

    pub proof fn lemma_positive(self, a: Parts)
        ensures
            a.size() >= 0,
            (a.significand == 0) == (a.size() == 0),
    {
        lemma_pow2_pos(a.exponent as nat);
        let x = pow2(a.exponent as nat);
        assert((a.significand == 0) == (a.significand as nat * x == 0)) by (nonlinear_arith)
            requires
                x > 0,
        ;
    }

    /// A larger pattern stands for a larger magnitude.
    pub proof fn lemma_monotone(self, a: nat, b: nat)
        requires
            self.valid(),
            a < b,
        ensures
            self.magnitude(a) < self.magnitude(b),
    {
        let half = self.half as nat;
        let (xa, fa) = (a / half, a % half);
        let (xb, fb) = (b / half, b % half);
        lemma_fundamental_div_mod(a as int, half as int);
        lemma_fundamental_div_mod(b as int, half as int);
        lemma_mod_bound(a as int, half as int);
        lemma_mod_bound(b as int, half as int);
        assert(xa < xb || (xa == xb && fa < fb)) by (nonlinear_arith)
            requires
                a == half * xa + fa,
                b == half * xb + fb,
                0 <= fa < half,
                0 <= fb < half,
                a < b,
        ;
        lemma2_to64();
        if xa == xb {
            if xa > 0 {
                let x = pow2((xa - 1) as nat);
                lemma_pow2_pos((xa - 1) as nat);
                lemma_mul_strict_inequality((half + fa) as int, (half + fb) as int, x as int);
            }
        } else {
            let y = pow2((xb - 1) as nat);
            lemma_pow2_pos((xb - 1) as nat);
            lemma_mul_inequality(half as int, (half + fb) as int, y as int);
            if xa == 0 {
                assert(half <= half * y) by (nonlinear_arith)
                    requires
                        y >= 1,
                ;
            } else {
                let x = pow2((xa - 1) as nat);
                lemma_pow2_pos((xa - 1) as nat);
                lemma_pow2_unfold(xa);
                if xa < xb - 1 {
                    lemma_pow2_strictly_increases(xa, (xb - 1) as nat);
                }
                assert((half + fa) * x < half * y) by (nonlinear_arith)
                    requires
                        fa < half,
                        2 * x <= y,
                        x > 0,
                ;
            }
        }
    }

    /// `a * b`.
    pub fn times(self, a: u64, b: u64) -> (r: u64)
        requires
            self.valid(),
            self.fits(a),
            self.fits(b),
        ensures
            r == self.product(a, b),
            self.fits(r),
    {
        let ea: u64 = self.unsigned(a);
        let eb: u64 = self.unsigned(b);
        let negative: bool = self.sign(a) != self.sign(b);
        if ea > self.infinity || eb > self.infinity {
            return self.quiet();
        }
        if ea == self.infinity || eb == self.infinity {
            return if ea == 0 || eb == 0 {
                self.quiet()
            } else {
                self.join(negative, self.infinity)
            };
        }
        let pa: Parts = self.split(ea);
        let pb: Parts = self.split(eb);
        proof {
            assert(pa.significand * pb.significand < 0x4000_0000_0000_0000_0000_0000_0000)
                by (nonlinear_arith)
                requires
                    pa.significand < 0x20_0000_0000_0000,
                    pb.significand < 0x20_0000_0000_0000,
            ;
        }
        let m: u128 = pa.significand as u128 * pb.significand as u128;
        let t: i32 = pa.exponent as i32 + pb.exponent as i32 - self.offset as i32;
        let encoded: u64 = self.round_dyadic(m, t);
        proof {
            let scale = pow2(self.offset as nat);
            lemma_pow2_pos(self.offset as nat);
            let num = pa.size() * pb.size();
            let q = self.lemma_quantum_exists(num, scale);
            let (sa, sb) = (pa.significand as nat, pb.significand as nat);
            let (xa, xb) = (pow2(pa.exponent as nat), pow2(pb.exponent as nat));
            assert((sa * xa) * (sb * xb) == (sa * sb) * (xa * xb)) by (nonlinear_arith);
            lemma_pow2_adds(pa.exponent as nat, pb.exponent as nat);
            lemma_scaled(
                m as nat,
                t as int,
                (pa.exponent + pb.exponent) as nat,
                self.offset as nat,
            );
            lemma_pow2_pos(if t < 0 { (-t) as nat } else { 0 });
            let (n2, d2) = (
                super::rounding::dyadic_num(m as nat, t as int),
                super::rounding::dyadic_den(t as int),
            );
            self.lemma_rounded_equal(q, num, scale, n2, d2);
        }
        self.join(negative, encoded)
    }
}

/// `m * 2^t` written with `t` as the difference of two exponents.
pub proof fn lemma_scaled(m: nat, t: int, plus: nat, minus: nat)
    requires
        t == plus - minus,
    ensures
        (m * pow2(plus)) * super::rounding::dyadic_den(t) == super::rounding::dyadic_num(m, t)
            * pow2(minus),
{
    let up: nat = if t < 0 { 0 } else { t as nat };
    let down: nat = if t < 0 { (-t) as nat } else { 0 };
    lemma_pow2_adds(plus, down);
    lemma_pow2_adds(up, minus);
    assert((m * pow2(plus)) * pow2(down) == m * (pow2(plus) * pow2(down))) by (nonlinear_arith);
    assert((m * pow2(up)) * pow2(minus) == m * (pow2(up) * pow2(minus))) by (nonlinear_arith);
}

} // verus!
