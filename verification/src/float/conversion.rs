//! Comparison of patterns, and conversion to and from integers and formats.
use vstd::arithmetic::div_mod::*;
use vstd::arithmetic::mul::*;
use vstd::arithmetic::power2::*;
use vstd::prelude::*;

use super::arithmetic::Parts;
use super::rounding::{power, shifted_down, Format};

verus! {

impl Format {
    /// `a <= b`.
    pub open spec fn at_most(self, a: u64, b: u64) -> bool {
        &&& !self.is_nan(a)
        &&& !self.is_nan(b)
        &&& self.value(a) <= self.value(b)
    }

    /// The pattern in the format `to` nearest to the value of `bits`.
    pub open spec fn converted(self, to: Format, bits: u64) -> u64 {
        if self.is_nan(bits) {
            to.nan()
        } else if self.is_infinite(bits) {
            to.signed(self.negative(bits), to.infinity as nat)
        } else {
            to.signed(
                self.negative(bits),
                to.rounded(self.size(bits) * pow2(to.offset as nat), pow2(self.offset as nat)),
            )
        }
    }

    /// The pattern nearest to a natural number.
    pub open spec fn of_whole(self, n: nat) -> u64 {
        self.signed(false, self.rounded(n * pow2(self.offset as nat), 1))
    }

    /// The greatest whole number that does not exceed the value.
    pub open spec fn floor(self, bits: u64) -> int {
        self.value(bits) / pow2(self.offset as nat) as int
    }

    /// Equal sizes come from equal patterns.
    proof fn lemma_order(self, a: u64, b: u64)
        requires
            self.valid(),
            self.fits(a),
            self.fits(b),
        ensures
            (self.size(a) < self.size(b)) == (self.encoded(a) < self.encoded(b)),
            (self.size(a) == self.size(b)) == (self.encoded(a) == self.encoded(b)),
            (self.size(a) == 0) == (self.encoded(a) == 0),
            (self.size(b) == 0) == (self.encoded(b) == 0),
    {
        let (ea, eb) = (self.encoded(a), self.encoded(b));
        if ea < eb {
            self.lemma_monotone(ea, eb);
        }
        if eb < ea {
            self.lemma_monotone(eb, ea);
        }
        self.lemma_zero();
        if ea > 0 {
            self.lemma_monotone(0, ea);
        }
        if eb > 0 {
            self.lemma_monotone(0, eb);
        }
    }

    /// `a < b`.
    pub fn less(self, a: u64, b: u64) -> (r: bool)
        requires
            self.valid(),
            self.fits(a),
            self.fits(b),
        ensures
            r == self.below(a, b),
    {
        let ea: u64 = self.unsigned(a);
        let eb: u64 = self.unsigned(b);
        let na: bool = self.sign(a);
        let nb: bool = self.sign(b);
        proof {
            self.lemma_order(a, b);
        }
        if ea > self.infinity || eb > self.infinity {
            false
        } else if na && nb {
            eb < ea
        } else if na {
            ea > 0 || eb > 0
        } else if nb {
            false
        } else {
            ea < eb
        }
    }

    /// `a <= b`.
    pub fn less_or_equal(self, a: u64, b: u64) -> (r: bool)
        requires
            self.valid(),
            self.fits(a),
            self.fits(b),
        ensures
            r == self.at_most(a, b),
    {
        if self.unsigned(a) > self.infinity || self.unsigned(b) > self.infinity {
            false
        } else {
            !self.less(b, a)
        }
    }

    /// The pattern in another format.
    pub fn convert(self, to: Format, bits: u64) -> (r: u64)
        requires
            self.valid(),
            to.valid(),
            self.fits(bits),
        ensures
            r == self.converted(to, bits),
            to.fits(r),
    {
        let encoded: u64 = self.unsigned(bits);
        let negative: bool = self.sign(bits);
        if encoded > self.infinity {
            return to.quiet();
        }
        if encoded == self.infinity {
            return to.join(negative, to.infinity);
        }
        let p: Parts = self.split(encoded);
        let t: i32 = p.exponent as i32 + to.offset as i32 - self.offset as i32;
        let near: u64 = to.round_dyadic(p.significand as u128, t);
        proof {
            let num = p.size() * pow2(to.offset as nat);
            let den = pow2(self.offset as nat);
            lemma_pow2_pos(self.offset as nat);
            lemma_pow2_pos(if t < 0 { (-t) as nat } else { 0 });
            let q = to.lemma_quantum_exists(num, den);
            let (s, e, o) = (p.significand as nat, p.exponent as nat, to.offset as nat);
            lemma_pow2_adds(e, o);
            assert((s * pow2(e)) * pow2(o) == s * (pow2(e) * pow2(o))) by (nonlinear_arith);
            super::arithmetic::lemma_scaled(s, t as int, e + o, self.offset as nat);
            to.lemma_rounded_equal(
                q,
                num,
                den,
                super::rounding::dyadic_num(s, t as int),
                super::rounding::dyadic_den(t as int),
            );
        }
        to.join(negative, near)
    }

    /// The pattern nearest to a natural number.
    pub fn from_whole(self, n: u64) -> (r: u64)
        requires
            self.valid(),
        ensures
            r == self.of_whole(n as nat),
            self.fits(r),
    {
        proof {
            lemma2_to64();
        }
        let encoded: u64 = self.round_dyadic(n as u128, self.offset as i32);
        self.join(false, encoded)
    }

    /// The whole part of a magnitude, up to a bound that no integer type
    /// reaches, and whether there is nothing else.
    fn whole_part(self, encoded: u64) -> (r: (u128, bool))
        requires
            self.valid(),
            encoded <= self.infinity,
        ensures
            ({
                let unit = pow2(self.offset as nat);
                let size = self.magnitude(encoded as nat);
                if size / unit <= u64::MAX {
                    r.0 == size / unit && r.1 == (size % unit == 0)
                } else {
                    r.0 > u64::MAX
                }
            }),
    {
        let ghost unit = pow2(self.offset as nat);
        let ghost size = self.magnitude(encoded as nat);
        proof {
            lemma2_to64();
            lemma_pow2_pos(self.offset as nat);
        }
        if encoded == self.infinity {
            proof {
                self.lemma_infinity_is_large();
            }
            return (0x1_0000_0000_0000_0000, true);
        }
        let p: Parts = self.split(encoded);
        let s: u128 = p.significand as u128;
        if p.exponent >= self.offset {
            let up: u32 = p.exponent - self.offset;
            proof {
                lemma_pow2_adds(up as nat, self.offset as nat);
                let n = s as nat * pow2(up as nat);
                assert(size == n * unit + 0) by (nonlinear_arith)
                    requires
                        size == s as nat * (pow2(up as nat) * unit),
                        n == s as nat * pow2(up as nat),
                ;
                lemma_fundamental_div_mod_converse(size as int, unit as int, n as int, 0);
            }
            if up > 64 {
                proof {
                    lemma_pow2_strictly_increases(64, up as nat);
                    let k = pow2(up as nat);
                    assert(s as nat * k > u64::MAX) by (nonlinear_arith)
                        requires
                            s >= 1,
                            k > u64::MAX,
                    ;
                }
                return (0x1_0000_0000_0000_0000, true);
            }
            proof {
                if up < 64 {
                    lemma_pow2_strictly_increases(up as nat, 64);
                }
                lemma_mul_upper_bound(
                    s as int,
                    0x20_0000_0000_0000,
                    pow2(up as nat) as int,
                    0x1_0000_0000_0000_0000,
                );
            }
            (s * power(up), true)
        } else {
            let down: u32 = self.offset - p.exponent;
            let ghost x = pow2(p.exponent as nat);
            proof {
                lemma_pow2_adds(p.exponent as nat, down as nat);
                lemma_pow2_pos(p.exponent as nat);
                lemma_pow2_pos(down as nat);
                lemma_mul_is_commutative(s as int, x as int);
                lemma_div_multiples_vanish_quotient(x as int, s as int, pow2(down as nat) as int);
                lemma_truncate_middle(s as int, x as int, pow2(down as nat) as int);
                let rest = s as nat % pow2(down as nat);
                assert((x * rest == 0) == (rest == 0)) by (nonlinear_arith)
                    requires
                        x > 0,
                ;
            }
            if down >= 64 {
                proof {
                    if down > 64 {
                        lemma_pow2_strictly_increases(64, down as nat);
                    }
                    lemma_basic_div(s as int, pow2(down as nat) as int);
                    lemma_small_mod(s as nat, pow2(down as nat));
                }
                return (0, s == 0);
            }
            let floor: u128 = shifted_down(s, down);
            let unit: u128 = power(down);
            proof {
                lemma_fundamental_div_mod(s as int, unit as int);
                lemma_mod_bound(s as int, unit as int);
                lemma_mul_is_commutative(floor as int, unit as int);
            }
            (floor, floor * unit == s)
        }
    }

    proof fn lemma_infinity_is_large(self)
        requires
            self.valid(),
        ensures
            self.magnitude(self.infinity as nat) / pow2(self.offset as nat) > u64::MAX,
    {
        let half = self.half as nat;
        let e: nat = if self.is_double() { 2046 } else { 254 };
        let size = self.magnitude(self.infinity as nat);
        lemma_fundamental_div_mod_converse(self.infinity as int, half as int, (e + 1) as int, 0);
        let unit = pow2(self.offset as nat);
        let k = pow2((e - self.offset) as nat);
        lemma2_to64();
        lemma_pow2_pos(self.offset as nat);
        lemma_pow2_adds((e - self.offset) as nat, self.offset as nat);
        lemma_pow2_strictly_increases(64, (e - self.offset) as nat);
        assert(size == (half * k) * unit + 0) by (nonlinear_arith)
            requires
                size == (half + 0) * (k * unit),
        ;
        lemma_fundamental_div_mod_converse(size as int, unit as int, (half * k) as int, 0);
        assert(half * k > u64::MAX) by (nonlinear_arith)
            requires
                half >= 1,
                k > u64::MAX,
        ;
    }

    /// The value cut to a `usize`, as a saturating cast does.
    pub fn to_usize(self, bits: u64) -> (r: usize)
        requires
            self.valid(),
            self.fits(bits),
        ensures
            r == self.cut(bits),
    {
        let encoded: u64 = self.unsigned(bits);
        if encoded > self.infinity || self.sign(bits) {
            return 0;
        }
        let (whole, _exact): (u128, bool) = self.whole_part(encoded);
        if whole > usize::MAX as u128 {
            usize::MAX
        } else {
            whole as usize
        }
    }

    /// What `to_usize` answers.
    pub open spec fn cut(self, bits: u64) -> usize {
        if self.is_nan(bits) || self.negative(bits) {
            0
        } else if self.floor(bits) > usize::MAX {
            usize::MAX
        } else {
            self.floor(bits) as usize
        }
    }

    /// The floor of the value as an `i32`, as a saturating cast does.
    pub fn floor_to_i32(self, bits: u64) -> (r: i32)
        requires
            self.valid(),
            self.fits(bits),
        ensures
            r == self.floor_i32(bits),
    {
        let encoded: u64 = self.unsigned(bits);
        if encoded > self.infinity {
            return 0;
        }
        let (whole, exact): (u128, bool) = self.whole_part(encoded);
        proof {
            let unit = pow2(self.offset as nat) as int;
            lemma_pow2_pos(self.offset as nat);
            lemma_negative_floor(self.size(bits) as int, unit);
        }
        if self.sign(bits) {
            if whole >= 0x8000_0000 {
                i32::MIN
            } else if exact {
                (-(whole as i64)) as i32
            } else {
                (-(whole as i64) - 1) as i32
            }
        } else {
            if whole > 0x7fff_ffff {
                i32::MAX
            } else {
                whole as i32
            }
        }
    }

    /// What `floor_to_i32` answers.
    pub open spec fn floor_i32(self, bits: u64) -> i32 {
        if self.is_nan(bits) {
            0
        } else if self.floor(bits) > i32::MAX {
            i32::MAX
        } else if self.floor(bits) < i32::MIN {
            i32::MIN
        } else {
            self.floor(bits) as i32
        }
    }
}

/// The floor of a negated quotient.
proof fn lemma_negative_floor(size: int, unit: int)
    requires
        size >= 0,
        unit > 0,
    ensures
        size % unit == 0 ==> (-size) / unit == -(size / unit),
        size % unit != 0 ==> (-size) / unit == -(size / unit) - 1,
{
    let (n, r) = (size / unit, size % unit);
    lemma_fundamental_div_mod(size, unit);
    lemma_mod_bound(size, unit);
    if r == 0 {
        assert(-size == (-n) * unit + 0) by (nonlinear_arith)
            requires
                size == unit * n,
        ;
        lemma_fundamental_div_mod_converse(-size, unit, -n, 0);
    } else {
        assert(-size == (-n - 1) * unit + (unit - r)) by (nonlinear_arith)
            requires
                size == unit * n + r,
        ;
        lemma_fundamental_div_mod_converse(-size, unit, -n - 1, unit - r);
    }
}

} // verus!
