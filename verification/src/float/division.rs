//! Division, square root and remainder of a binary interchange format.
use vstd::arithmetic::div_mod::*;
use vstd::arithmetic::mul::*;
use vstd::arithmetic::power2::*;
use vstd::prelude::*;

use super::arithmetic::Parts;
use super::rounding::{bit_length, power, Format};

verus! {

impl Format {
    /// The encoded quotient of two magnitudes.
    fn divide_sizes(self, a: Parts, b: Parts) -> (r: u64)
        requires
            self.valid(),
            a.fits(self),
            b.fits(self),
            a.significand > 0,
            b.significand > 0,
        ensures
            r == self.rounded(a.size() * pow2(self.offset as nat), b.size()),
            r <= self.infinity,
    {
        let places: u32 = bit_length(a.significand as u128);
        proof {
            lemma_powers();
            lemma_at_most(a.significand as nat, places as nat, 53);
            lemma_lifted(a.significand as nat, places as nat, 120);
        }
        let lift: u32 = 120 - places;
        let n: u128 = a.significand as u128 * power(lift);
        let d: u128 = b.significand as u128;
        let m: u128 = n / d;
        let rest: u128 = n % d;
        let t: i32 = a.exponent as i32 + self.offset as i32 - b.exponent as i32 - lift as i32;
        proof {
            lemma_fundamental_div_mod(n as int, d as int);
            assert(m >= 0x4_0000_0000_0000_0000 && m <= n) by (nonlinear_arith)
                requires
                    n == d * m + rest,
                    0 <= rest < d <= 0x20_0000_0000_0000,
                    n >= 0x4_0000_0000_0000_0000 * 0x20_0000_0000_0000,
            ;
        }
        let bits: u32 = bit_length(m);
        let ghost num = a.size() * pow2(self.offset as nat);
        proof {
            self.lemma_positive(b);
            lemma_pow2_pos(if t < 0 { (-t) as nat } else { 0 });
            self.lemma_enough_bits(m as nat, bits as nat);
            self.lemma_divide_cell(a, b, m as nat, rest as nat, lift as nat, t as int);
        }
        if rest == 0 {
            proof {
                let q = self.lemma_quantum_exists(num, b.size());
                self.lemma_rounded_equal(
                    q,
                    num,
                    b.size(),
                    super::rounding::dyadic_num(m as nat, t as int),
                    super::rounding::dyadic_den(t as int),
                );
            }
            self.round_dyadic(m, t)
        } else {
            proof {
                self.lemma_inside(num, b.size(), m as nat, t as int, bits as nat);
            }
            self.round_dyadic(2 * m + 1, t - 1)
        }
    }

    /// The quotient against the cell of width `2^t` at `m * 2^t`.
    proof fn lemma_divide_cell(self, a: Parts, b: Parts, m: nat, rest: nat, lift: nat, t: int)
        requires
            b.significand > 0,
            a.significand as nat * pow2(lift) == b.significand * m + rest,
            rest < b.significand,
            t == a.exponent + self.offset - b.exponent - lift,
        ensures
            ({
                let num = a.size() * pow2(self.offset as nat);
                let den = b.size();
                let low = super::rounding::dyadic_num(m, t) * den;
                let high = super::rounding::dyadic_num(m + 1, t) * den;
                let mid = num * super::rounding::dyadic_den(t);
                &&& rest == 0 ==> low == mid
                &&& rest > 0 ==> low < mid < high
            }),
    {
        let (sa, sb) = (a.significand as nat, b.significand as nat);
        let (ea, eb, off) = (a.exponent as nat, b.exponent as nat, self.offset as nat);
        let up: nat = if t < 0 { 0 } else { t as nat };
        let down: nat = if t < 0 { (-t) as nat } else { 0 };
        let u = pow2(up);
        let e = lift + up + eb;
        lemma_pow2_pos(up);
        lemma_pow2_pos(eb);
        lemma_pow2_adds(ea, off);
        lemma_pow2_adds(ea + off, down);
        lemma_pow2_adds(up, eb);
        lemma_pow2_adds(lift, up + eb);
        let w = pow2(up + eb);
        assert(e == ea + off + down);
        let mid = ((sa * pow2(ea)) * pow2(off)) * pow2(down);
        assert(mid == sa * (pow2(ea) * pow2(off) * pow2(down))) by (nonlinear_arith)
            requires
                mid == ((sa * pow2(ea)) * pow2(off)) * pow2(down),
        ;
        assert(mid == (sa * pow2(lift)) * w) by (nonlinear_arith)
            requires
                mid == sa * pow2(e),
                pow2(e) == pow2(lift) * w,
        ;
        lemma_pow2_pos(up + eb);
        let low = (m * u) * (sb * pow2(eb));
        let high = ((m + 1) * u) * (sb * pow2(eb));
        assert(low == (sb * m) * w && high == (sb * m + sb) * w) by (nonlinear_arith)
            requires
                low == (m * u) * (sb * pow2(eb)),
                high == ((m + 1) * u) * (sb * pow2(eb)),
                w == u * pow2(eb),
        ;
        let n = sa * pow2(lift);
        if rest > 0 {
            lemma_mul_strict_inequality((sb * m) as int, n as int, w as int);
            lemma_mul_strict_inequality(n as int, (sb * m + sb) as int, w as int);
        }
    }
}

proof fn lemma_powers()
    ensures
        pow2(24) == 0x100_0000,
        pow2(53) == 0x20_0000_0000_0000,
        pow2(59) == 0x800_0000_0000_0000,
        pow2(60) == 0x1000_0000_0000_0000,
        pow2(118) == 0x800_0000_0000_0000 * 0x800_0000_0000_0000,
        pow2(119) == 0x800_0000_0000_0000 * 0x1000_0000_0000_0000,
        pow2(120) == 0x1000_0000_0000_0000 * 0x1000_0000_0000_0000,
{
    lemma2_to64();
    lemma2_to64_rest();
    lemma_pow2_adds(59, 59);
    lemma_pow2_adds(59, 60);
    lemma_pow2_adds(60, 60);
}

/// A number below `2^limit` has at most `limit` bits.
proof fn lemma_at_most(s: nat, places: nat, limit: nat)
    requires
        s < pow2(limit),
        places > 0,
        pow2((places - 1) as nat) <= s,
    ensures
        places <= limit,
{
    if limit < places - 1 {
        lemma_pow2_strictly_increases(limit, (places - 1) as nat);
    }
}

/// A number of `places` bits lifted to `total` bits.
proof fn lemma_lifted(s: nat, places: nat, total: nat)
    requires
        0 < places <= total,
        pow2((places - 1) as nat) <= s < pow2(places),
    ensures
        pow2((total - 1) as nat) <= s * pow2((total - places) as nat) < pow2(total),
{
    let lift = (total - places) as nat;
    lemma_pow2_pos(lift);
    lemma_pow2_adds((places - 1) as nat, lift);
    lemma_pow2_adds(places, lift);
    lemma_mul_inequality(pow2((places - 1) as nat) as int, s as int, pow2(lift) as int);
    lemma_mul_strict_inequality(s as int, pow2(places) as int, pow2(lift) as int);
}

/// The floor of the square root.
fn whole_root(v: u128) -> (r: u128)
    requires
        v < pow2(120),
    ensures
        r * r <= v < (r + 1) * (r + 1),
        r < pow2(60),
{
    proof {
        lemma_powers();
        lemma2_to64();
        let x = pow2(60);
        assert((0 + x) * (0 + x) == x * x) by (nonlinear_arith);
    }
    let mut r: u128 = 0;
    let mut i: u32 = 60;
    while i > 0
        invariant
            i <= 60,
            r * r <= v,
            v < (r + pow2(i as nat)) * (r + pow2(i as nat)),
            r + pow2(i as nat) <= pow2(60),
        decreases i,
    {
        let ghost before = r + pow2(i as nat);
        i = i - 1;
        proof {
            lemma_powers();
            lemma_pow2_unfold((i + 1) as nat);
            lemma_pow2_pos(i as nat);
        }
        let next: u128 = r + power(i);
        proof {
            assert(next * next <= 0x1000_0000_0000_0000 * 0x1000_0000_0000_0000)
                by (nonlinear_arith)
                requires
                    next <= 0x1000_0000_0000_0000,
            ;
        }
        if next * next <= v {
            r = next;
        }
    }
    proof {
        lemma2_to64();
    }
    r
}

impl Format {
    /// `a / b`.
    pub fn over(self, a: u64, b: u64) -> (r: u64)
        requires
            self.valid(),
            self.fits(a),
            self.fits(b),
        ensures
            r == self.quotient(a, b),
            self.fits(r),
    {
        let ea: u64 = self.unsigned(a);
        let eb: u64 = self.unsigned(b);
        let negative: bool = self.sign(a) != self.sign(b);
        if ea > self.infinity || eb > self.infinity {
            return self.quiet();
        }
        if ea == self.infinity {
            return if eb == self.infinity {
                self.quiet()
            } else {
                self.join(negative, self.infinity)
            };
        }
        if eb == self.infinity {
            return self.join(negative, 0);
        }
        if eb == 0 {
            return if ea == 0 {
                self.quiet()
            } else {
                self.join(negative, self.infinity)
            };
        }
        let pb: Parts = self.split(eb);
        if ea == 0 {
            proof {
                self.lemma_zero();
                self.lemma_positive(pb);
                let q = self.lemma_quantum_exists(0, 1);
                self.lemma_rounded_equal(q, 0, 1, 0, pb.size());
                assert(0 * pow2(self.offset as nat) == 0);
            }
            return self.join(negative, 0);
        }
        let pa: Parts = self.split(ea);
        let encoded: u64 = self.divide_sizes(pa, pb);
        self.join(negative, encoded)
    }

    /// The square root of `a`.
    pub fn sqrt(self, a: u64) -> (r: u64)
        requires
            self.valid(),
            self.fits(a),
        ensures
            r == self.root(a),
            self.fits(r),
    {
        let ea: u64 = self.unsigned(a);
        if ea > self.infinity {
            return self.quiet();
        }
        if ea == 0 {
            return a;
        }
        if self.sign(a) {
            return self.quiet();
        }
        if ea == self.infinity {
            return a;
        }
        let pa: Parts = self.split(ea);
        let places: u32 = bit_length(pa.significand as u128);
        proof {
            lemma_powers();
            lemma_at_most(pa.significand as nat, places as nat, 53);
        }
        let whole: u32 = pa.exponent + self.offset;
        let odd: u32 = (whole + places + 119) % 2;
        let lift: u32 = 119 + odd - places;
        proof {
            lemma_lifted(pa.significand as nat, places as nat, (119 + odd) as nat);
        }
        let v: u128 = pa.significand as u128 * power(lift);
        let h: i32 = (whole as i32 - lift as i32) / 2;
        assert(2 * h == whole - lift);
        let m: u128 = whole_root(v);
        proof {
            assert(m >= 0x800_0000_0000_0000) by (nonlinear_arith)
                requires
                    v < (m + 1) * (m + 1),
                    v >= 0x800_0000_0000_0000 * 0x800_0000_0000_0000,
            ;
        }
        let bits: u32 = bit_length(m);
        proof {
            self.lemma_enough_bits(m as nat, bits as nat);
            self.lemma_root_cell(pa, m as nat, v as nat, lift as nat, h as int);
            assert(m * m < 0x1000_0000_0000_0000 * 0x1000_0000_0000_0000) by (nonlinear_arith)
                requires
                    m < 0x1000_0000_0000_0000,
            ;
        }
        let ghost x = pa.size() * pow2(self.offset as nat);
        let encoded: u64 = if m * m == v {
            proof {
                self.lemma_root_exact(x, m as nat, h as int, bits as nat);
            }
            self.round_dyadic(m, h)
        } else {
            proof {
                self.lemma_root_inside(x, m as nat, h as int, bits as nat);
            }
            self.round_dyadic(2 * m + 1, h - 1)
        };
        self.join(false, encoded)
    }

    /// The root against the cell of width `2^h` at `m * 2^h`.
    proof fn lemma_root_cell(self, a: Parts, m: nat, v: nat, lift: nat, h: int)
        requires
            m * m <= v < (m + 1) * (m + 1),
            v == a.significand as nat * pow2(lift),
            2 * h == a.exponent + self.offset - lift,
        ensures
            ({
                let x = a.size() * pow2(self.offset as nat);
                let low = super::rounding::dyadic_num(m, h);
                let high = super::rounding::dyadic_num(m + 1, h);
                let d = super::rounding::dyadic_den(h);
                &&& m * m == v ==> low * low == x * (d * d)
                &&& m * m < v ==> low * low < x * (d * d)
                &&& x * (d * d) < high * high
            }),
    {
        let s = a.significand as nat;
        let (e, off) = (a.exponent as nat, self.offset as nat);
        let up: nat = if h < 0 { 0 } else { h as nat };
        let down: nat = if h < 0 { (-h) as nat } else { 0 };
        let (u, d) = (pow2(up), pow2(down));
        lemma_pow2_pos(up);
        lemma_pow2_adds(e, off);
        lemma_pow2_adds(down, down);
        lemma_pow2_adds(up, up);
        lemma_pow2_adds(e + off, 2 * down);
        lemma_pow2_adds(lift, 2 * up);
        let x = (s * pow2(e)) * pow2(off);
        let w = u * u;
        assert(x * (d * d) == s * (pow2(e) * pow2(off) * (d * d))) by (nonlinear_arith)
            requires
                x == (s * pow2(e)) * pow2(off),
        ;
        assert(x * (d * d) == v * w) by (nonlinear_arith)
            requires
                x * (d * d) == s * (pow2(lift) * w),
                v == s * pow2(lift),
        ;
        let n = m + 1;
        assert((m * u) * (m * u) == (m * m) * w && (n * u) * (n * u) == (n * n) * w)
            by (nonlinear_arith)
            requires
                w == u * u,
        ;
        lemma_mul_strictly_positive(u as int, u as int);
        lemma_mul_strict_inequality(v as int, (n * n) as int, w as int);
        if m * m < v {
            lemma_mul_strict_inequality((m * m) as int, v as int, w as int);
        }
    }

    /// The remainder of two magnitudes.
    fn remainder_sizes(self, a: Parts, b: Parts) -> (r: u64)
        requires
            self.valid(),
            a.fits(self),
            b.fits(self),
            b.significand > 0,
        ensures
            r == self.rounded(a.size() % b.size(), 1),
            r <= self.infinity,
    {
        proof {
            lemma2_to64();
            lemma_pow2_pos(b.exponent as nat);
        }
        if a.exponent < b.exponent {
            proof {
                self.lemma_smaller(a, b);
                lemma_small_mod(a.size(), b.size());
            }
            return self.round_dyadic(a.significand as u128, a.exponent as i32);
        }
        let d: u128 = b.significand as u128;
        let mut left: u32 = a.exponent - b.exponent;
        let ghost mut done: nat = 0;
        let mut r: u128 = a.significand as u128 % d;
        proof {
            assert(a.significand as nat * pow2(0) == a.significand) by (nonlinear_arith)
                requires
                    pow2(0) == 1,
            ;
        }
        while left > 0
            invariant
                0 < d < 0x20_0000_0000_0000,
                r < d,
                r == (a.significand as nat * pow2(done)) % (d as nat),
                done + left == a.exponent - b.exponent,
            decreases left,
        {
            let step: u32 = if left < 32 { left } else { 32 };
            proof {
                lemma2_to64();
                if step < 32 {
                    lemma_pow2_strictly_increases(step as nat, 32);
                }
                lemma_mul_upper_bound(
                    r as int,
                    0x20_0000_0000_0000,
                    pow2(step as nat) as int,
                    0x1_0000_0000,
                );
                let (s, k) = (a.significand as nat, pow2(step as nat));
                lemma_pow2_adds(done, step as nat);
                assert(s * (pow2(done) * k) == (s * pow2(done)) * k) by (nonlinear_arith);
                lemma_mul_mod_noop_left((s * pow2(done)) as int, k as int, d as int);
                done = done + step as nat;
            }
            r = (r * power(step)) % d;
            left = left - step;
        }
        proof {
            let x = pow2(b.exponent as nat);
            lemma_pow2_adds(done, b.exponent as nat);
            let s = a.significand as nat;
            let n = s * pow2(done);
            assert(s * (pow2(done) * x) == x * n) by (nonlinear_arith)
                requires
                    n == s * pow2(done),
            ;
            lemma_mul_is_commutative(d as int, x as int);
            lemma_truncate_middle(n as int, x as int, d as int);
            lemma_mul_is_commutative(r as int, x as int);
        }
        self.round_dyadic(r, b.exponent as i32)
    }

    /// A magnitude with the smaller exponent is the smaller one.
    proof fn lemma_smaller(self, a: Parts, b: Parts)
        requires
            self.valid(),
            a.fits(self),
            b.fits(self),
            a.exponent < b.exponent,
        ensures
            a.size() < b.size(),
    {
        let (x, y) = (pow2(a.exponent as nat), pow2(b.exponent as nat));
        lemma_pow2_pos(a.exponent as nat);
        lemma_pow2_unfold((a.exponent + 1) as nat);
        if a.exponent + 1 < b.exponent {
            lemma_pow2_strictly_increases((a.exponent + 1) as nat, b.exponent as nat);
        }
        let half = self.half;
        assert(a.significand as nat * x < b.significand as nat * y) by (nonlinear_arith)
            requires
                a.significand < 2 * half,
                b.significand >= half,
                2 * x <= y,
                x > 0,
        ;
    }

    /// `a % b`.
    pub fn rem(self, a: u64, b: u64) -> (r: u64)
        requires
            self.valid(),
            self.fits(a),
            self.fits(b),
        ensures
            r == self.remainder(a, b),
            self.fits(r),
    {
        let ea: u64 = self.unsigned(a);
        let eb: u64 = self.unsigned(b);
        if ea >= self.infinity || eb > self.infinity || eb == 0 {
            return self.quiet();
        }
        if eb == self.infinity {
            return a;
        }
        let pa: Parts = self.split(ea);
        let pb: Parts = self.split(eb);
        let encoded: u64 = self.remainder_sizes(pa, pb);
        self.join(self.sign(a), encoded)
    }
}

} // verus!
