//! How far rounding takes a result from the exact one.
//!
//! Bounds are counted in last places: a number of size up to `2^52 * w` units
//! is rounded by `w` units at most.
use vstd::arithmetic::div_mod::*;
use vstd::arithmetic::mul::*;
use vstd::arithmetic::power2::*;
use vstd::prelude::*;

use super::rounding::Format;

verus! {

/// The doubled floor and the nearest whole number: half a step at most.
proof fn lemma_nearest(num: int, unit: int, n: int)
    requires
        num >= 0,
        unit > 0,
        n == super::rounding::nearest_even(
            ((2 * num) / unit) as nat,
            (2 * num) % unit == 0,
        ),
    ensures
        0 <= n,
        -unit <= 2 * (n * unit) - 2 * num <= unit,
{
    let (x, r) = ((2 * num) / unit, (2 * num) % unit);
    lemma_fundamental_div_mod(2 * num, unit);
    lemma_mod_bound(2 * num, unit);
    lemma_div_pos_is_pos(2 * num, unit);
    let floor = x / 2;
    if x % 2 == 1 {
        assert(unit * x == 2 * (floor * unit) + unit) by (nonlinear_arith)
            requires
                x == 2 * floor + 1,
        ;
        assert((floor + 1) * unit == floor * unit + unit) by (nonlinear_arith);
    } else {
        assert(unit * x == 2 * (floor * unit)) by (nonlinear_arith)
            requires
                x == 2 * floor,
        ;
    }
}

/// A power of two exceeds its exponent.
proof fn lemma_above(n: nat)
    ensures
        pow2(n) > n,
    decreases n,
{
    lemma2_to64();
    if n > 0 {
        lemma_above((n - 1) as nat);
        lemma_pow2_unfold(n);
    }
}

/// Every number has a root, cut to a whole number.
proof fn lemma_floor_root_exists(v: nat) -> (r: nat)
    ensures
        super::rounding::is_floor_root(r, v),
    decreases v,
{
    if v == 0 {
        let r: nat = 0;
        assert(r * r <= 0 < (r + 1) * (r + 1)) by (nonlinear_arith)
            requires
                r == 0,
        ;
        r
    } else {
        let r = lemma_floor_root_exists((v - 1) as nat);
        if v < (r + 1) * (r + 1) {
            r
        } else {
            assert((r + 1 + 1) * (r + 1 + 1) > (r + 1) * (r + 1)) by (nonlinear_arith);
            r + 1
        }
    }
}

impl Format {
    /// A quotient of at most `half * w` units, where it does not overflow, is
    /// rounded by at most `w` units.
    pub proof fn lemma_error(self, num: nat, den: nat, w: int)
        requires
            self.valid(),
            den > 0,
            1 <= w,
            num <= den * (self.half * w),
            self.rounded(num, den) < self.infinity,
        ensures
            -(w * den) <= self.magnitude(self.rounded(num, den)) * den - num <= w * den,
    {
        let half = self.half as nat;
        let q = self.lemma_quantum_exists(num, den);
        let p = pow2(q);
        let unit = den * p;
        self.lemma_half();
        lemma_pow2_pos(q);
        lemma_pow2_adds(self.precision as nat, q);
        lemma_mul_strictly_positive(den as int, p as int);
        let n = super::rounding::nearest_even((2 * num) / unit, (2 * num) % unit == 0);
        lemma_nearest(num as int, unit as int, n as int);
        if q > 0 {
            lemma_pow2_adds((self.precision - 1) as nat, q);
            assert(p <= w) by (nonlinear_arith)
                requires
                    den * (half * p) <= num,
                    num <= den * (half * w),
                    half > 0,
                    den > 0,
            ;
        } else {
            lemma2_to64();
        }
        assert(unit <= w * den) by (nonlinear_arith)
            requires
                unit == den * p,
                p <= w,
                den > 0,
        ;
        assert(n <= 2 * half) by (nonlinear_arith)
            requires
                2 * (n * unit) - 2 * num <= unit,
                num < den * ((2 * half) * p),
                unit == den * p,
                unit > 0,
        ;
        if q > 0 {
            assert(n >= half) by (nonlinear_arith)
                requires
                    -unit <= 2 * (n * unit) - 2 * num,
                    den * (half * p) <= num,
                    unit == den * p,
                    unit > 0,
            ;
        }
        let encoded = q * half + n;
        assert(self.magnitude(encoded) == n * p) by {
            if n < 2 * half {
                self.lemma_encoding(q, n);
            } else {
                self.lemma_encoding(q + 1, half);
                lemma_pow2_unfold(q + 1);
                assert((q + 1) * half + half == q * half + 2 * half) by (nonlinear_arith);
                assert(half * (2 * p) == (2 * half) * p) by (nonlinear_arith);
            }
        }
        reveal(Format::rounded);
        assert(self.rounded(num, den) == encoded);
        assert((n * p) * den == n * unit) by (nonlinear_arith)
            requires
                unit == den * p,
        ;
    }

    /// A quotient of at most `2^52 * w` units does not overflow while `w` is at
    /// most `2^2044`.
    pub proof fn lemma_fits(self, num: nat, den: nat, w: int)
        requires
            self.is_double(),
            den > 0,
            1 <= w <= pow2(2044),
            num <= den * (0x10_0000_0000_0000 * w),
        ensures
            self.rounded(num, den) < self.infinity,
    {
        let half = self.half as nat;
        let q = self.lemma_quantum_exists(num, den);
        let p = pow2(q);
        let unit = den * p;
        self.lemma_half();
        lemma_pow2_pos(q);
        lemma_pow2_adds(53, q);
        lemma_mul_strictly_positive(den as int, p as int);
        let n = super::rounding::nearest_even((2 * num) / unit, (2 * num) % unit == 0);
        lemma_nearest(num as int, unit as int, n as int);
        if q > 0 {
            lemma_pow2_adds(52, q);
            assert(p <= w) by (nonlinear_arith)
                requires
                    den * (half * p) <= num,
                    num <= den * (0x10_0000_0000_0000 * w),
                    half == 0x10_0000_0000_0000,
                    den > 0,
            ;
            if q > 2044 {
                lemma_pow2_strictly_increases(2044, q);
            }
        }
        assert(n <= 2 * half) by (nonlinear_arith)
            requires
                2 * (n * unit) - 2 * num <= unit,
                num < den * ((2 * half) * p),
                unit == den * p,
                unit > 0,
        ;
        assert(q * half + n < self.infinity) by (nonlinear_arith)
            requires
                q <= 2044,
                n <= 2 * half,
                half == 0x10_0000_0000_0000,
                self.infinity == 0x7ff0_0000_0000_0000,
        ;
        reveal(Format::rounded);
    }

    proof fn lemma_root_quantum_from(self, from: nat, x: nat) -> (q: nat)
        requires
            from == 0 || pow2(2 * (self.precision + from - 1) as nat) <= x,
        ensures
            self.is_root_quantum(q, x),
        decreases x + 1 - from,
    {
        let top = 2 * (self.precision + from) as nat;
        if x < pow2(top) {
            from
        } else {
            lemma_above(top);
            self.lemma_root_quantum_from(from + 1, x)
        }
    }

    /// A finite root is within half a last place: `p` is that place.
    pub proof fn lemma_root_error(self, x: nat) -> (p: int)
        requires
            self.valid(),
            self.rounded_root(x) < self.infinity,
        ensures
            1 <= p,
            p * self.half <= self.magnitude(self.rounded_root(x)) + self.half,
            ({
                let n = self.magnitude(self.rounded_root(x)) as int;
                &&& 2 * n >= p ==> (2 * n - p) * (2 * n - p) <= 4 * x
                &&& 4 * x < (2 * n + 2 * p) * (2 * n + 2 * p)
            }),
    {
        let half = self.half as nat;
        let found = self.lemma_root_quantum_from(0, x);
        let q = self.root_quantum(x);
        assert(self.is_root_quantum(q, x));
        let p = pow2(q);
        lemma_pow2_pos(q);
        lemma_pow2_adds(q, q);
        self.lemma_half();
        let square = pow2(2 * q);
        assert(square == p * p);
        assert(square > 0) by (nonlinear_arith)
            requires
                square == p * p,
                p > 0,
        ;
        let v = (4 * x) / square;
        lemma_fundamental_div_mod((4 * x) as int, square as int);
        lemma_mod_bound((4 * x) as int, square as int);
        let f = lemma_floor_root_exists(v);
        let doubled = super::rounding::floor_root(v);
        assert(super::rounding::is_floor_root(doubled, v));
        let n = super::rounding::nearest_even(doubled, doubled * doubled * square == 4 * x);
        let w = p as int;
        let d = doubled as int;
        assert((d * w) * (d * w) <= 4 * x < ((d + 1) * w) * ((d + 1) * w)) by {
            assert((d * w) * (d * w) == (d * d) * square) by (nonlinear_arith)
                requires
                    square == w * w,
            ;
            assert(((d + 1) * w) * ((d + 1) * w) == ((d + 1) * (d + 1)) * square)
                by (nonlinear_arith)
                requires
                    square == w * w,
            ;
            let rest = (4 * x) % square;
            assert((d * d) * square <= square * v) by (nonlinear_arith)
                requires
                    d * d <= v,
                    square > 0,
            ;
            assert(((d + 1) * (d + 1)) * square >= square * v + square) by (nonlinear_arith)
                requires
                    (d + 1) * (d + 1) >= v + 1,
                    square > 0,
            ;
        }
        // The bounds of the significand.
        lemma_pow2_adds(2 * self.precision as nat, 2 * q);
        lemma_pow2_adds(self.precision as nat, self.precision as nat);
        assert(d < 4 * half) by {
            assert(4 * x < ((4 * half) * w) * ((4 * half) * w)) by (nonlinear_arith)
                requires
                    x < ((2 * half) * (2 * half)) * square,
                    square == w * w,
            ;
            assert(d < 4 * half) by (nonlinear_arith)
                requires
                    (d * w) * (d * w) < ((4 * half) * w) * ((4 * half) * w),
                    w > 0,
                    half > 0,
                    d >= 0,
            ;
        }
        if q > 0 {
            lemma_pow2_adds((2 * self.precision - 2) as nat, 2 * q);
            lemma_pow2_adds((self.precision - 1) as nat, (self.precision - 1) as nat);
            assert(4 * x >= ((2 * half) * w) * ((2 * half) * w)) by (nonlinear_arith)
                requires
                    x >= (half * half) * square,
                    square == w * w,
            ;
            assert(d + 1 > 2 * half) by (nonlinear_arith)
                requires
                    ((2 * half) * w) * ((2 * half) * w) < ((d + 1) * w) * ((d + 1) * w),
                    w > 0,
                    half > 0,
                    d >= 0,
            ;
        }
        assert(d - 1 <= 2 * n <= d + 1);
        let encoded = q * half + n;
        reveal(Format::rounded_root);
        assert(self.rounded_root(x) == encoded);
        assert(self.magnitude(encoded) == n * p) by {
            if n < 2 * half {
                self.lemma_encoding(q, n);
            } else {
                self.lemma_encoding(q + 1, half);
                lemma_pow2_unfold(q + 1);
                assert((q + 1) * half + half == q * half + 2 * half) by (nonlinear_arith);
                assert(half * (2 * p) == (2 * half) * p) by (nonlinear_arith);
            }
        }
        let m = n * w;
        assert(m >= 0) by (nonlinear_arith)
            requires
                m == n * w,
                w > 0,
                n >= 0,
        ;
        assert(w * half <= m + half) by {
            if q > 0 {
                assert(w * half <= m) by (nonlinear_arith)
                    requires
                        m == n * w,
                        n >= half,
                        w > 0,
                ;
            } else {
                lemma2_to64();
            }
        }
        if 2 * m >= w {
            assert((2 * m - w) <= d * w) by (nonlinear_arith)
                requires
                    m == n * w,
                    2 * n <= d + 1,
                    w > 0,
            ;
            assert((2 * m - w) * (2 * m - w) <= (d * w) * (d * w)) by (nonlinear_arith)
                requires
                    0 <= 2 * m - w <= d * w,
            ;
        }
        assert((d + 1) * w <= 2 * m + 2 * w) by (nonlinear_arith)
            requires
                m == n * w,
                d - 1 <= 2 * n,
                w > 0,
        ;
        assert(((d + 1) * w) * ((d + 1) * w) <= (2 * m + 2 * w) * (2 * m + 2 * w))
            by (nonlinear_arith)
            requires
                0 <= (d + 1) * w <= 2 * m + 2 * w,
        ;
        w
    }
}

} // verus!
