//! What rounding keeps: numbers of the format, their order, and differences
//! of numbers that are close together.
use vstd::arithmetic::div_mod::*;
use vstd::arithmetic::mul::*;
use vstd::arithmetic::power2::*;
use vstd::prelude::*;

use super::rounding::Format;

verus! {

impl Format {
    /// The exponent of the last place of an encoded magnitude.
    pub open spec fn place(self, encoded: nat) -> nat {
        let exponent = encoded / self.half as nat;
        if exponent == 0 {
            0
        } else {
            (exponent - 1) as nat
        }
    }

    /// The significand of an encoded magnitude.
    pub open spec fn digits(self, encoded: nat) -> nat {
        let exponent = encoded / self.half as nat;
        let fraction = encoded % self.half as nat;
        if exponent == 0 {
            fraction
        } else {
            (self.half + fraction) as nat
        }
    }

    /// A magnitude is its significand times its last place.
    pub proof fn lemma_digits(self, encoded: nat)
        requires
            self.valid(),
        ensures
            self.magnitude(encoded) == self.digits(encoded) * pow2(self.place(encoded)),
            self.digits(encoded) < 2 * self.half,
            self.place(encoded) > 0 ==> self.digits(encoded) >= self.half,
    {
        lemma2_to64();
        lemma_mod_bound(encoded as int, self.half as int);
        let f = self.digits(encoded);
        assert(f * 1 == f) by (nonlinear_arith);
    }

    /// Larger numbers have no smaller last place.
    proof fn lemma_place_order(self, a: nat, b: nat)
        requires
            self.valid(),
            self.magnitude(a) <= self.magnitude(b),
        ensures
            self.place(a) <= self.place(b),
    {
        if b < a {
            self.lemma_monotone(b, a);
        }
        lemma_div_is_ordered(a as int, b as int, self.half as int);
    }

    /// The number with significand `k` and last place `q`, where that is
    /// normal or in the lowest place, is encoded by `q * half + k`.
    pub proof fn lemma_encoding(self, q: nat, k: nat)
        requires
            self.valid(),
            k < 2 * self.half,
            q > 0 ==> k >= self.half,
        ensures
            self.magnitude(q * self.half as nat + k) == k * pow2(q),
    {
        lemma2_to64();
        let half = self.half as int;
        let encoded = q * half + k;
        if k < half {
            assert(q * half == 0) by (nonlinear_arith)
                requires
                    q == 0,
            ;
            lemma_fundamental_div_mod_converse(encoded, half, 0, k as int);
            assert(k * 1 == k) by (nonlinear_arith);
        } else {
            assert(encoded == (q + 1) * half + (k - half)) by (nonlinear_arith)
                requires
                    encoded == q * half + k,
            ;
            lemma_fundamental_div_mod_converse(encoded, half, q as int + 1, k - half);
        }
    }

    /// A multiple of a power of two that needs no more digits than the format
    /// has is kept.
    pub proof fn lemma_representable(self, k: nat, q: nat, bound: nat)
        requires
            self.valid(),
            k < 2 * self.half,
            bound < self.infinity,
            k * pow2(q) <= self.magnitude(bound),
        ensures
            self.magnitude(self.rounded(k * pow2(q), 1)) == k * pow2(q),
            self.rounded(k * pow2(q), 1) <= bound,
    {
        let n = k * pow2(q);
        self.lemma_half();
        let p = self.lemma_quantum_exists(n, 1);
        lemma_pow2_pos(q);
        lemma_pow2_adds(self.precision as nat, q);
        assert(n < pow2((self.precision + q) as nat)) by (nonlinear_arith)
            requires
                n == k * pow2(q),
                k < 2 * self.half,
                pow2((self.precision + q) as nat) == (2 * self.half) * pow2(q),
                pow2(q) > 0,
        ;
        if p > q {
            if p - 1 > q {
                lemma_pow2_strictly_increases(
                    (self.precision + q) as nat,
                    (self.precision + p - 1) as nat,
                );
            }
            assert(1 * pow2((self.precision + p - 1) as nat) == pow2(
                (self.precision + p - 1) as nat,
            )) by (nonlinear_arith);
            assert(false);
        }
        let up = (q - p) as nat;
        let m = k * pow2(up);
        lemma_pow2_pos(p);
        lemma_pow2_adds(up, p);
        assert(n == m * pow2(p)) by (nonlinear_arith)
            requires
                n == k * pow2(q),
                m == k * pow2(up),
                pow2(q) == pow2(up) * pow2(p),
        ;
        let unit = 1 * pow2(p);
        assert(unit == pow2(p)) by (nonlinear_arith)
            requires
                unit == 1 * pow2(p),
        ;
        assert(2 * n == (2 * m) * unit) by (nonlinear_arith)
            requires
                n == m * unit,
        ;
        lemma_fundamental_div_mod_converse((2 * n) as int, unit as int, (2 * m) as int, 0);
        lemma_pow2_adds(self.precision as nat, p);
        assert(m < 2 * self.half) by (nonlinear_arith)
            requires
                m * pow2(p) < 1 * ((2 * self.half) * pow2(p)),
                pow2(p) > 0,
        ;
        if p > 0 {
            lemma_pow2_adds((self.precision - 1) as nat, p);
            assert(m >= self.half) by (nonlinear_arith)
                requires
                    1 * (self.half * pow2(p)) <= m * pow2(p),
                    pow2(p) > 0,
            ;
        }
        self.lemma_encoding(p, m);
        let encoded = p * self.half as nat + m;
        if encoded > bound {
            self.lemma_monotone(bound, encoded);
        }
        reveal(Format::rounded);
        assert(self.rounded(n, 1) == self.packed(p, m));
    }

    /// A number of the format rounds to itself.
    pub proof fn rounding_keeps_numbers(self, encoded: nat)
        requires
            self.valid(),
            encoded < self.infinity,
        ensures
            self.rounded(self.magnitude(encoded), 1) == encoded,
    {
        self.lemma_digits(encoded);
        self.lemma_representable(self.digits(encoded), self.place(encoded), encoded);
        let r = self.rounded(self.magnitude(encoded), 1);
        if r < encoded {
            self.lemma_monotone(r, encoded);
        }
    }

    /// The difference of two numbers, the larger at most twice the smaller,
    /// is a number of the format.
    pub proof fn close_differences_are_exact(self, a: nat, b: nat)
        requires
            self.valid(),
            a < self.infinity,
            b < self.infinity,
            self.magnitude(a) <= self.magnitude(b) <= 2 * self.magnitude(a),
        ensures
            ({
                let gap = (self.magnitude(b) - self.magnitude(a)) as nat;
                let r = self.rounded(gap, 1);
                &&& self.magnitude(r) == gap
                &&& r <= a
            }),
    {
        let (p, q) = (self.place(a), self.place(b));
        let (j, k) = (self.digits(a), self.digits(b));
        self.lemma_digits(a);
        self.lemma_digits(b);
        self.lemma_place_order(a, b);
        let up = (q - p) as nat;
        lemma_pow2_adds(up, p);
        lemma_pow2_pos(p);
        let gap = self.magnitude(b) - self.magnitude(a);
        let n = k * pow2(up) - j;
        assert(gap == n * pow2(p)) by (nonlinear_arith)
            requires
                gap == k * pow2(q) - j * pow2(p),
                n == k * pow2(up) - j,
                pow2(q) == pow2(up) * pow2(p),
        ;
        assert(0 <= n <= j) by (nonlinear_arith)
            requires
                0 <= n * pow2(p) <= j * pow2(p),
                pow2(p) > 0,
        ;
        self.lemma_representable(n as nat, p, a);
    }

    /// The remainder of two numbers is a number of the format.
    pub proof fn remainders_are_exact(self, a: nat, b: nat)
        requires
            self.valid(),
            a < self.infinity,
            b < self.infinity,
            self.magnitude(b) > 0,
        ensures
            ({
                let rest = self.magnitude(a) % self.magnitude(b);
                let r = self.rounded(rest, 1);
                &&& self.magnitude(r) == rest
                &&& r < self.infinity
            }),
    {
        let (x, y) = (self.magnitude(a), self.magnitude(b));
        let rest = x % y;
        if x < y {
            lemma_small_mod(x, y);
            self.rounding_keeps_numbers(a);
        } else {
            let (p, q) = (self.place(a), self.place(b));
            let (j, k) = (self.digits(a), self.digits(b));
            self.lemma_digits(a);
            self.lemma_digits(b);
            self.lemma_place_order(b, a);
            let up = (p - q) as nat;
            lemma_pow2_adds(up, q);
            lemma_pow2_pos(q);
            let d = x / y;
            lemma_fundamental_div_mod(x as int, y as int);
            lemma_mod_bound(x as int, y as int);
            let n = j * pow2(up) - k * d;
            assert(rest == n * pow2(q)) by (nonlinear_arith)
                requires
                    rest == j * pow2(p) - (k * pow2(q)) * d,
                    n == j * pow2(up) - k * d,
                    pow2(p) == pow2(up) * pow2(q),
            ;
            assert(0 <= n < k) by (nonlinear_arith)
                requires
                    0 <= n * pow2(q) < k * pow2(q),
                    pow2(q) > 0,
            ;
            self.lemma_representable(n as nat, q, b);
        }
    }

    /// The number nearest to a smaller quotient is no larger.
    pub proof fn rounding_keeps_order(self, num: nat, den: nat, num2: nat, den2: nat)
        requires
            self.valid(),
            den > 0,
            den2 > 0,
            num * den2 <= num2 * den,
        ensures
            self.rounded(num, den) <= self.rounded(num2, den2),
    {
        let q = self.lemma_quantum_exists(num, den);
        let q2 = self.lemma_quantum_exists(num2, den2);
        self.lemma_half();
        lemma_pow2_pos(q);
        lemma_pow2_pos(q2);
        let (u, u2) = (den * pow2(q), den2 * pow2(q2));
        lemma_mul_strictly_positive(den as int, pow2(q) as int);
        lemma_mul_strictly_positive(den2 as int, pow2(q2) as int);
        let (x, x2) = ((2 * num) / u, (2 * num2) / u2);
        let (e, e2) = ((2 * num) % u == 0, (2 * num2) % u2 == 0);
        let n = super::rounding::nearest_even(x, e);
        let n2 = super::rounding::nearest_even(x2, e2);
        reveal(Format::rounded);
        assert(self.rounded(num, den) == self.packed(q, n));
        assert(self.rounded(num2, den2) == self.packed(q2, n2));
        lemma_fundamental_div_mod((2 * num) as int, u as int);
        lemma_fundamental_div_mod((2 * num2) as int, u2 as int);
        lemma_mod_bound((2 * num) as int, u as int);
        lemma_mod_bound((2 * num2) as int, u2 as int);
        if q == q2 {
            let (r, r2) = ((2 * num) % u, (2 * num2) % u2);
            assert((2 * num) * u2 <= (2 * num2) * u) by (nonlinear_arith)
                requires
                    num * den2 <= num2 * den,
                    u == den * pow2(q),
                    u2 == den2 * pow2(q),
                    pow2(q) > 0,
            ;
            assert(x <= x2) by (nonlinear_arith)
                requires
                    (2 * num) * u2 <= (2 * num2) * u,
                    2 * num == u * x + r,
                    2 * num2 == u2 * x2 + r2,
                    0 <= r,
                    0 <= r2 < u2,
                    u > 0,
                    u2 > 0,
            ;
            if x == x2 && e2 {
                assert(r == 0) by (nonlinear_arith)
                    requires
                        (2 * num) * u2 <= (2 * num2) * u,
                        2 * num == u * x + r,
                        2 * num2 == u2 * x,
                        0 <= r,
                        u2 > 0,
                ;
            }
            assert(n <= n2);
        } else {
            let low = pow2((self.precision + q) as nat);
            assert(q < q2) by {
                if q2 < q {
                    let high = pow2((self.precision + q - 1) as nat);
                    let top = pow2((self.precision + q2) as nat);
                    if q2 < q - 1 {
                        lemma_pow2_strictly_increases(
                            (self.precision + q2) as nat,
                            (self.precision + q - 1) as nat,
                        );
                    }
                    assert(num * den2 > num2 * den) by (nonlinear_arith)
                        requires
                            den * high <= num,
                            num2 < den2 * top,
                            top <= high,
                            den > 0,
                            den2 > 0,
                    ;
                }
            }
            lemma_pow2_adds(self.precision as nat, q);
            lemma_pow2_adds((self.precision - 1) as nat, q2);
            assert(x < 4 * self.half) by (nonlinear_arith)
                requires
                    u * x <= 2 * num,
                    num < den * ((2 * self.half) * pow2(q)),
                    u == den * pow2(q),
                    u > 0,
            ;
            assert(x2 >= 2 * self.half) by (nonlinear_arith)
                requires
                    2 * num2 < u2 * x2 + u2,
                    den2 * (self.half * pow2(q2)) <= num2,
                    u2 == den2 * pow2(q2),
                    u2 > 0,
            ;
            assert((q + 1) * self.half <= q2 * self.half) by (nonlinear_arith)
                requires
                    q + 1 <= q2,
                    self.half >= 0,
            ;
            assert((q + 1) * self.half == q * self.half + self.half) by (nonlinear_arith);
        }
        if q == q2 {
            assert(q * self.half + n <= q2 * self.half + n2);
        }
    }

    /// The encoded magnitude of two to the power `k`.
    pub open spec fn power_of_two(self, k: nat) -> nat {
        (self.offset + k - self.precision + 2) as nat * self.half as nat
    }

    /// Two to the power `k` stands as a number of the format.
    pub proof fn lemma_power_of_two(self, k: nat)
        requires
            self.valid(),
            k <= 64,
        ensures
            self.magnitude(self.power_of_two(k)) == pow2((self.offset + k) as nat),
            0 < self.power_of_two(k) < self.infinity,
            self.rounded(pow2((self.offset + k) as nat), 1) == self.power_of_two(k),
    {
        let q = (self.offset + k - self.precision + 1) as nat;
        let half = self.half as nat;
        self.lemma_half();
        self.lemma_encoding(q, half);
        lemma_pow2_adds((self.precision - 1) as nat, q);
        assert((q + 1) * half == q * half + half) by (nonlinear_arith);
        assert(0 < (q + 1) * half <= 1087 * half) by (nonlinear_arith)
            requires
                0 <= q <= 1086,
                half > 0,
        ;
        if self.is_single() {
            assert((q + 1) * half <= 191 * half) by (nonlinear_arith)
                requires
                    q <= 190,
                    half > 0,
            ;
        }
        self.rounding_keeps_numbers(self.power_of_two(k));
    }

    /// Two to the power `k` units stands as a number in double precision.
    pub proof fn lemma_double_power(self, k: nat)
        requires
            self.is_double(),
            52 <= k <= 2000,
        ensures
            self.rounded(pow2(k), 1) == (k - 51) * self.half,
            self.rounded(pow2(k), 1) < self.infinity,
            self.magnitude(self.rounded(pow2(k), 1)) == pow2(k),
    {
        let q = (k - 52) as nat;
        let half = self.half as nat;
        self.lemma_half();
        self.lemma_encoding(q, half);
        lemma_pow2_adds(52, q);
        assert((k - 51) * half == q * half + half) by (nonlinear_arith)
            requires
                q == k - 52,
        ;
        self.rounding_keeps_numbers(((k - 51) * half) as nat);
    }

    /// What is less than a quarter of the last place of a power of two is lost
    /// when it is added.
    pub proof fn lemma_absorbed(self, k: nat, j: nat)
        requires
            self.is_double(),
            52 <= k <= 2000,
            j + 54 <= k,
        ensures
            self.rounded(pow2(k) + pow2(j), 1) == self.rounded(pow2(k), 1),
    {
        let q = (k - 52) as nat;
        let (big, small) = (pow2(k), pow2(j));
        let unit = 1 * pow2(q);
        self.lemma_half();
        lemma_pow2_adds(52, q);
        lemma_pow2_adds(53, q);
        lemma_pow2_pos(j);
        lemma_pow2_unfold((j + 1) as nat);
        lemma_pow2_strictly_increases((j + 1) as nat, q);
        assert(unit == pow2(q)) by (nonlinear_arith)
            requires
                unit == 1 * pow2(q),
        ;
        assert(2 * big == (2 * self.half) * unit) by (nonlinear_arith)
            requires
                big == self.half * unit,
        ;
        assert(pow2(53 + q) == 2 * big) by (nonlinear_arith)
            requires
                pow2(53 + q) == (2 * self.half) * unit,
                big == self.half * unit,
        ;
        assert(self.is_quantum(q, big, 1)) by {
            assert(1 * pow2((53 + q) as nat) == pow2((53 + q) as nat)) by (nonlinear_arith);
            assert(1 * pow2((53 + q - 1) as nat) == pow2((53 + q - 1) as nat)) by (nonlinear_arith);
        }
        assert(self.is_quantum(q, big + small, 1)) by {
            assert(1 * pow2((53 + q) as nat) == pow2((53 + q) as nat)) by (nonlinear_arith);
            assert(1 * pow2((53 + q - 1) as nat) == pow2((53 + q - 1) as nat)) by (nonlinear_arith);
        }
        self.lemma_quantum_unique(q, big, 1);
        self.lemma_quantum_unique(q, big + small, 1);
        lemma_fundamental_div_mod_converse(
            (2 * big) as int,
            unit as int,
            (2 * self.half) as int,
            0,
        );
        lemma_fundamental_div_mod_converse(
            (2 * (big + small)) as int,
            unit as int,
            (2 * self.half) as int,
            (2 * small) as int,
        );
        reveal(Format::rounded);
    }

    /// A whole number of machine size is finite, and at least one unless it
    /// is none.
    pub proof fn lemma_whole(self, n: nat)
        requires
            self.valid(),
            n < pow2(64),
        ensures
            self.is_finite(self.of_whole(n)),
            self.fits(self.of_whole(n)),
            !self.negative(self.of_whole(n)),
            self.of_whole(n) == self.rounded(n * pow2(self.offset as nat), 1),
            n > 0 ==> self.of_whole(n) >= self.power_of_two(0),
    {
        let unit = pow2(self.offset as nat);
        let top = pow2((self.offset + 64) as nat);
        lemma_pow2_pos(self.offset as nat);
        lemma_pow2_adds(64, self.offset as nat);
        self.lemma_power_of_two(64);
        assert((n * unit) * 1 <= top * 1) by (nonlinear_arith)
            requires
                top == pow2(64) * unit,
                n < pow2(64),
                unit > 0,
        ;
        self.rounding_keeps_order(n * unit, 1, top, 1);
        if n > 0 {
            self.lemma_power_of_two(0);
            assert(unit * 1 <= (n * unit) * 1) by (nonlinear_arith)
                requires
                    n > 0,
                    unit > 0,
            ;
            self.rounding_keeps_order(unit, 1, n * unit, 1);
        }
        self.lemma_signed(false, self.rounded(n * unit, 1));
    }

    /// Rounding yields a number of the format or infinity.
    pub proof fn lemma_rounded_bound(self, num: nat, den: nat)
        ensures
            self.rounded(num, den) <= self.infinity,
    {
        reveal(Format::rounded);
    }

    /// A sign and an encoded magnitude can be read off their pattern.
    pub proof fn lemma_signed(self, negative: bool, encoded: nat)
        requires
            self.valid(),
            encoded <= self.infinity,
        ensures
            self.fits(self.signed(negative, encoded)),
            self.negative(self.signed(negative, encoded)) == negative,
            self.encoded(self.signed(negative, encoded)) == encoded,
            self.size(self.signed(negative, encoded)) == self.magnitude(encoded),
    {
    }
}

} // verus!
