//! Rounding of exact magnitudes to a binary interchange format.
//!
//! A magnitude is measured in units of the least subnormal of the format, so
//! every finite value is a natural number of units and every exact result is
//! a quotient (or a square root) of natural numbers.
use vstd::arithmetic::div_mod::*;
use vstd::arithmetic::mul::*;
use vstd::arithmetic::power2::*;
use vstd::bits::*;
use vstd::prelude::*;

verus! {

/// The parameters of a binary interchange format.
///
/// An encoded magnitude is the pattern of exponent and fraction without the
/// sign bit; the sign bit has the weight `infinity + half`.
#[derive(Clone, Copy)]
pub struct Format {
    /// Significant bits, the implicit one counted.
    pub precision: u32,
    /// Two to the power `precision - 1`.
    pub half: u64,
    /// The encoded magnitude of infinity.
    pub infinity: u64,
    /// The least subnormal is two to the power `-offset`.
    pub offset: u32,
}

/// `n` with a remainder: `doubled` is the floor of twice the exact value, and
/// `exact` says that nothing was cut off. Ties go to the even neighbour.
pub open spec fn nearest_even(doubled: nat, exact: bool) -> nat {
    let floor = doubled / 2;
    if doubled % 2 == 1 && (!exact || floor % 2 == 1) {
        floor + 1
    } else {
        floor
    }
}

/// `r` is the floor of the square root of `v`.
pub open spec fn is_floor_root(r: nat, v: nat) -> bool {
    r * r <= v < (r + 1) * (r + 1)
}

/// The floor of the square root of `v`.
pub open spec fn floor_root(v: nat) -> nat {
    choose|r: nat| is_floor_root(r, v)
}

/// The numerator of `m * 2^t`.
pub open spec fn dyadic_num(m: nat, t: int) -> nat {
    m * pow2(if t < 0 { 0 } else { t as nat })
}

/// The denominator of `m * 2^t`.
pub open spec fn dyadic_den(t: int) -> nat {
    pow2(if t < 0 { (-t) as nat } else { 0 })
}

/// `m` starts with the bits of `v`, followed by `e` more.
#[verifier::opaque]
spec fn starts_with(m: nat, v: nat, e: nat) -> bool {
    v * pow2(e) <= m < (v + 1) * pow2(e)
}

/// Dropping `s` low bits of `v` keeps it a prefix.
proof fn lemma_strip(m: nat, v: nat, e: nat, s: nat)
    requires
        starts_with(m, v, e),
    ensures
        starts_with(m, v / pow2(s), e + s),
{
    reveal(starts_with);
    let d = pow2(s);
    let x = pow2(e);
    lemma_pow2_pos(s);
    lemma_pow2_adds(e, s);
    lemma_fundamental_div_mod(v as int, d as int);
    lemma_mod_bound(v as int, d as int);
    let w = v / d;
    assert(d * w <= v && v + 1 <= d * w + d);
    assert(w * (x * d) <= v * x) by (nonlinear_arith)
        requires
            d * w <= v,
    ;
    assert((v + 1) * x <= (w + 1) * (x * d)) by (nonlinear_arith)
        requires
            v + 1 <= d * w + d,
    ;
}

proof fn lemma_starts(m: nat, e: nat)
    ensures
        starts_with(m, m, 0),
        starts_with(m, 1, e) ==> pow2(e) <= m < pow2(e + 1),
{
    reveal(starts_with);
    lemma2_to64();
    lemma_pow2_unfold(e + 1);
    assert(m * pow2(0) == m && (m + 1) * pow2(0) == m + 1) by (nonlinear_arith)
        requires
            pow2(0) == 1,
    ;
    assert(1 * pow2(e) == pow2(e) && (1 + 1) * pow2(e) == 2 * pow2(e));
}

/// The number of significant bits of a positive integer.
pub fn bit_length(m: u128) -> (n: u32)
    requires
        m > 0,
    ensures
        1 <= n <= 128,
        pow2((n - 1) as nat) <= m < pow2(n as nat),
{
    proof {
        lemma2_to64();
        lemma_starts(m as nat, 0);
    }
    let mut v: u128 = m;
    let mut n: u32 = 0;
    if v >= 0x1_0000_0000_0000_0000 {
        proof {
            lemma_strip(m as nat, v as nat, n as nat, 64);
        }
        v = v / 0x1_0000_0000_0000_0000;
        n = n + 64;
    }
    if v >= 0x1_0000_0000 {
        proof {
            lemma_strip(m as nat, v as nat, n as nat, 32);
        }
        v = v / 0x1_0000_0000;
        n = n + 32;
    }
    if v >= 0x1_0000 {
        proof {
            lemma_strip(m as nat, v as nat, n as nat, 16);
        }
        v = v / 0x1_0000;
        n = n + 16;
    }
    if v >= 0x100 {
        proof {
            lemma_strip(m as nat, v as nat, n as nat, 8);
        }
        v = v / 0x100;
        n = n + 8;
    }
    if v >= 0x10 {
        proof {
            lemma_strip(m as nat, v as nat, n as nat, 4);
        }
        v = v / 0x10;
        n = n + 4;
    }
    if v >= 0x4 {
        proof {
            lemma_strip(m as nat, v as nat, n as nat, 2);
        }
        v = v / 0x4;
        n = n + 2;
    }
    if v >= 0x2 {
        proof {
            lemma_strip(m as nat, v as nat, n as nat, 1);
        }
        v = v / 0x2;
        n = n + 1;
    }
    proof {
        lemma_starts(m as nat, n as nat);
    }
    n + 1
}

/// A power of two exceeds its exponent.
proof fn lemma_exceeds(e: nat)
    ensures
        pow2(e) > e,
    decreases e,
{
    if e == 0 {
        lemma2_to64();
    } else {
        lemma_exceeds((e - 1) as nat);
        lemma_pow2_unfold(e);
    }
}

proof fn lemma_one_shl(k: u32)
    requires
        k < 128,
    ensures
        (1u128 << k) == pow2(k as nat),
    decreases k,
{
    if k == 0 {
        assert(1u128 << 0u32 == 1) by (bit_vector);
        lemma2_to64();
    } else {
        let j: u32 = (k - 1) as u32;
        lemma_one_shl(j);
        assert((1u128 << k) == 2 * (1u128 << j)) by (bit_vector)
            requires
                0 < k < 128,
                j == k - 1,
        ;
        lemma_pow2_unfold(k as nat);
    }
}

/// Two to the power `k`.
pub fn power(k: u32) -> (r: u128)
    requires
        k < 128,
    ensures
        r == pow2(k as nat),
        r > 0,
{
    proof {
        lemma_one_shl(k);
        lemma_pow2_pos(k as nat);
    }
    1u128 << k
}

/// The floor of `m / 2^k`.
pub fn shifted_down(m: u128, k: u32) -> (r: u128)
    requires
        k < 128,
    ensures
        r == m as nat / pow2(k as nat),
{
    proof {
        lemma_u128_shr_is_div(m, k as u128);
    }
    m >> (k as u128)
}

/// Twice `m / 2^k`, cut to a whole number.
proof fn lemma_doubled(m: nat, k: nat)
    requires
        k > 0,
    ensures
        ({
            let floor = m / pow2(k);
            let rest = m % pow2(k);
            let half = pow2((k - 1) as nat);
            &&& (2 * m) / pow2(k) == 2 * floor + (if rest >= half { 1int } else { 0 })
            &&& ((2 * m) % pow2(k) == 0) == (rest == 0 || rest == half)
        }),
{
    let d = pow2(k) as int;
    let floor = m as int / d;
    let rest = m as int % d;
    let half = pow2((k - 1) as nat);
    lemma_pow2_pos(k);
    lemma_pow2_unfold(k);
    lemma_fundamental_div_mod(m as int, d);
    lemma_mod_bound(m as int, d);
    assert(2 * m == 2 * floor * d + 2 * rest) by (nonlinear_arith)
        requires
            m == d * floor + rest,
    ;
    if rest >= half {
        assert(2 * m == (2 * floor + 1) * d + (2 * rest - d)) by (nonlinear_arith)
            requires
                2 * m == 2 * floor * d + 2 * rest,
        ;
        lemma_fundamental_div_mod_converse((2 * m) as int, d, 2 * floor + 1, 2 * rest - d);
    } else {
        lemma_fundamental_div_mod_converse((2 * m) as int, d, 2 * floor, 2 * rest);
    }
}

impl Format {
    /// The two formats of the language: double and single precision.
    pub open spec fn valid(self) -> bool {
        ||| self.is_double()
        ||| self.is_single()
    }

    pub open spec fn spec_double() -> Format {
        Format {
            precision: 53,
            half: 0x10_0000_0000_0000,
            infinity: 0x7ff0_0000_0000_0000,
            offset: 1074,
        }
    }

    pub open spec fn spec_single() -> Format {
        Format { precision: 24, half: 0x80_0000, infinity: 0x7f80_0000, offset: 149 }
    }

    /// Double precision.
    #[verifier::when_used_as_spec(spec_double)]
    pub fn double() -> (r: Format)
        ensures
            r == Format::double(),
            r.valid(),
    {
        Format {
            precision: 53,
            half: 0x10_0000_0000_0000,
            infinity: 0x7ff0_0000_0000_0000,
            offset: 1074,
        }
    }

    /// Single precision.
    #[verifier::when_used_as_spec(spec_single)]
    pub fn single() -> (r: Format)
        ensures
            r == Format::single(),
            r.valid(),
    {
        Format { precision: 24, half: 0x80_0000, infinity: 0x7f80_0000, offset: 149 }
    }

    pub open spec fn is_double(self) -> bool {
        &&& self.precision == 53
        &&& self.half == 0x10_0000_0000_0000
        &&& self.infinity == 0x7ff0_0000_0000_0000
        &&& self.offset == 1074
    }

    pub open spec fn is_single(self) -> bool {
        &&& self.precision == 24
        &&& self.half == 0x80_0000
        &&& self.infinity == 0x7f80_0000
        &&& self.offset == 149
    }

    /// The magnitude, in units of the least subnormal, that a finite encoded
    /// magnitude stands for.
    pub open spec fn magnitude(self, encoded: nat) -> nat {
        let exponent = encoded / self.half as nat;
        let fraction = encoded % self.half as nat;
        if exponent == 0 {
            fraction
        } else {
            (self.half + fraction) as nat * pow2((exponent - 1) as nat)
        }
    }

    /// `q` is the least exponent for which `num / den` stays below
    /// `2^(precision + q)`: numbers of that size are spaced `2^q` units apart.
    pub open spec fn is_quantum(self, q: nat, num: nat, den: nat) -> bool {
        &&& num < den * pow2((self.precision + q) as nat)
        &&& q == 0 || den * pow2((self.precision + q - 1) as nat) <= num
    }

    pub open spec fn quantum(self, num: nat, den: nat) -> nat {
        choose|q: nat| self.is_quantum(q, num, den)
    }

    /// The encoded magnitude of `n * 2^q`, with overflow to infinity.
    pub open spec fn packed(self, q: nat, n: nat) -> nat {
        let encoded = q * self.half as nat + n;
        if encoded < self.infinity {
            encoded
        } else {
            self.infinity as nat
        }
    }

    /// The encoded magnitude nearest to `num / den` units, ties to even.
    #[verifier::opaque]
    pub open spec fn rounded(self, num: nat, den: nat) -> nat {
        let q = self.quantum(num, den);
        let unit = den * pow2(q);
        self.packed(q, nearest_even((2 * num) / unit, (2 * num) % unit == 0))
    }

    /// `q` plays the part of `is_quantum` for the square root of `x` units.
    pub open spec fn is_root_quantum(self, q: nat, x: nat) -> bool {
        &&& x < pow2(2 * (self.precision + q) as nat)
        &&& q == 0 || pow2(2 * (self.precision + q - 1) as nat) <= x
    }

    pub open spec fn root_quantum(self, x: nat) -> nat {
        choose|q: nat| self.is_root_quantum(q, x)
    }

    /// The encoded magnitude nearest to the square root of `x`, ties to even.
    #[verifier::opaque]
    pub open spec fn rounded_root(self, x: nat) -> nat {
        let q = self.root_quantum(x);
        let doubled = floor_root((4 * x) / pow2(2 * q));
        self.packed(q, nearest_even(doubled, doubled * doubled * pow2(2 * q) == 4 * x))
    }

    pub proof fn lemma_half(self)
        requires
            self.valid(),
        ensures
            self.half == pow2((self.precision - 1) as nat),
            2 * self.half == pow2(self.precision as nat),
    {
        lemma2_to64();
        lemma2_to64_rest();
    }

    /// There is only one quantum.
    pub proof fn lemma_quantum_unique(self, q: nat, num: nat, den: nat)
        requires
            self.valid(),
            self.is_quantum(q, num, den),
        ensures
            self.quantum(num, den) == q,
    {
        let other = self.quantum(num, den);
        assert(self.is_quantum(other, num, den));
        self.lemma_quantum_order(other, q, num, den);
        self.lemma_quantum_order(q, other, num, den);
    }

    proof fn lemma_quantum_order(self, a: nat, b: nat, num: nat, den: nat)
        requires
            self.is_quantum(a, num, den),
            self.is_quantum(b, num, den),
        ensures
            b <= a,
    {
        if a < b {
            let low = (self.precision + a) as nat;
            let high = (self.precision + b - 1) as nat;
            if low < high {
                lemma_pow2_strictly_increases(low, high);
            }
            lemma_mul_inequality(pow2(low) as int, pow2(high) as int, den as int);
            lemma_mul_is_commutative(pow2(low) as int, den as int);
            lemma_mul_is_commutative(pow2(high) as int, den as int);
        }
    }

    /// Every quotient has a quantum.
    pub proof fn lemma_quantum_exists(self, num: nat, den: nat) -> (q: nat)
        requires
            self.valid(),
            den > 0,
        ensures
            self.is_quantum(q, num, den),
            self.quantum(num, den) == q,
    {
        let q = self.lemma_quantum_from(0, num, den);
        self.lemma_quantum_unique(q, num, den);
        q
    }

    proof fn lemma_quantum_from(self, from: nat, num: nat, den: nat) -> (q: nat)
        requires
            self.valid(),
            den > 0,
            from == 0 || den * pow2((self.precision + from - 1) as nat) <= num,
        ensures
            self.is_quantum(q, num, den),
        decreases num + 1 - from,
    {
        let power = pow2((self.precision + from) as nat);
        if num < den * power {
            from
        } else {
            lemma_exceeds((self.precision + from) as nat);
            assert(num >= power) by (nonlinear_arith)
                requires
                    num >= den * power,
                    den > 0,
            ;
            self.lemma_quantum_from(from + 1, num, den)
        }
    }

    /// `rounded` in terms of a quantum that is at hand.
    proof fn lemma_rounded_by(self, q: nat, num: nat, den: nat)
        requires
            self.valid(),
            self.is_quantum(q, num, den),
        ensures
            self.rounded(num, den) == self.packed(
                q,
                nearest_even((2 * num) / (den * pow2(q)), (2 * num) % (den * pow2(q)) == 0),
            ),
    {
        reveal(Format::rounded);
        self.lemma_quantum_unique(q, num, den);
    }

    /// The quantum of `m * 2^t`, from the number of bits of `m`.
    proof fn lemma_dyadic_quantum(self, m: nat, t: int, bits: nat, q: nat)
        requires
            self.valid(),
            bits > 0,
            pow2((bits - 1) as nat) <= m < pow2(bits),
            q == if bits + t - self.precision > 0 { bits + t - self.precision } else { 0 },
        ensures
            self.is_quantum(q, dyadic_num(m, t), dyadic_den(t)),
    {
        let top = (self.precision + q) as nat;
        lemma2_to64();
        if t >= 0 {
            let up = t as nat;
            lemma_pow2_pos(up);
            lemma_pow2_adds(bits, up);
            lemma_mul_strict_inequality(m as int, pow2(bits) as int, pow2(up) as int);
            if bits + up < top {
                lemma_pow2_strictly_increases(bits + up, top);
            }
            assert(1 * pow2(top) == pow2(top));
            if q > 0 {
                lemma_pow2_adds((bits - 1) as nat, up);
                lemma_mul_inequality(pow2((bits - 1) as nat) as int, m as int, pow2(up) as int);
                assert(1 * pow2((top - 1) as nat) == pow2((top - 1) as nat));
            }
        } else {
            let down = (-t) as nat;
            assert(m * pow2(0) == m) by (nonlinear_arith)
                requires
                    pow2(0) == 1,
            ;
            lemma_pow2_adds(down, top);
            if bits < down + top {
                lemma_pow2_strictly_increases(bits, down + top);
            }
            if q > 0 {
                lemma_pow2_adds(down, (top - 1) as nat);
            }
        }
    }

    /// Cutting `m * 2^t` at its quantum is a shift of `m`.
    proof fn lemma_dyadic_cut(self, m: nat, t: int, q: nat)
        ensures
            q >= t ==> {
                &&& (2 * dyadic_num(m, t)) / (dyadic_den(t) * pow2(q)) == (2 * m) / pow2(
                    (q - t) as nat,
                )
                &&& ((2 * dyadic_num(m, t)) % (dyadic_den(t) * pow2(q)) == 0) == ((2 * m) % pow2(
                    (q - t) as nat,
                ) == 0)
            },
            q <= t ==> {
                &&& (2 * dyadic_num(m, t)) / (dyadic_den(t) * pow2(q)) == 2 * (m * pow2(
                    (t - q) as nat,
                ))
                &&& (2 * dyadic_num(m, t)) % (dyadic_den(t) * pow2(q)) == 0
            },
    {
        lemma2_to64();
        assert(1 * pow2(q) == pow2(q));
        lemma_pow2_pos(q);
        if q >= t {
            let k = (q - t) as nat;
            lemma_pow2_pos(k);
            if t >= 0 {
                let up = pow2(t as nat);
                lemma_pow2_pos(t as nat);
                lemma_pow2_adds(t as nat, k);
                assert(2 * (m * up) == up * (2 * m)) by (nonlinear_arith);
                lemma_div_multiples_vanish_quotient(up as int, (2 * m) as int, pow2(k) as int);
                lemma_truncate_middle((2 * m) as int, up as int, pow2(k) as int);
                let r = (2 * m) % pow2(k);
                assert((up * r == 0) == (r == 0)) by (nonlinear_arith)
                    requires
                        up > 0,
                ;
            } else {
                lemma_pow2_adds((-t) as nat, q);
                assert(m * pow2(0) == m) by (nonlinear_arith)
                    requires
                        pow2(0) == 1,
                ;
            }
        }
        if q <= t {
            let k = (t - q) as nat;
            lemma_pow2_adds(k, q);
            let n = 2 * (m * pow2(k));
            assert(2 * (m * (pow2(k) * pow2(q))) == n * pow2(q) + 0) by (nonlinear_arith)
                requires
                    n == 2 * (m * pow2(k)),
            ;
            lemma_fundamental_div_mod_converse(
                2 * (m * (pow2(k) * pow2(q))) as int,
                pow2(q) as int,
                n as int,
                0,
            );
        }
    }

    /// The encoded magnitude nearest to `m * 2^t` units.
    pub fn round_dyadic(self, m: u128, t: i32) -> (r: u64)
        requires
            self.valid(),
            m < 0x8000_0000_0000_0000_0000_0000_0000_0000,
            -10000 <= t <= 10000,
        ensures
            r == self.rounded(dyadic_num(m as nat, t as int), dyadic_den(t as int)),
            r <= self.infinity,
    {
        if m == 0 {
            proof {
                lemma2_to64();
                let den = dyadic_den(t as int);
                lemma_pow2_pos(if t < 0 { (-t) as nat } else { 0 });
                lemma_pow2_pos(self.precision as nat);
                lemma_mul_strictly_positive(den as int, pow2(self.precision as nat) as int);
                assert(0 * pow2(if t < 0 { 0 } else { t as nat }) == 0);
                self.lemma_rounded_by(0, 0, den);
                assert(den * pow2(0) == den) by (nonlinear_arith)
                    requires
                        pow2(0) == 1,
                ;
                lemma_div_of0(den as int);
                lemma_small_mod(0, den);
            }
            return 0;
        }
        let bits: i32 = bit_length(m) as i32;
        let excess: i32 = bits + t - self.precision as i32;
        let q: i32 = if excess > 0 { excess } else { 0 };
        proof {
            self.lemma_dyadic_quantum(m as nat, t as int, bits as nat, q as nat);
            self.lemma_rounded_by(
                q as nat,
                dyadic_num(m as nat, t as int),
                dyadic_den(t as int),
            );
            self.lemma_dyadic_cut(m as nat, t as int, q as nat);
            self.lemma_half();
            lemma2_to64();
            lemma2_to64_rest();
            lemma_pow2_adds(63, 64);
        }
        if q > 2046 {
            proof {
                lemma_mul_inequality(2047, q as int, self.half as int);
                let unit = dyadic_den(t as int) * pow2(q as nat);
                lemma_pow2_pos(if t < 0 { (-t) as nat } else { 0 });
                lemma_pow2_pos(q as nat);
                lemma_mul_strictly_positive(dyadic_den(t as int) as int, pow2(q as nat) as int);
                lemma_div_pos_is_pos(2 * dyadic_num(m as nat, t as int) as int, unit as int);
            }
            return self.infinity;
        }
        let ghost doubled = (2 * dyadic_num(m as nat, t as int)) / (dyadic_den(t as int) * pow2(
            q as nat,
        ));
        let ghost exact = (2 * dyadic_num(m as nat, t as int)) % (dyadic_den(t as int) * pow2(
            q as nat,
        )) == 0;
        let n: u64 = if q <= t {
            let up: u32 = (t - q) as u32;
            proof {
                self.lemma_room(m as nat, bits as nat, up as nat);
            }
            (m * power(up)) as u64
        } else {
            self.round_shift(m, bits as u32, (q - t) as u32)
        };
        assert(n == nearest_even(doubled, exact));
        proof {
            lemma_mul_inequality(q as int, 2046, self.half as int);
        }
        let encoded: u64 = q as u64 * self.half + n;
        if encoded < self.infinity {
            encoded
        } else {
            self.infinity
        }
    }

    /// A number of `bits` bits leaves room for `up` more below the precision.
    proof fn lemma_room(self, m: nat, bits: nat, up: nat)
        requires
            self.valid(),
            m < pow2(bits),
            bits + up <= self.precision,
        ensures
            m * pow2(up) <= 2 * self.half,
            up < 128,
    {
        self.lemma_half();
        lemma_pow2_pos(up);
        lemma_pow2_adds(bits, up);
        lemma_mul_strict_inequality(m as int, pow2(bits) as int, pow2(up) as int);
        if bits + up < self.precision {
            lemma_pow2_strictly_increases(bits + up, self.precision as nat);
        }
    }

    /// `m / 2^k` to the nearest whole number, ties to even.
    fn round_shift(self, m: u128, bits: u32, k: u32) -> (n: u64)
        requires
            self.valid(),
            k > 0,
            bits <= 127,
            m < pow2(bits as nat),
            bits <= self.precision + k,
        ensures
            n == nearest_even(
                (2 * m as nat) / pow2(k as nat),
                (2 * m as nat) % pow2(k as nat) == 0,
            ),
            n <= 2 * self.half,
    {
        proof {
            self.lemma_half();
            lemma_doubled(m as nat, k as nat);
            lemma_pow2_pos(k as nat);
            lemma_fundamental_div_mod(m as int, pow2(k as nat) as int);
            lemma_mod_bound(m as int, pow2(k as nat) as int);
        }
        if k >= 128 {
            proof {
                if bits < k - 1 {
                    lemma_pow2_strictly_increases(bits as nat, (k - 1) as nat);
                }
                lemma_pow2_unfold(k as nat);
                lemma_basic_div(m as int, pow2(k as nat) as int);
                lemma_small_mod(m as nat, pow2(k as nat));
            }
            return 0;
        }
        let floor: u128 = shifted_down(m, k);
        let unit: u128 = power(k);
        let half: u128 = power(k - 1);
        proof {
            lemma_mul_is_commutative(floor as int, unit as int);
            assert(floor < 2 * self.half) by {
                lemma_pow2_adds(self.precision as nat, k as nat);
                if bits < self.precision + k {
                    lemma_pow2_strictly_increases(bits as nat, (self.precision + k) as nat);
                }
                lemma_multiply_divide_lt(m as int, unit as int, 2 * self.half);
            }
        }
        let rest: u128 = m - floor * unit;
        assert(rest == m as nat % pow2(k as nat));
        let low: u64 = floor as u64;
        if rest > half || (rest == half && low % 2 == 1) {
            low + 1
        } else {
            low
        }
    }

    /// Equal quotients round alike.
    pub proof fn lemma_rounded_equal(self, q: nat, num: nat, den: nat, num2: nat, den2: nat)
        requires
            self.valid(),
            den > 0,
            den2 > 0,
            self.is_quantum(q, num, den),
            num * den2 == num2 * den,
        ensures
            self.is_quantum(q, num2, den2),
            self.rounded(num, den) == self.rounded(num2, den2),
    {
        let top = pow2((self.precision + q) as nat);
        assert(num2 < den2 * top) by (nonlinear_arith)
            requires
                num < den * top,
                num * den2 == num2 * den,
                den > 0,
                den2 > 0,
        ;
        if q > 0 {
            let low = pow2((self.precision + q - 1) as nat);
            assert(den2 * low <= num2) by (nonlinear_arith)
                requires
                    den * low <= num,
                    num * den2 == num2 * den,
                    den > 0,
                    den2 > 0,
            ;
        }
        self.lemma_rounded_by(q, num, den);
        self.lemma_rounded_by(q, num2, den2);
        let u = den * pow2(q);
        let u2 = den2 * pow2(q);
        lemma_pow2_pos(q);
        lemma_mul_strictly_positive(den as int, pow2(q) as int);
        lemma_mul_strictly_positive(den2 as int, pow2(q) as int);
        assert(den2 * (2 * num) == den * (2 * num2)) by (nonlinear_arith)
            requires
                num * den2 == num2 * den,
        ;
        assert(den2 * u == den * u2) by (nonlinear_arith)
            requires
                u == den * pow2(q),
                u2 == den2 * pow2(q),
        ;
        lemma_div_multiples_vanish_quotient(den2 as int, (2 * num) as int, u as int);
        lemma_div_multiples_vanish_quotient(den as int, (2 * num2) as int, u2 as int);
        lemma_truncate_middle((2 * num) as int, den2 as int, u as int);
        lemma_truncate_middle((2 * num2) as int, den as int, u2 as int);
        let r = (2 * num) % u;
        let r2 = (2 * num2) % u2;
        assert((r == 0) == (r2 == 0)) by (nonlinear_arith)
            requires
                den2 * r == den * r2,
                den > 0,
                den2 > 0,
        ;
    }

    /// The midpoint of a cell of width `2^t` that starts at `m * 2^t`, cut at
    /// the quantum: nothing but the start of the cell shows.
    proof fn lemma_midpoint(self, m: nat, t: int, bits: nat, q: nat)
        requires
            self.valid(),
            bits > self.precision,
            pow2((bits - 1) as nat) <= m < pow2(bits),
            q == if bits + t - self.precision > 0 { bits + t - self.precision } else { 0 },
        ensures
            q - t >= 1,
            self.is_quantum(q, dyadic_num(2 * m + 1, t - 1), dyadic_den(t - 1)),
            self.rounded(dyadic_num(2 * m + 1, t - 1), dyadic_den(t - 1)) == self.packed(
                q,
                nearest_even(m / pow2((q - t - 1) as nat), false),
            ),
    {
        let y = 2 * m + 1;
        let k = (q - t) as nat;
        let d = pow2((k - 1) as nat);
        lemma_pow2_unfold(bits + 1);
        lemma_pow2_unfold(bits);
        self.lemma_dyadic_quantum(y, t - 1, bits + 1, q);
        self.lemma_rounded_by(q, dyadic_num(y, t - 1), dyadic_den(t - 1));
        self.lemma_dyadic_cut(y, t - 1, q);
        lemma_pow2_pos((k - 1) as nat);
        lemma_pow2_unfold(k);
        lemma_pow2_unfold(k + 1);
        let f = m / d;
        let r = m % d;
        lemma_fundamental_div_mod(m as int, d as int);
        lemma_mod_bound(m as int, d as int);
        assert(2 * y == f * (4 * d) + (4 * r + 2)) by (nonlinear_arith)
            requires
                y == 2 * m + 1,
                m == d * f + r,
        ;
        lemma_fundamental_div_mod_converse(
            (2 * y) as int,
            (4 * d) as int,
            f as int,
            (4 * r + 2) as int,
        );
    }

    /// A quotient strictly inside a cell rounds like the midpoint of the cell.
    pub proof fn lemma_inside(self, num: nat, den: nat, m: nat, t: int, bits: nat)
        requires
            self.valid(),
            den > 0,
            bits > self.precision,
            pow2((bits - 1) as nat) <= m < pow2(bits),
            dyadic_num(m, t) * den < num * dyadic_den(t) < dyadic_num(m + 1, t) * den,
        ensures
            self.rounded(num, den) == self.rounded(dyadic_num(2 * m + 1, t - 1), dyadic_den(t - 1)),
    {
        let p = self.precision as nat;
        let q: nat = if bits + t - p > 0 { (bits + t - p) as nat } else { 0 };
        self.lemma_midpoint(m, t, bits, q);
        let up: nat = if t < 0 { 0 } else { t as nat };
        let down: nat = if t < 0 { (-t) as nat } else { 0 };
        let u = pow2(up);
        let d = pow2(down);
        let k = (q - t) as nat;
        lemma_pow2_pos(up);
        lemma_pow2_pos(down);
        // bounds that make `q` the quantum
        lemma_pow2_adds(bits, up);
        lemma_pow2_adds(p + q, down);
        if bits + up < p + q + down {
            lemma_pow2_strictly_increases(bits + up, p + q + down);
        }
        let top = pow2(p + q);
        assert(num < den * top) by (nonlinear_arith)
            requires
                num * d < ((m + 1) * u) * den,
                m + 1 <= pow2(bits),
                pow2(bits) * u <= top * d,
                d > 0,
                den > 0,
                u > 0,
        ;
        if q > 0 {
            let low = pow2((p + q - 1) as nat);
            lemma_pow2_adds((bits - 1) as nat, up);
            lemma_pow2_adds((p + q - 1) as nat, down);
            assert(den * low <= num) by (nonlinear_arith)
                requires
                    (m * u) * den < num * d,
                    pow2((bits - 1) as nat) <= m,
                    pow2((bits - 1) as nat) * u == low * d,
                    d > 0,
                    den > 0,
                    u > 0,
            ;
        }
        self.lemma_rounded_by(q, num, den);
        // the cut
        let h = pow2((k - 1) as nat);
        let f = m / h;
        lemma_pow2_pos((k - 1) as nat);
        lemma_fundamental_div_mod(m as int, h as int);
        lemma_mod_bound(m as int, h as int);
        let rest = m % h;
        assert(h * f <= m && m + 1 <= h * (f + 1)) by (nonlinear_arith)
            requires
                m == h * f + rest,
                rest < h,
        ;
        lemma_pow2_unfold(k);
        lemma_pow2_adds(k, up);
        lemma_pow2_adds(q, down);
        let unit = den * pow2(q);
        lemma_pow2_pos(q);
        lemma_mul_strictly_positive(den as int, pow2(q) as int);
        assert(f * unit < 2 * num) by (nonlinear_arith)
            requires
                (m * u) * den < num * d,
                h * f <= m,
                (2 * h) * u == pow2(q) * d,
                unit == den * pow2(q),
                d > 0,
                den > 0,
                u > 0,
        ;
        assert(2 * num < (f + 1) * unit) by (nonlinear_arith)
            requires
                num * d < ((m + 1) * u) * den,
                m + 1 <= h * (f + 1),
                (2 * h) * u == pow2(q) * d,
                unit == den * pow2(q),
                d > 0,
                den > 0,
                u > 0,
        ;
        let r = 2 * num - f * unit;
        assert(2 * num == f * unit + r && r < unit) by (nonlinear_arith)
            requires
                r == 2 * num - f * unit,
                2 * num < (f + 1) * unit,
        ;
        lemma_fundamental_div_mod_converse((2 * num) as int, unit as int, f as int, r);
    }

    /// `lemma_inside` for a whole number of units.
    pub proof fn lemma_inside_whole(self, num: nat, m: nat, t: nat, bits: nat)
        requires
            self.valid(),
            bits > self.precision,
            pow2((bits - 1) as nat) <= m < pow2(bits),
            m * pow2(t) < num < (m + 1) * pow2(t),
        ensures
            self.rounded(num, 1) == self.rounded(dyadic_num(2 * m + 1, t - 1), dyadic_den(t - 1)),
    {
        lemma2_to64();
        let one = dyadic_den(t as int);
        assert(num * one == num) by (nonlinear_arith)
            requires
                one == 1,
        ;
        self.lemma_inside(num, 1, m, t as int, bits);
    }

    proof fn lemma_root_quantum_unique(self, q: nat, x: nat)
        requires
            self.valid(),
            self.is_root_quantum(q, x),
        ensures
            self.root_quantum(x) == q,
    {
        let other = self.root_quantum(x);
        assert(self.is_root_quantum(other, x));
        if other < q {
            self.lemma_root_quantum_order(other, q);
        }
        if q < other {
            self.lemma_root_quantum_order(q, other);
        }
    }

    proof fn lemma_root_quantum_order(self, a: nat, b: nat)
        requires
            a < b,
        ensures
            pow2(2 * (self.precision + a) as nat) <= pow2(2 * (self.precision + b - 1) as nat),
    {
        let low = 2 * (self.precision + a) as nat;
        let high = 2 * (self.precision + b - 1) as nat;
        if low < high {
            lemma_pow2_strictly_increases(low, high);
        }
    }

    /// `rounded_root` from a quantum and the cut value of twice the root.
    proof fn lemma_rounded_root_by(self, q: nat, x: nat, f: nat)
        requires
            self.valid(),
            self.is_root_quantum(q, x),
            f * f * (pow2(q) * pow2(q)) <= 4 * x < (f + 1) * (f + 1) * (pow2(q) * pow2(q)),
        ensures
            self.rounded_root(x) == self.packed(
                q,
                nearest_even(f, f * f * (pow2(q) * pow2(q)) == 4 * x),
            ),
    {
        reveal(Format::rounded_root);
        self.lemma_root_quantum_unique(q, x);
        lemma_pow2_adds(q, q);
        let unit = pow2(2 * q);
        lemma_pow2_pos(2 * q);
        let v = (4 * x) / unit;
        lemma_fundamental_div_mod((4 * x) as int, unit as int);
        lemma_mod_bound((4 * x) as int, unit as int);
        let rest = (4 * x) % unit;
        assert(is_floor_root(f, v)) by {
            assert(f * f <= v) by (nonlinear_arith)
                requires
                    f * f * unit <= 4 * x,
                    4 * x == unit * v + rest,
                    rest < unit,
            ;
            assert(v < (f + 1) * (f + 1)) by (nonlinear_arith)
                requires
                    4 * x < (f + 1) * (f + 1) * unit,
                    4 * x == unit * v + rest,
            ;
        }
        lemma_floor_root_unique(f, v);
    }

    /// The square root of `x` lies strictly inside a cell of width `2^t`.
    pub proof fn lemma_root_inside(self, x: nat, m: nat, t: int, bits: nat)
        requires
            self.valid(),
            bits > self.precision,
            pow2((bits - 1) as nat) <= m < pow2(bits),
            dyadic_num(m, t) * dyadic_num(m, t) < x * (dyadic_den(t) * dyadic_den(t)),
            x * (dyadic_den(t) * dyadic_den(t)) < dyadic_num(m + 1, t) * dyadic_num(m + 1, t),
        ensures
            self.rounded_root(x) == self.rounded(dyadic_num(2 * m + 1, t - 1), dyadic_den(t - 1)),
    {
        let p = self.precision as nat;
        let q: nat = if bits + t - p > 0 { (bits + t - p) as nat } else { 0 };
        self.lemma_midpoint(m, t, bits, q);
        let up: nat = if t < 0 { 0 } else { t as nat };
        let down: nat = if t < 0 { (-t) as nat } else { 0 };
        let u = pow2(up);
        let d = pow2(down);
        let k = (q - t) as nat;
        lemma_pow2_pos(up);
        lemma_pow2_pos(down);
        lemma_pow2_adds(bits, up);
        lemma_pow2_adds(p + q, down);
        if bits + up < p + q + down {
            lemma_pow2_strictly_increases(bits + up, p + q + down);
        }
        let top = pow2(p + q);
        lemma_pow2_adds(p + q, p + q);
        assert((m + 1) * u <= top * d) by (nonlinear_arith)
            requires
                m + 1 <= pow2(bits),
                pow2(bits) * u <= top * d,
        ;
        lemma_square_below(x, (m + 1) * u, top, d);
        if q > 0 {
            let low = pow2((p + q - 1) as nat);
            lemma_pow2_adds((bits - 1) as nat, up);
            lemma_pow2_adds((p + q - 1) as nat, down);
            lemma_pow2_adds((p + q - 1) as nat, (p + q - 1) as nat);
            assert(low * d <= m * u) by (nonlinear_arith)
                requires
                    pow2((bits - 1) as nat) <= m,
                    pow2((bits - 1) as nat) * u == low * d,
            ;
            lemma_square_above(x, m * u, low, d);
        }
        let h = pow2((k - 1) as nat);
        let f = m / h;
        let rest = m % h;
        lemma_pow2_pos((k - 1) as nat);
        lemma_fundamental_div_mod(m as int, h as int);
        lemma_mod_bound(m as int, h as int);
        assert(h * f <= m && m + 1 <= h * (f + 1)) by (nonlinear_arith)
            requires
                m == h * f + rest,
                rest < h,
        ;
        lemma_pow2_unfold(k);
        lemma_pow2_adds(k, up);
        lemma_pow2_adds(q, down);
        let w = pow2(q);
        assert((f * w) * d <= 2 * (m * u)) by (nonlinear_arith)
            requires
                h * f <= m,
                (2 * h) * u == w * d,
        ;
        assert(2 * ((m + 1) * u) <= ((f + 1) * w) * d) by (nonlinear_arith)
            requires
                m + 1 <= h * (f + 1),
                (2 * h) * u == w * d,
        ;
        assert((2 * (m * u)) * (2 * (m * u)) < (4 * x) * (d * d)) by (nonlinear_arith)
            requires
                (m * u) * (m * u) < x * (d * d),
        ;
        let n = (m + 1) * u;
        assert((4 * x) * (d * d) < (2 * n) * (2 * n)) by (nonlinear_arith)
            requires
                x * (d * d) < n * n,
        ;
        lemma_square_above(4 * x, 2 * (m * u), f * w, d);
        lemma_square_below(4 * x, 2 * ((m + 1) * u), (f + 1) * w, d);
        assert((f * w) * (f * w) == f * f * (w * w)) by (nonlinear_arith);
        assert(((f + 1) * w) * ((f + 1) * w) == (f + 1) * (f + 1) * (w * w)) by (nonlinear_arith);
        self.lemma_rounded_root_by(q, x, f);
    }

    /// The square root of `x` is `m * 2^t`.
    pub proof fn lemma_root_exact(self, x: nat, m: nat, t: int, bits: nat)
        requires
            self.valid(),
            bits > self.precision,
            pow2((bits - 1) as nat) <= m < pow2(bits),
            dyadic_num(m, t) * dyadic_num(m, t) == x * (dyadic_den(t) * dyadic_den(t)),
        ensures
            self.rounded_root(x) == self.rounded(dyadic_num(m, t), dyadic_den(t)),
    {
        let p = self.precision as nat;
        let q: nat = if bits + t - p > 0 { (bits + t - p) as nat } else { 0 };
        let num = dyadic_num(m, t);
        let d = dyadic_den(t);
        lemma_pow2_pos(if t < 0 { (-t) as nat } else { 0 });
        self.lemma_dyadic_quantum(m, t, bits, q);
        self.lemma_rounded_by(q, num, d);
        let top = pow2(p + q);
        lemma_pow2_adds(p + q, p + q);
        assert(x < top * top) by (nonlinear_arith)
            requires
                num * num == x * (d * d),
                num < d * top,
                d > 0,
        ;
        if q > 0 {
            let low = pow2((p + q - 1) as nat);
            lemma_pow2_adds((p + q - 1) as nat, (p + q - 1) as nat);
            assert(low * low <= x) by (nonlinear_arith)
                requires
                    num * num == x * (d * d),
                    d * low <= num,
                    d > 0,
            ;
        }
        let w = pow2(q);
        let unit = d * w;
        lemma_pow2_pos(q);
        lemma_mul_strictly_positive(d as int, w as int);
        let g = (2 * num) / unit;
        let rest = (2 * num) % unit;
        lemma_fundamental_div_mod((2 * num) as int, unit as int);
        lemma_mod_bound((2 * num) as int, unit as int);
        assert((2 * num) * (2 * num) == (4 * x) * (d * d)) by (nonlinear_arith)
            requires
                num * num == x * (d * d),
        ;
        assert((g * w) * d <= 2 * num && 2 * num < ((g + 1) * w) * d && (rest == 0 ==> (g * w) * d
            == 2 * num) && (rest > 0 ==> (g * w) * d < 2 * num)) by (nonlinear_arith)
            requires
                2 * num == unit * g + rest,
                unit == d * w,
                rest < unit,
        ;
        lemma_square_between(4 * x, 2 * num, g * w, (g + 1) * w, d);
        assert((g * w) * (g * w) == g * g * (w * w)) by (nonlinear_arith);
        assert(((g + 1) * w) * ((g + 1) * w) == (g + 1) * (g + 1) * (w * w)) by (nonlinear_arith);
        self.lemma_rounded_root_by(q, x, g);
    }
}

proof fn lemma_floor_root_unique(r: nat, v: nat)
    requires
        is_floor_root(r, v),
    ensures
        floor_root(v) == r,
{
    let other = floor_root(v);
    assert(is_floor_root(other, v));
    assert(other == r) by (nonlinear_arith)
        requires
            r * r <= v < (r + 1) * (r + 1),
            other * other <= v < (other + 1) * (other + 1),
    ;
}

proof fn lemma_square_below(x: nat, n: nat, a: nat, d: nat)
    requires
        x * (d * d) < n * n,
        n <= a * d,
        d > 0,
    ensures
        x < a * a,
{
    let b = a * d;
    assert(n * n <= b * b) by (nonlinear_arith)
        requires
            n <= b,
    ;
    assert(b * b == (a * a) * (d * d)) by (nonlinear_arith)
        requires
            b == a * d,
    ;
    assert(x < a * a) by (nonlinear_arith)
        requires
            x * (d * d) < (a * a) * (d * d),
    ;
}

proof fn lemma_square_above(x: nat, n: nat, a: nat, d: nat)
    requires
        n * n < x * (d * d),
        a * d <= n,
        d > 0,
    ensures
        a * a < x,
{
    let b = a * d;
    assert(b * b <= n * n) by (nonlinear_arith)
        requires
            b <= n,
    ;
    assert(b * b == (a * a) * (d * d)) by (nonlinear_arith)
        requires
            b == a * d,
    ;
    assert(a * a < x) by (nonlinear_arith)
        requires
            (a * a) * (d * d) < x * (d * d),
    ;
}

proof fn lemma_square_between(x: nat, n: nat, a: nat, c: nat, d: nat)
    requires
        n * n == x * (d * d),
        a * d <= n < c * d,
        d > 0,
    ensures
        a * a <= x < c * c,
        (a * d == n) == (a * a == x),
{
    let dd = d * d;
    let b = a * d;
    let e = c * d;
    assert(b * b == (a * a) * dd) by (nonlinear_arith)
        requires
            b == a * d,
            dd == d * d,
    ;
    assert(e * e == (c * c) * dd) by (nonlinear_arith)
        requires
            e == c * d,
            dd == d * d,
    ;
    assert(dd > 0) by (nonlinear_arith)
        requires
            dd == d * d,
            d > 0,
    ;
    assert(b * b <= n * n && n * n < e * e && (b == n) == (b * b == n * n)) by (nonlinear_arith)
        requires
            b <= n < e,
    ;
    let s = a * a;
    let z = c * c;
    assert(s <= x && x < z && (s * dd == x * dd) == (s == x)) by (nonlinear_arith)
        requires
            s * dd <= x * dd,
            x * dd < z * dd,
            dd > 0,
    ;
}

} // verus!
