//! What the operations do to the values that numbers stand for.
//!
//! A value is a whole number of units, so results are compared with exact
//! ones: they agree but for a few parts in `2^52` and a few units.
use vstd::arithmetic::power2::*;
use vstd::prelude::*;

use crate::float::double::F64;
use crate::float::rounding::Format;
use crate::float::single::F32;
use crate::linear::{Vec2, Vec3};

verus! {

/// `a` is `b` but for `k` parts in `2^52` and `s` more.
pub open spec fn about(a: int, b: int, k: int, s: int) -> bool {
    crate::nearness::magnitude_of(a - b) * 0x10_0000_0000_0000 <= k
        * crate::nearness::magnitude_of(b) + s * 0x10_0000_0000_0000
}

/// The square of a length is a sum of squares, but for one part in `2^40` and
/// what is lost where squares vanish.
pub open spec fn is_length(n: int, square: int) -> bool {
    crate::nearness::magnitude_of(n * n - square) * 0x100_0000_0000 <= square
        + 0x1000_0000_0000 * crate::nearness::one_unit()
}

/// Numbers are ordered by their values.
pub proof fn order_is_by_value(a: F64, b: F64)
    requires
        a.finite(),
        b.finite(),
    ensures
        a.less(b) == (a.value() < b.value()),
        a.at_most(b) == (a.value() <= b.value()),
{
    reveal(F64::spec_less);
    reveal(F64::spec_at_most);
}

/// The absolute value of a number and of its opposite.
pub proof fn absolute_values(a: F64)
    ensures
        a.abs() == a.negated().abs(),
        a.abs().finite() == a.finite(),
        a.finite() ==> a.abs().value() == crate::nearness::magnitude_of(a.value()),
{
    Format::double().lemma_zero();
}

/// The bound of a sum's rounding.
proof fn lemma_places(n: int) -> (w: int)
    requires
        n >= 0,
    ensures
        1 <= w,
        n <= 0x10_0000_0000_0000 * w <= n + 0x10_0000_0000_0000,
{
    n / 0x10_0000_0000_0000 + 1
}

/// A finite sum is the exact one but for rounding.
pub proof fn sums_are_about_exact(a: F64, b: F64)
    requires
        a.plus(b).finite(),
    ensures
        about(a.plus(b).value(), a.value() + b.value(), 1, 1),
        a.finite(),
        b.finite(),
{
    crate::nearness::lemma_sum_parts(a, b);
    let exact = a.value() + b.value();
    let w = lemma_places(crate::nearness::magnitude_of(exact));
    crate::nearness::lemma_sum_error(a, b, w);
}

/// A finite difference is the exact one but for rounding.
pub proof fn differences_are_about_exact(a: F64, b: F64)
    requires
        a.minus(b).finite(),
    ensures
        about(a.minus(b).value(), a.value() - b.value(), 1, 1),
        a.finite(),
        b.finite(),
{
    sums_are_about_exact(a, b.negated());
    crate::nearness::lemma_negated(b.negated());
    crate::nearness::lemma_negated(b);
}

/// A finite product is the exact one but for rounding.
pub proof fn products_are_about_exact(a: F64, b: F64)
    requires
        a.times(b).finite(),
    ensures
        about(
            a.times(b).value() * crate::nearness::one_unit(),
            a.value() * b.value(),
            1,
            crate::nearness::one_unit(),
        ),
        a.finite(),
        b.finite(),
{
    let u = crate::nearness::one_unit();
    lemma_pow2_pos(1074);
    crate::nearness::lemma_product_parts(a, b);
    let exact = crate::nearness::magnitude_of(a.value() * b.value());
    let w = exact / (u * 0x10_0000_0000_0000) + 1;
    let e = u * 0x10_0000_0000_0000;
    assert(e > 0);
    vstd::arithmetic::div_mod::lemma_fundamental_div_mod(exact, e);
    vstd::arithmetic::div_mod::lemma_mod_bound(exact, e);
    vstd::arithmetic::div_mod::lemma_div_pos_is_pos(exact, e);
    assert(e * w == e * (exact / e) + e) by (nonlinear_arith)
        requires
            w == exact / e + 1,
    ;
    assert(u * (0x10_0000_0000_0000 * w) == e * w) by (nonlinear_arith)
        requires
            e == u * 0x10_0000_0000_0000,
    ;
    crate::nearness::lemma_product_error(a, b, w);
    assert((w * u) * 0x10_0000_0000_0000 == e * w) by (nonlinear_arith)
        requires
            e == u * 0x10_0000_0000_0000,
    ;
}

/// A square has no sign.
pub proof fn lemma_square(x: int)
    ensures
        x * x >= 0,
        x * x == crate::nearness::magnitude_of(x) * crate::nearness::magnitude_of(x),
{
    assert(x * x >= 0) by (nonlinear_arith);
    assert((-x) * (-x) == x * x) by (nonlinear_arith);
}

/// A finite root squared is its argument but for rounding.
pub proof fn roots_are_about_exact(a: F64)
    requires
        a.sqrt().finite(),
    ensures
        a.finite(),
        a.value() >= 0,
        a.sqrt().value() >= 0,
        ({
            let (n, x) = (a.sqrt().value(), a.value() * crate::nearness::one_unit());
            crate::nearness::magnitude_of(n * n - x) * 0x10_0000_0000_0000 <= 8 * (n * n)
                + 0x10_0000_0000_0000 * crate::nearness::one_unit()
        }),
{
    let f = Format::double();
    let u = crate::nearness::one_unit();
    let e = 0x10_0000_0000_0000int;
    reveal(F64::spec_sqrt);
    lemma_pow2_pos(1074);
    f.lemma_zero();
    lemma_pow2_adds(53, 53);
    lemma_pow2_strictly_increases(106, 1074);
    lemma2_to64_rest();
    assert(4 * (e * e) <= u);
    if f.is_zero(a.bits) {
        assert(a.value() == 0);
        let n = a.sqrt().value();
        assert(n * n == 0 && a.value() * u == 0) by (nonlinear_arith)
            requires
                n == 0,
                a.value() == 0,
        ;
    } else {
        let x = f.size(a.bits) * pow2(1074);
        assert(!f.negative(a.bits));
        assert(!f.is_infinite(a.bits));
        let r = f.rounded_root(x);
        assert(r <= f.infinity) by {
            reveal(Format::rounded_root);
        }
        f.lemma_signed(false, r);
        let p = f.lemma_root_error(x);
        let n = a.sqrt().value();
        assert(n == f.magnitude(r));
        let (nn, np, pp) = (n * n, n * p, p * p);
        assert((2 * n - p) * (2 * n - p) == 4 * nn - 4 * np + pp) by (nonlinear_arith)
            requires
                nn == n * n,
                np == n * p,
                pp == p * p,
        ;
        assert((2 * n + 2 * p) * (2 * n + 2 * p) == 4 * nn + 8 * np + 4 * pp) by (nonlinear_arith)
            requires
                nn == n * n,
                np == n * p,
                pp == p * p,
        ;
        assert(np * e <= nn + n * e) by (nonlinear_arith)
            requires
                np == n * p,
                nn == n * n,
                p * e <= n + e,
                n >= 0,
        ;
        assert(2 * (n * e) <= nn + e * e) by (nonlinear_arith)
            requires
                nn == n * n,
        ;
        assert(pp * (e * e) <= 2 * nn + 2 * (e * e)) by (nonlinear_arith)
            requires
                pp == p * p,
                nn == n * n,
                0 <= p * e <= n + e,
                e > 0,
        ;
        assert(pp >= 1) by (nonlinear_arith)
            requires
                pp == p * p,
                p >= 1,
        ;
        assert(pp * e <= pp * (e * e)) by (nonlinear_arith)
            requires
                pp >= 1,
                e == 0x10_0000_0000_0000,
        ;
        assert(nn >= 0 && np >= 0) by (nonlinear_arith)
            requires
                nn == n * n,
                np == n * p,
                n >= 0,
                p >= 1,
        ;
        if 2 * n < p {
            assert(n == 0) by (nonlinear_arith)
                requires
                    0 <= 2 * n < p,
                    p * e <= n + e,
                    e == 0x10_0000_0000_0000,
            ;
            assert(nn == 0) by (nonlinear_arith)
                requires
                    nn == n * n,
                    n == 0,
            ;
            assert(nn - x <= np);
        } else {
            assert(nn - x <= np);
        }
        assert(a.value() * u == x);
        assert(x - nn <= 2 * np + pp);
        assert((x - nn) * e <= 8 * nn + e * u);
        assert((nn - x) * e <= 8 * nn + e * u);
    }
}

/// The length of a sum of squares.
proof fn lemma_length(n: int, s: int, t: int)
    requires
        t >= 0,
        ({
            let (u, e) = (crate::nearness::one_unit(), 0x10_0000_0000_0000int);
            &&& crate::nearness::magnitude_of(n * n - s * u) * e <= 8 * (n * n) + e * u
            &&& crate::nearness::magnitude_of(s * u - t) * e <= 8 * t + 8 * (e * u)
        }),
    ensures
        is_length(n, t),
{
    lemma_pow2_pos(1074);
}

/// The sum of two squares of finite numbers, rounded.
proof fn lemma_two_squares(x: F64, y: F64)
    requires
        x.times(x).plus(y.times(y)).finite(),
    ensures
        x.finite(),
        y.finite(),
        ({
            let (u, e) = (crate::nearness::one_unit(), 0x10_0000_0000_0000int);
            let s = x.times(x).plus(y.times(y)).value();
            let t = x.value() * x.value() + y.value() * y.value();
            &&& t >= 0
            &&& crate::nearness::magnitude_of(s * u - t) * e <= 4 * t + 4 * (e * u)
        }),
{
    let (u, e) = (crate::nearness::one_unit(), 0x10_0000_0000_0000int);
    lemma_pow2_pos(1074);
    let (p, q) = (x.times(x), y.times(y));
    sums_are_about_exact(p, q);
    products_are_about_exact(x, x);
    products_are_about_exact(y, y);
    lemma_square(x.value());
    lemma_square(y.value());
    let s = p.plus(q).value();
    let sum = p.value() + q.value();
    let m = crate::nearness::magnitude_of(sum);
    assert(crate::nearness::magnitude_of(s * u - sum * u) * e <= m * u + e * u) by {
        let d = s - sum;
        assert(s * u - sum * u == d * u) by (nonlinear_arith)
            requires
                d == s - sum,
        ;
        assert(crate::nearness::magnitude_of(d * u) * e == (crate::nearness::magnitude_of(d) * e)
            * u) by {
            let k = crate::nearness::magnitude_of(d);
            assert((d * u == k * u) || (d * u == -(k * u))) by (nonlinear_arith)
                requires
                    d == k || d == -k,
            ;
            assert(k * u >= 0) by (nonlinear_arith)
                requires
                    k >= 0,
                    u > 0,
            ;
            assert((k * u) * e == (k * e) * u) by (nonlinear_arith);
        }
        let k = crate::nearness::magnitude_of(d) * e;
        assert(k * u <= (m + e) * u) by (nonlinear_arith)
            requires
                k <= m + e,
                u > 0,
        ;
        assert((m + e) * u == m * u + e * u) by (nonlinear_arith);
    }
    assert(m * u == crate::nearness::magnitude_of(sum * u)) by {
        assert((sum * u == m * u) || (sum * u == -(m * u))) by (nonlinear_arith)
            requires
                sum == m || sum == -m,
        ;
        assert(m * u >= 0) by (nonlinear_arith)
            requires
                m >= 0,
                u > 0,
        ;
    }
    assert(sum * u == p.value() * u + q.value() * u) by (nonlinear_arith)
        requires
            sum == p.value() + q.value(),
    ;
}

/// The length of a vector of the plane is that of its two components.
pub proof fn plane_lengths(v: Vec2)
    requires
        v.norm().finite(),
    ensures
        v.x.finite(),
        v.y.finite(),
        v.norm().value() >= 0,
        is_length(
            v.norm().value(),
            v.x.value() * v.x.value() + v.y.value() * v.y.value(),
        ),
{
    reveal(Vec2::spec_dot);
    roots_are_about_exact(v.dot(v));
    lemma_two_squares(v.x, v.y);
    lemma_pow2_pos(1074);
    lemma_length(
        v.norm().value(),
        v.dot(v).value(),
        v.x.value() * v.x.value() + v.y.value() * v.y.value(),
    );
}

/// Exchanging the components of a vector keeps its length.
pub proof fn lengths_have_no_axis(v: Vec2)
    ensures
        (Vec2 { x: v.y, y: v.x }).norm() == v.norm(),
{
    reveal(Vec2::spec_dot);
    crate::float::double::sums_commute(v.x.times(v.x), v.y.times(v.y));
}

/// A distance is that between two places, but for one part in `2^39` and what is
/// lost where squares vanish.
pub open spec fn spans(n: int, square: int) -> bool {
    crate::nearness::magnitude_of(n * n - square) * 0x80_0000_0000 <= square
        + 0x1000_0000_0000 * crate::nearness::one_unit()
}

/// The square of a rounded difference.
proof fn lemma_gap_square(g: int, d: int)
    requires
        about(g, d, 1, 1),
    ensures
        ({
            let (u, e) = (crate::nearness::one_unit(), 0x10_0000_0000_0000int);
            crate::nearness::magnitude_of(g * g - d * d) * e <= 8 * (d * d) + e * u
        }),
{
    let (u, e) = (crate::nearness::one_unit(), 0x10_0000_0000_0000int);
    let r = g - d;
    let (m, k) = (crate::nearness::magnitude_of(d), crate::nearness::magnitude_of(r));
    lemma_pow2_adds(53, 53);
    lemma_pow2_strictly_increases(106, 1074);
    lemma2_to64_rest();
    assert(4 * (e * e) <= u);
    let (dd, mk, kk) = (d * d, m * k, k * k);
    lemma_square(d);
    lemma_square(r);
    assert(g * g - d * d == 2 * (d * r) + r * r) by (nonlinear_arith)
        requires
            r == g - d,
    ;
    crate::nearness::lemma_abs_product(d, r, m, k);
    assert(mk * e <= dd + m * e) by (nonlinear_arith)
        requires
            mk == m * k,
            dd == m * m,
            k * e <= m + e,
            m >= 0,
    ;
    assert(2 * (m * e) <= dd + e * e) by (nonlinear_arith)
        requires
            dd == m * m,
    ;
    assert(kk * (e * e) <= 2 * dd + 2 * (e * e)) by (nonlinear_arith)
        requires
            kk == k * k,
            dd == m * m,
            0 <= k * e <= m + e,
            e > 0,
    ;
    assert(kk >= 0 && kk * e <= kk * (e * e)) by (nonlinear_arith)
        requires
            kk == k * k,
            e == 0x10_0000_0000_0000,
    ;
    assert(mk >= 0) by (nonlinear_arith)
        requires
            mk == m * k,
            m >= 0,
            k >= 0,
    ;
}

/// No length is without a value while its components have one.
pub proof fn lengths_have_values(v: Vec2)
    requires
        !v.x.nan(),
        !v.y.nan(),
    ensures
        !v.norm().nan(),
        v.norm().value() >= 0,
{
    let f = Format::double();
    reveal(Vec2::spec_dot);
    reveal(F64::spec_times);
    reveal(F64::spec_plus);
    reveal(F64::spec_sqrt);
    f.lemma_zero();
    let (p, q) = (v.x.times(v.x), v.y.times(v.y));
    let (np, nq) = (
        f.rounded(f.size(v.x.bits) * f.size(v.x.bits), pow2(1074)),
        f.rounded(f.size(v.y.bits) * f.size(v.y.bits), pow2(1074)),
    );
    f.lemma_rounded_bound(f.size(v.x.bits) * f.size(v.x.bits), pow2(1074));
    f.lemma_rounded_bound(f.size(v.y.bits) * f.size(v.y.bits), pow2(1074));
    f.lemma_signed(false, np);
    f.lemma_signed(false, nq);
    f.lemma_signed(false, f.infinity as nat);
    f.lemma_signed(false, 0);
    assert(!p.nan() && !f.negative(p.bits));
    assert(!q.nan() && !f.negative(q.bits));
    let exact = p.value() + q.value();
    assert(exact >= 0);
    f.lemma_rounded_bound(exact as nat, 1);
    f.lemma_signed(false, f.rounded(exact as nat, 1));
    let s = p.plus(q);
    assert(!s.nan() && !f.negative(s.bits));
    let x = f.size(s.bits) * pow2(1074);
    let r = f.rounded_root(x);
    assert(r <= f.infinity) by {
        reveal(Format::rounded_root);
    }
    f.lemma_signed(false, r);
}

/// An infinite value exceeds every finite one.
pub proof fn infinities_exceed(a: F64, b: F64)
    requires
        !a.nan(),
        a.value() >= 0,
        b.finite(),
        a.value() <= b.value(),
    ensures
        a.finite(),
{
    let f = Format::double();
    if !a.finite() {
        f.lemma_monotone(f.encoded(b.bits), f.encoded(a.bits));
    }
}

/// The length of the difference of two places is their distance.
pub proof fn distances_between_places(p: Vec2, q: Vec2)
    requires
        p.minus(q).norm().finite(),
    ensures
        p.x.finite(),
        p.y.finite(),
        q.x.finite(),
        q.y.finite(),
        p.minus(q).norm().value() >= 0,
        ({
            let (dx, dy) = (p.x.value() - q.x.value(), p.y.value() - q.y.value());
            spans(p.minus(q).norm().value(), dx * dx + dy * dy)
        }),
{
    let gap = p.minus(q);
    let (dx, dy) = (p.x.value() - q.x.value(), p.y.value() - q.y.value());
    plane_lengths(gap);
    differences_are_about_exact(p.x, q.x);
    differences_are_about_exact(p.y, q.y);
    lemma_gap_square(gap.x.value(), dx);
    lemma_gap_square(gap.y.value(), dy);
    lemma_square(dx);
    lemma_square(dy);
    lemma_pow2_pos(1074);
}

/// What a bound on a distance says of its square.
pub proof fn lemma_bounded_span(n: int, square: int, r: int)
    requires
        spans(n, square),
        0 <= n,
        0 <= square,
    ensures
        n <= r ==> square * 0x7f_ffff_ffff <= 0x80_0000_0000 * (r * r)
            + 0x1000_0000_0000 * crate::nearness::one_unit(),
        0 <= r < n ==> 0x80_0000_0000 * (r * r) < square * 0x80_0000_0001
            + 0x1000_0000_0000 * crate::nearness::one_unit(),
{
    let nn = n * n;
    if n <= r {
        assert(nn <= r * r) by (nonlinear_arith)
            requires
                nn == n * n,
                0 <= n <= r,
        ;
    }
    if 0 <= r < n {
        assert(r * r < nn) by (nonlinear_arith)
            requires
                nn == n * n,
                0 <= r < n,
        ;
    }
}

/// The pattern of 100.0.
pub proof fn lemma_hundred()
    ensures
        F64::from_bits(0x4059_0000_0000_0000).finite(),
        F64::from_bits(0x4059_0000_0000_0000).value() == 100 * crate::nearness::one_unit(),
{
    lemma2_to64_rest();
    lemma_pow2_adds(46, 1028);
    let f = Format::double();
    assert(0x4059_0000_0000_0000nat / 0x10_0000_0000_0000 == 1029);
    assert(0x4059_0000_0000_0000nat % 0x10_0000_0000_0000 == 0x9_0000_0000_0000);
    let (h, p, q) = ((f.half + 0x9_0000_0000_0000) as nat, pow2(1028), pow2(46));
    assert(f.size(0x4059_0000_0000_0000) == h * p);
    assert(h * p == 100 * (q * p)) by (nonlinear_arith)
        requires
            h == 100 * q,
    ;
}

/// The pattern of 0.5.
pub proof fn lemma_half()
    ensures
        F64::from_bits(0x3fe0_0000_0000_0000).finite(),
        2 * F64::from_bits(0x3fe0_0000_0000_0000).value() == crate::nearness::one_unit(),
{
    lemma2_to64_rest();
    lemma_pow2_adds(53, 1021);
    let f = Format::double();
    assert(0x3fe0_0000_0000_0000nat / 0x10_0000_0000_0000 == 1022);
    let (h, p, q) = (f.half as nat, pow2(1021), pow2(53));
    assert(f.size(0x3fe0_0000_0000_0000) == h * p);
    assert(2 * (h * p) == q * p) by (nonlinear_arith)
        requires
            q == 2 * h,
    ;
}

/// A finite quotient times its divisor is the dividend but for rounding.
pub proof fn quotients_are_about_exact(a: F64, b: F64)
    requires
        a.over(b).finite(),
        a.finite(),
        b.finite(),
        !b.zero(),
    ensures
        ({
            let (u, e) = (crate::nearness::one_unit(), 0x10_0000_0000_0000int);
            crate::nearness::magnitude_of(a.over(b).value() * b.value() - a.value() * u) * e
                <= crate::nearness::magnitude_of(a.value()) * u + e
                * crate::nearness::magnitude_of(b.value())
        }),
{
    let f = Format::double();
    let u = pow2(1074);
    let e = 0x10_0000_0000_0000int;
    reveal(F64::spec_over);
    lemma_pow2_pos(1074);
    let (x, y) = (f.size(a.bits), f.size(b.bits));
    crate::float::double::zero_has_no_value(b);
    let num = x * u;
    assert(num >= 0) by (nonlinear_arith)
        requires
            num == x * u,
            x >= 0,
            u >= 0,
    ;
    let r = f.rounded(num, y);
    let negative = f.negative(a.bits) != f.negative(b.bits);
    f.lemma_rounded_bound(num, y);
    f.lemma_signed(negative, r);
    let m = f.magnitude(r) as int;
    let den = y * e;
    let w = num as int / den + 1;
    assert(den > 0);
    vstd::arithmetic::div_mod::lemma_fundamental_div_mod(num as int, den);
    vstd::arithmetic::div_mod::lemma_mod_bound(num as int, den);
    vstd::arithmetic::div_mod::lemma_div_pos_is_pos(num as int, den);
    assert(den * w == den * (num as int / den) + den) by (nonlinear_arith)
        requires
            w == num as int / den + 1,
    ;
    assert(y * (e * w) == den * w) by (nonlinear_arith)
        requires
            den == y * e,
    ;
    f.lemma_error(num, y, w);
    assert((w * y) * e == den * w) by (nonlinear_arith)
        requires
            den == y * e,
    ;
    let v = a.over(b).value();
    let (p, q) = (a.value(), b.value());
    assert(v * q == m * y || v * q == -(m * y)) by (nonlinear_arith)
        requires
            v == m || v == -m,
            q == y || q == -y,
    ;
    assert(f.negative(a.bits) ==> v * q == -(m * y)) by (nonlinear_arith)
        requires
            f.negative(a.bits) ==> (v == m && q == -y) || (v == -m && q == y),
    ;
    assert(!f.negative(a.bits) ==> v * q == m * y) by (nonlinear_arith)
        requires
            !f.negative(a.bits) ==> (v == m && q == y) || (v == -m && q == -y),
    ;
    assert(f.negative(a.bits) ==> p * u == -num) by (nonlinear_arith)
        requires
            f.negative(a.bits) ==> p == -x,
            num == x * u,
    ;
    assert(crate::nearness::magnitude_of(p) == x);
}

/// One square more in a sum of squares.
proof fn lemma_more_squares(sum: F64, t: int, z: F64, k: int)
    requires
        sum.plus(z.times(z)).finite(),
        t >= 0,
        1 <= k <= 32,
        sum.finite() ==> crate::nearness::magnitude_of(
            sum.value() * crate::nearness::one_unit() - t,
        ) * 0x10_0000_0000_0000 <= k * t + k * (0x10_0000_0000_0000
            * crate::nearness::one_unit()),
    ensures
        sum.finite(),
        z.finite(),
        ({
            let (u, e) = (crate::nearness::one_unit(), 0x10_0000_0000_0000int);
            let r = sum.plus(z.times(z)).value();
            let s = t + z.value() * z.value();
            &&& s >= t
            &&& crate::nearness::magnitude_of(r * u - s) * e <= (k + 3) * s + (k + 3) * (e * u)
        }),
{
    let (u, e) = (crate::nearness::one_unit(), 0x10_0000_0000_0000int);
    lemma_pow2_pos(1074);
    let q = z.times(z);
    sums_are_about_exact(sum, q);
    products_are_about_exact(z, z);
    lemma_square(z.value());
    let r = sum.plus(q).value();
    let s = t + z.value() * z.value();
    let exact = sum.value() + q.value();
    lemma_scaled_error(r, exact, u);
    assert(exact * u == sum.value() * u + q.value() * u) by (nonlinear_arith)
        requires
            exact == sum.value() + q.value(),
    ;
    let zz = z.value() * z.value();
    let m = crate::nearness::magnitude_of(exact * u);
    let eu = e * u;
    let (kt, ks, keu) = (k * t, k * s, k * eu);
    assert(ks >= kt && kt >= 0 && keu >= 0) by (nonlinear_arith)
        requires
            kt == k * t,
            ks == k * s,
            keu == k * eu,
            s >= t >= 0,
            eu >= 0,
            k >= 1,
    ;
    assert((k + 3) * s == ks + 3 * s && (k + 3) * eu == keu + 3 * eu) by (nonlinear_arith)
        requires
            ks == k * s,
            keu == k * eu,
    ;
    assert(ks <= 32 * s && keu <= 32 * eu) by (nonlinear_arith)
        requires
            ks == k * s,
            keu == k * eu,
            k <= 32,
            s >= 0,
            eu >= 0,
    ;
    assert(m * e <= s * e + ks + s + keu + eu);
}

/// An error in units, seen in squares of units.
pub proof fn lemma_scaled_error(r: int, exact: int, u: int)
    requires
        about(r, exact, 1, 1),
        u > 0,
    ensures
        crate::nearness::magnitude_of(r * u - exact * u) * 0x10_0000_0000_0000
            <= crate::nearness::magnitude_of(exact * u) + 0x10_0000_0000_0000 * u,
{
    let e = 0x10_0000_0000_0000int;
    let d = r - exact;
    let (k, m) = (crate::nearness::magnitude_of(d), crate::nearness::magnitude_of(exact));
    assert(r * u - exact * u == d * u) by (nonlinear_arith)
        requires
            d == r - exact,
    ;
    assert(d * u == k * u || d * u == -(k * u)) by (nonlinear_arith)
        requires
            d == k || d == -k,
    ;
    assert(exact * u == m * u || exact * u == -(m * u)) by (nonlinear_arith)
        requires
            exact == m || exact == -m,
    ;
    assert(k * u >= 0 && m * u >= 0 && (k * e) * u == (k * u) * e && (k * e) * u <= (m + e) * u
        && (m + e) * u == m * u + e * u) by (nonlinear_arith)
        requires
            k >= 0,
            m >= 0,
            u > 0,
            k * e <= m + e,
    ;
}

/// The length of a vector of space is that of its three components.
pub proof fn space_lengths(v: Vec3)
    requires
        v.norm().finite(),
    ensures
        v.x.finite(),
        v.y.finite(),
        v.z.finite(),
        v.norm().value() >= 0,
        is_length(
            v.norm().value(),
            v.x.value() * v.x.value() + v.y.value() * v.y.value() + v.z.value() * v.z.value(),
        ),
{
    reveal(Vec3::spec_dot);
    roots_are_about_exact(v.dot(v));
    lemma_pow2_pos(1074);
    let two = v.x.times(v.x).plus(v.y.times(v.y));
    crate::nearness::lemma_sum_parts(two, v.z.times(v.z));
    lemma_two_squares(v.x, v.y);
    let t = v.x.value() * v.x.value() + v.y.value() * v.y.value();
    lemma_more_squares(two, t, v.z, 4);
    lemma_length(v.norm().value(), v.dot(v).value(), t + v.z.value() * v.z.value());
}

/// A number in single precision keeps its value in double precision.
pub proof fn widening_is_exact(s: F32)
    requires
        s.finite(),
    ensures
        s.to_double().finite(),
        s.to_double().value() == s.value() * pow2(925),
        s.to_double().to_single() == s,
{
    let (f, g) = (Format::single(), Format::double());
    let bits = s.bits as u64;
    reveal(F32::spec_to_double);
    reveal(F64::spec_to_single);
    let n = f.encoded(bits);
    let size = f.size(bits);
    f.lemma_digits(n);
    let (k, q) = (f.digits(n), f.place(n));
    f.lemma_monotone(n, 0x7f80_0000);
    lemma2_to64();
    lemma2_to64_rest();
    assert(0x7f80_0000nat / 0x80_0000 == 255);
    lemma_pow2_adds(23, 254);
    lemma_pow2_adds(277, 925);
    lemma_pow2_adds(q, 925);
    lemma_pow2_adds(149, 925);
    lemma_pow2_pos(149);
    lemma_pow2_pos(925);
    lemma_pow2_pos(1074);
    g.lemma_double_power(1202);
    let bound = g.rounded(pow2(1202), 1);
    let wide = size * pow2(925);
    assert(wide == k * pow2(q + 925)) by (nonlinear_arith)
        requires
            wide == size * pow2(925),
            size == k * pow2(q),
            pow2(q + 925) == pow2(q) * pow2(925),
    ;
    assert(wide <= pow2(1202)) by (nonlinear_arith)
        requires
            wide == size * pow2(925),
            size <= pow2(277),
            pow2(1202) == pow2(277) * pow2(925),
    ;
    g.lemma_representable(k, q + 925, bound);
    let r = g.rounded(wide, 1);
    let quantum = g.lemma_quantum_exists(wide, 1);
    assert(wide * pow2(149) == (size * pow2(1074)) * 1) by (nonlinear_arith)
        requires
            wide == size * pow2(925),
            pow2(1074) == pow2(149) * pow2(925),
    ;
    g.lemma_rounded_equal(quantum, wide, 1, size * pow2(1074), pow2(149));
    g.lemma_signed(f.negative(bits), r);
    let d = s.to_double();
    assert(d.bits == g.signed(f.negative(bits), r));
    assert(g.size(d.bits) == wide);
    assert(-(size * pow2(925)) == (-size) * pow2(925)) by (nonlinear_arith);
    // And back again.
    f.rounding_keeps_numbers(n);
    let quantum = f.lemma_quantum_exists(size, 1);
    assert(size * pow2(1074) == (wide * pow2(149)) * 1) by (nonlinear_arith)
        requires
            wide == size * pow2(925),
            pow2(1074) == pow2(149) * pow2(925),
    ;
    f.lemma_rounded_equal(quantum, size, 1, wide * pow2(149), pow2(1074));
    f.lemma_signed(f.negative(bits), n);
}

/// Numbers in single precision are ordered by their values.
pub proof fn singles_are_ordered_by_value(a: F32, b: F32)
    requires
        a.finite(),
        b.finite(),
    ensures
        a.less(b) == (a.value() < b.value()),
        a.at_most(b) == (a.value() <= b.value()),
{
    reveal(F32::spec_less);
    reveal(F32::spec_at_most);
}

/// A finite number in single precision is the one that it was made of, but for
/// rounding.
pub proof fn narrowing_is_about_exact(a: F64)
    requires
        a.to_single().finite(),
        a.finite(),
    ensures
        crate::nearness::magnitude_of(a.to_single().value() * pow2(925) - a.value()) * 0x80_0000
            <= crate::nearness::magnitude_of(a.value()) + 0x80_0000 * pow2(925),
{
    let (f, g) = (Format::double(), Format::single());
    reveal(F64::spec_to_single);
    lemma_pow2_adds(149, 925);
    lemma_pow2_pos(149);
    lemma_pow2_pos(925);
    lemma_pow2_pos(1074);
    let x = f.size(a.bits);
    let (u, v, h) = (pow2(1074), pow2(149), pow2(925) as int);
    let num = x * v;
    let r = g.rounded(num, u);
    let negative = f.negative(a.bits);
    g.lemma_rounded_bound(num, u);
    g.lemma_signed(negative, r);
    let m = g.magnitude(r) as int;
    let e = 0x80_0000int;
    let den = h * e;
    let w = x as int / den + 1;
    assert(den > 0);
    vstd::arithmetic::div_mod::lemma_fundamental_div_mod(x as int, den);
    vstd::arithmetic::div_mod::lemma_mod_bound(x as int, den);
    vstd::arithmetic::div_mod::lemma_div_pos_is_pos(x as int, den);
    assert(den * w == den * (x as int / den) + den) by (nonlinear_arith)
        requires
            w == x as int / den + 1,
    ;
    assert(u * (e * w) == v * (den * w)) by (nonlinear_arith)
        requires
            den == h * e,
            u == v * h,
    ;
    assert(x * v <= v * (den * w)) by (nonlinear_arith)
        requires
            x <= den * w,
            v > 0,
    ;
    g.lemma_error(num, u, w);
    assert(-(w * h) <= m * h - x <= w * h) by (nonlinear_arith)
        requires
            -(w * u) <= m * u - x * v <= w * u,
            u == v * h,
            v > 0,
    ;
    assert((w * h) * e == den * w) by (nonlinear_arith)
        requires
            den == h * e,
    ;
    assert((-m) * h == -(m * h)) by (nonlinear_arith);
}

/// A finite sum in single precision is the exact one but for rounding.
pub proof fn single_sums_are_about_exact(a: F32, b: F32)
    requires
        a.plus(b).finite(),
    ensures
        a.finite(),
        b.finite(),
        crate::nearness::magnitude_of(a.plus(b).value() - (a.value() + b.value())) * 0x80_0000
            <= crate::nearness::magnitude_of(a.value() + b.value()) + 0x80_0000,
{
    let f = Format::single();
    reveal(F32::spec_plus);
    f.lemma_zero();
    let exact = a.value() + b.value();
    let n = crate::nearness::magnitude_of(exact) as nat;
    let w = n as int / 0x80_0000 + 1;
    f.lemma_rounded_bound(n, 1);
    f.lemma_signed(true, f.rounded(n, 1));
    f.lemma_signed(false, f.rounded(n, 1));
    f.lemma_signed(true, 0);
    f.lemma_signed(false, 0);
    if a.finite() && b.finite() && exact != 0 {
        f.lemma_error(n, 1, w);
    }
}

/// A finite square in single precision is the exact one but for rounding.
pub proof fn single_squares_are_about_exact(a: F32)
    requires
        a.times(a).finite(),
    ensures
        a.finite(),
        a.times(a).value() >= 0,
        crate::nearness::magnitude_of(a.times(a).value() * pow2(149) - a.value() * a.value())
            * 0x80_0000 <= a.value() * a.value() + 0x80_0000 * pow2(149),
{
    let f = Format::single();
    reveal(F32::spec_times);
    lemma_pow2_pos(149);
    let x = f.size(a.bits as u64);
    let u = pow2(149);
    f.lemma_signed(false, f.infinity as nat);
    f.lemma_rounded_bound(x * x, u);
    f.lemma_signed(false, f.rounded(x * x, u));
    let v = a.value();
    assert(v * v == x * x) by (nonlinear_arith)
        requires
            v == x || v == -x,
    ;
    let n = x * x;
    let e = 0x80_0000int;
    let den = u * e;
    let w = n as int / den + 1;
    assert(n >= 0) by (nonlinear_arith)
        requires
            n == x * x,
    ;
    vstd::arithmetic::div_mod::lemma_fundamental_div_mod(n as int, den);
    vstd::arithmetic::div_mod::lemma_mod_bound(n as int, den);
    vstd::arithmetic::div_mod::lemma_div_pos_is_pos(n as int, den);
    assert(den * w == den * (n as int / den) + den) by (nonlinear_arith)
        requires
            w == n as int / den + 1,
    ;
    assert(u * (e * w) == den * w && (w * u) * e == den * w) by (nonlinear_arith)
        requires
            den == u * e,
    ;
    if a.finite() {
        f.lemma_error(n, u, w);
    }
}

/// The root of six squares, summed one after the other.
pub proof fn six_squares(a: F64, b: F64, c: F64, d: F64, e: F64, f: F64)
    requires
        a.times(a).plus(b.times(b)).plus(c.times(c)).plus(d.times(d)).plus(e.times(e)).plus(
            f.times(f),
        ).sqrt().finite(),
    ensures
        ({
            let n = a.times(a).plus(b.times(b)).plus(c.times(c)).plus(d.times(d)).plus(
                e.times(e),
            ).plus(f.times(f)).sqrt().value();
            let t = a.value() * a.value() + b.value() * b.value() + c.value() * c.value()
                + d.value() * d.value() + e.value() * e.value() + f.value() * f.value();
            n >= 0 && spans(n, t)
        }),
{
    let two = a.times(a).plus(b.times(b));
    let three = two.plus(c.times(c));
    let four = three.plus(d.times(d));
    let five = four.plus(e.times(e));
    let six = five.plus(f.times(f));
    roots_are_about_exact(six);
    crate::nearness::lemma_sum_parts(five, f.times(f));
    crate::nearness::lemma_sum_parts(four, e.times(e));
    crate::nearness::lemma_sum_parts(three, d.times(d));
    crate::nearness::lemma_sum_parts(two, c.times(c));
    lemma_two_squares(a, b);
    lemma_pow2_pos(1074);
    let t = a.value() * a.value() + b.value() * b.value();
    lemma_more_squares(two, t, c, 4);
    let t = t + c.value() * c.value();
    lemma_more_squares(three, t, d, 7);
    let t = t + d.value() * d.value();
    lemma_more_squares(four, t, e, 10);
    let t = t + e.value() * e.value();
    lemma_more_squares(five, t, f, 13);
}

/// Whole numbers of up to 53 bits are not rounded.
pub proof fn whole_numbers_are_exact(n: usize)
    requires
        n < 0x20_0000_0000_0000,
    ensures
        F64::from_usize(n).finite(),
        F64::from_usize(n).value() == n * crate::nearness::one_unit(),
{
    let f = Format::double();
    reveal(F64::spec_from_usize);
    lemma2_to64();
    lemma2_to64_rest();
    lemma_pow2_pos(1074);
    f.lemma_whole(n as nat);
    f.lemma_double_power(1127);
    lemma_pow2_adds(53, 1074);
    let u = pow2(1074);
    assert(n * u <= 0x20_0000_0000_0000 * u) by (nonlinear_arith)
        requires
            n < 0x20_0000_0000_0000,
            u > 0,
    ;
    f.lemma_representable(n as nat, 1074, f.rounded(pow2(1127), 1));
}

/// A number over one is the number.
pub proof fn lemma_over_one(a: F64)
    requires
        a.finite(),
    ensures
        a.over(F64::from_usize(1)).finite(),
        a.over(F64::from_usize(1)).value() == a.value(),
{
    let f = Format::double();
    let one = F64::from_usize(1);
    whole_numbers_are_exact(1);
    reveal(F64::spec_from_usize);
    lemma2_to64();
    f.lemma_whole(1);
    lemma_pow2_pos(1074);
    let u = pow2(1074);
    let n = f.encoded(a.bits);
    let size = f.size(a.bits);
    crate::float::double::zero_has_no_value(one);
    assert(f.size(one.bits) == u);
    reveal(F64::spec_over);
    f.rounding_keeps_numbers(n);
    let q = f.lemma_quantum_exists(size, 1);
    assert(size * u == (size * u) * 1) by (nonlinear_arith);
    f.lemma_rounded_equal(q, size, 1, size * u, u);
    f.lemma_signed(f.negative(a.bits), n);
}

} // verus!
