//! How close computed transforms are to the exact ones.
//!
//! Exact values are whole numbers over a power of one unit: a value stands
//! near `n` at height `i` within `e` if it differs from `n / up(i)` by at most
//! `e`. Sizes are counted in last places: `2^52 * w` is the bound of what is
//! rounded by `w`. Every finite number has such a bound: the laws leave out
//! only what overflows, by asking that the shifts they compare are finite.
use vstd::arithmetic::mul::*;
use vstd::arithmetic::power2::*;
use vstd::prelude::*;

use crate::float::double::F64;
use crate::float::rounding::Format;
use crate::linear::Vec2;
use crate::transforms::{Rotation2, Transform2D};

verus! {

/// The absolute value.
pub open spec fn magnitude_of(x: int) -> int {
    if x < 0 {
        -x
    } else {
        x
    }
}

/// The units in one.
pub open spec fn one_unit() -> int {
    pow2(1074) as int
}

/// One, less its last 52 places.
pub open spec fn last_place() -> int {
    pow2(1022) as int
}

pub proof fn lemma_last_place()
    ensures
        one_unit() == 0x10_0000_0000_0000 * last_place(),
        last_place() > 0,
{
    lemma_pow2_adds(52, 1022);
    lemma_pow2_pos(1022);
    lemma2_to64_rest();
}

/// A finite sum has finite parts.
pub proof fn lemma_sum_parts(a: F64, b: F64)
    requires
        a.plus(b).finite(),
    ensures
        a.finite(),
        b.finite(),
{
    reveal(F64::spec_plus);
}

/// A finite product has finite parts.
pub proof fn lemma_product_parts(a: F64, b: F64)
    requires
        a.times(b).finite(),
    ensures
        a.finite(),
        b.finite(),
{
    let f = Format::double();
    reveal(F64::spec_times);
    f.lemma_signed(true, f.infinity as nat);
    f.lemma_signed(false, f.infinity as nat);
}

/// A finite sum is rounded by one last place of its bound at most.
pub proof fn lemma_sum_error(a: F64, b: F64, w: int)
    requires
        a.plus(b).finite(),
        1 <= w,
        magnitude_of(a.value() + b.value()) <= 0x10_0000_0000_0000 * w,
    ensures
        magnitude_of(a.plus(b).value() - (a.value() + b.value())) <= w,
{
    let f = Format::double();
    let exact = a.value() + b.value();
    let n = magnitude_of(exact) as nat;
    lemma_sum_parts(a, b);
    reveal(F64::spec_plus);
    f.lemma_zero();
    f.lemma_rounded_bound(n, 1);
    f.lemma_signed(true, f.rounded(n, 1));
    f.lemma_signed(false, f.rounded(n, 1));
    f.lemma_signed(true, 0);
    f.lemma_signed(false, 0);
    if exact != 0 {
        f.lemma_error(n, 1, w);
    }
}

/// A sum up to `2^52 * w` units is finite while `w` is at most `2^2044`.
pub proof fn lemma_sum_fits(a: F64, b: F64, w: int)
    requires
        a.finite(),
        b.finite(),
        1 <= w <= pow2(2044),
        magnitude_of(a.value() + b.value()) <= 0x10_0000_0000_0000 * w,
    ensures
        a.plus(b).finite(),
{
    let f = Format::double();
    let n = magnitude_of(a.value() + b.value()) as nat;
    reveal(F64::spec_plus);
    f.lemma_fits(n, 1, w);
    f.lemma_signed(true, f.rounded(n, 1));
    f.lemma_signed(false, f.rounded(n, 1));
    f.lemma_signed(true, 0);
    f.lemma_signed(false, 0);
}

/// The sizes of two factors.
proof fn lemma_factors(a: F64, b: F64)
    requires
        a.finite(),
        b.finite(),
    ensures
        ({
            let f = Format::double();
            let (x, y) = (f.size(a.bits), f.size(b.bits));
            &&& x * y == magnitude_of(a.value() * b.value())
            &&& f.negative(a.bits) != f.negative(b.bits) ==> a.value() * b.value() == -(x * y)
            &&& f.negative(a.bits) == f.negative(b.bits) ==> a.value() * b.value() == x * y
        }),
{
    let f = Format::double();
    let (x, y) = (f.size(a.bits), f.size(b.bits));
    let negative = f.negative(a.bits) != f.negative(b.bits);
    let (i, j) = (a.value(), b.value());
    assert(negative ==> i * j == -(x * y)) by (nonlinear_arith)
        requires
            negative ==> (i == x && j == -y) || (i == -x && j == y),
    ;
    assert(!negative ==> i * j == x * y) by (nonlinear_arith)
        requires
            !negative ==> (i == x && j == y) || (i == -x && j == -y),
    ;
    assert(x * y >= 0) by (nonlinear_arith);
}

/// A finite product is rounded by one last place of its bound at most.
pub proof fn lemma_product_error(a: F64, b: F64, w: int)
    requires
        a.times(b).finite(),
        1 <= w,
        magnitude_of(a.value() * b.value()) <= one_unit() * (0x10_0000_0000_0000 * w),
    ensures
        magnitude_of(a.times(b).value() * one_unit() - a.value() * b.value()) <= w * one_unit(),
{
    let f = Format::double();
    let u = pow2(1074);
    let (x, y) = (f.size(a.bits), f.size(b.bits));
    lemma_product_parts(a, b);
    lemma_factors(a, b);
    reveal(F64::spec_times);
    lemma_pow2_pos(1074);
    let r = f.rounded(x * y, u);
    let m = f.magnitude(r);
    let negative = f.negative(a.bits) != f.negative(b.bits);
    f.lemma_rounded_bound(x * y, u);
    f.lemma_signed(negative, r);
    f.lemma_error(x * y, u, w);
    assert((-m) * u == -(m * u)) by (nonlinear_arith);
}

/// A product up to `2^52 * w` units is finite while `w` is at most `2^2044`.
pub proof fn lemma_product_fits(a: F64, b: F64, w: int)
    requires
        a.finite(),
        b.finite(),
        1 <= w <= pow2(2044),
        magnitude_of(a.value() * b.value()) <= one_unit() * (0x10_0000_0000_0000 * w),
    ensures
        a.times(b).finite(),
{
    let f = Format::double();
    let u = pow2(1074);
    let n = f.size(a.bits) * f.size(b.bits);
    lemma_factors(a, b);
    reveal(F64::spec_times);
    lemma_pow2_pos(1074);
    f.lemma_fits(n, u, w);
    f.lemma_signed(f.negative(a.bits) != f.negative(b.bits), f.rounded(n, u));
}

/// The value of a negated number.
pub proof fn lemma_negated(a: F64)
    requires
        a.finite(),
    ensures
        a.negated().finite(),
        a.negated().value() == -a.value(),
{
}

/// One unit to the power `i`.
pub open spec fn up(i: nat) -> int {
    pow2(1074 * i) as int
}

/// The value differs from `n / up(i)` by at most `e`.
pub open spec fn near(value: int, n: int, i: nat, e: int) -> bool {
    magnitude_of(value * up(i) - n) <= e * up(i)
}

proof fn lemma_up(i: nat, j: nat)
    ensures
        up(i) > 0,
        up(i) * up(j) == up(i + j),
        up(0) == 1,
        up(1) == one_unit(),
{
    lemma_pow2_pos(1074 * i);
    lemma_pow2_adds(1074 * i, 1074 * j);
    lemma2_to64();
}

pub proof fn lemma_abs_product(a: int, b: int, x: int, y: int)
    requires
        magnitude_of(a) <= x,
        magnitude_of(b) <= y,
    ensures
        magnitude_of(a * b) <= x * y,
{
    assert(-(x * y) <= a * b <= x * y) by (nonlinear_arith)
        requires
            -x <= a <= x,
            -y <= b <= y,
    ;
}

/// The exact product of a factor of size `c` and a number.
pub proof fn lemma_product_size(a: F64, x: F64, c: int, w: int)
    requires
        1 <= c,
        1 <= w,
        magnitude_of(a.value()) <= c * one_unit(),
        magnitude_of(x.value()) <= 0x10_0000_0000_0000 * w,
    ensures
        1 <= c * w,
        magnitude_of(a.value() * x.value()) <= one_unit() * (0x10_0000_0000_0000 * (c * w)),
{
    let u = one_unit();
    let t = c * w;
    lemma_last_place();
    assert(t >= 1) by (nonlinear_arith)
        requires
            t == c * w,
            c >= 1,
            w >= 1,
    ;
    lemma_abs_product(a.value(), x.value(), c * u, 0x10_0000_0000_0000 * w);
    assert((c * u) * (0x10_0000_0000_0000 * w) == u * (0x10_0000_0000_0000 * t))
        by (nonlinear_arith)
        requires
            t == c * w,
    ;
}

/// A product of a factor of size `c` and a number.
pub proof fn lemma_one_product(a: F64, x: F64, c: int, w: int)
    requires
        a.times(x).finite(),
        1 <= c,
        1 <= w,
        magnitude_of(a.value()) <= c * one_unit(),
        magnitude_of(x.value()) <= 0x10_0000_0000_0000 * w,
    ensures
        1 <= c * w,
        magnitude_of(a.times(x).value() * one_unit() - a.value() * x.value()) <= (c * w)
            * one_unit(),
        magnitude_of(a.times(x).value()) <= 0x10_0000_0000_0001 * (c * w),
{
    let u = one_unit();
    let t = c * w;
    lemma_last_place();
    lemma_product_size(a, x, c, w);
    lemma_product_error(a, x, t);
    let p = a.times(x).value();
    let e = a.value() * x.value();
    assert(-(0x10_0000_0000_0001 * t) <= p <= 0x10_0000_0000_0001 * t) by (nonlinear_arith)
        requires
            -(t * u) <= p * u - e <= t * u,
            -(u * (0x10_0000_0000_0000 * t)) <= e <= u * (0x10_0000_0000_0000 * t),
            u > 0,
    ;
}

/// A finite sum of products is near the exact one.
proof fn lemma_pair(a: F64, x: F64, b: F64, y: F64, c: int, w: int)
    requires
        a.times(x).plus(b.times(y)).finite(),
        1 <= c,
        1 <= w,
        magnitude_of(a.value()) <= c * one_unit(),
        magnitude_of(b.value()) <= c * one_unit(),
        magnitude_of(x.value()) <= 0x10_0000_0000_0000 * w,
        magnitude_of(y.value()) <= 0x10_0000_0000_0000 * w,
    ensures
        ({
            let r = a.times(x).plus(b.times(y)).value();
            let (p, q) = (a.value() * x.value(), b.value() * y.value());
            let t = c * w;
            &&& magnitude_of(r * one_unit() - (p + q)) <= 5 * (t * one_unit())
            &&& magnitude_of(r) <= 3 * (0x10_0000_0000_0000 * t)
        }),
{
    let u = one_unit();
    let t = c * w;
    lemma_last_place();
    let (f, g) = (a.times(x), b.times(y));
    lemma_sum_parts(f, g);
    lemma_one_product(a, x, c, w);
    lemma_one_product(b, y, c, w);
    lemma_sum_error(f, g, 3 * t);
    let (i, j, s) = (f.value(), g.value(), f.plus(g).value());
    assert((s - (i + j)) * u == s * u - i * u - j * u) by (nonlinear_arith);
    lemma_abs_product(s - (i + j), u, 3 * t, u);
    assert((3 * t) * u == 3 * (t * u)) by (nonlinear_arith);
}

/// A product with its second factor negated.
proof fn lemma_negated_product(b: F64, y: F64)
    requires
        b.times(y).finite(),
    ensures
        y.negated().finite(),
        y.negated().value() == -y.value(),
        b.times(y.negated()) == b.times(y).negated(),
{
    let f = Format::double();
    lemma_product_parts(b, y);
    reveal(F64::spec_times);
    let n = f.rounded(f.size(b.bits) * f.size(y.bits), pow2(1074));
    f.lemma_rounded_bound(f.size(b.bits) * f.size(y.bits), pow2(1074));
    f.lemma_signed(true, n);
    f.lemma_signed(false, n);
}

/// The two forms in which products are paired.
pub proof fn lemma_two(a: F64, x: F64, b: F64, y: F64, c: int, w: int)
    requires
        1 <= c,
        1 <= w,
        magnitude_of(a.value()) <= c * one_unit(),
        magnitude_of(b.value()) <= c * one_unit(),
        magnitude_of(x.value()) <= 0x10_0000_0000_0000 * w,
        magnitude_of(y.value()) <= 0x10_0000_0000_0000 * w,
    ensures
        ({
            let less = a.times(x).minus(b.times(y));
            let more = a.times(x).plus(b.times(y));
            let (p, q) = (a.value() * x.value(), b.value() * y.value());
            let t = c * w;
            &&& less.finite() ==> magnitude_of(less.value() * one_unit() - (p - q)) <= 5 * (t
                * one_unit())
            &&& more.finite() ==> magnitude_of(more.value() * one_unit() - (p + q)) <= 5 * (t
                * one_unit())
            &&& less.finite() ==> magnitude_of(less.value()) <= 3 * (0x10_0000_0000_0000 * t)
            &&& more.finite() ==> magnitude_of(more.value()) <= 3 * (0x10_0000_0000_0000 * t)
        }),
{
    if a.times(x).plus(b.times(y)).finite() {
        lemma_pair(a, x, b, y, c, w);
    }
    if a.times(x).minus(b.times(y)).finite() {
        lemma_difference_parts(a.times(x), b.times(y));
        lemma_negated_product(b, y);
        lemma_pair(a, x, b, y.negated(), c, w);
        let (i, j) = (b.value(), y.value());
        assert(i * (-j) == -(i * j)) by (nonlinear_arith);
    }
}

/// A finite difference has finite parts.
proof fn lemma_difference_parts(a: F64, b: F64)
    requires
        a.minus(b).finite(),
    ensures
        a.finite(),
        b.finite(),
{
    lemma_sum_parts(a, b.negated());
}

/// Paired products are finite while they are far from overflow.
pub proof fn lemma_two_fit(a: F64, x: F64, b: F64, y: F64, c: int, w: int)
    requires
        a.finite(),
        x.finite(),
        b.finite(),
        y.finite(),
        1 <= c,
        1 <= w,
        3 * (c * w) <= pow2(2044),
        magnitude_of(a.value()) <= c * one_unit(),
        magnitude_of(b.value()) <= c * one_unit(),
        magnitude_of(x.value()) <= 0x10_0000_0000_0000 * w,
        magnitude_of(y.value()) <= 0x10_0000_0000_0000 * w,
    ensures
        a.times(x).minus(b.times(y)).finite(),
        a.times(x).plus(b.times(y)).finite(),
{
    let t = c * w;
    lemma_product_size(a, x, c, w);
    lemma_product_size(b, y, c, w);
    lemma_product_fits(a, x, t);
    lemma_product_fits(b, y, t);
    lemma_one_product(a, x, c, w);
    lemma_one_product(b, y, c, w);
    let (f, g) = (a.times(x), b.times(y));
    lemma_negated(g);
    lemma_sum_fits(f, g, 3 * t);
    lemma_sum_fits(f, g.negated(), 3 * t);
}

/// The product of two near values.
proof fn lemma_near_product(
    a: int,
    na: int,
    i: nat,
    ea: int,
    ba: int,
    x: int,
    nx: int,
    j: nat,
    ex: int,
    bx: int,
)
    requires
        near(a, na, i, ea),
        near(x, nx, j, ex),
        magnitude_of(a) <= ba,
        magnitude_of(x) <= bx,
        ea >= 0,
        ex >= 0,
    ensures
        magnitude_of((a * x) * up(i + j) - na * nx) <= (ea * bx + (ba + ea) * ex) * up(i + j),
{
    let (p, q) = (up(i), up(j));
    lemma_up(i, j);
    lemma_up(j, i);
    let (da, dx) = (a * p - na, x * q - nx);
    lemma_abs_product(a, p, ba, p);
    lemma_abs_product(x, q, bx, q);
    assert(magnitude_of(na) <= (ba + ea) * p) by {
        assert((ba + ea) * p == ba * p + ea * p) by (nonlinear_arith);
    }
    lemma_abs_product(da, x * q, ea * p, bx * q);
    lemma_abs_product(na, dx, (ba + ea) * p, ex * q);
    let (ap, xq) = (a * p, x * q);
    assert((a * x) * (p * q) == (a * p) * (x * q)) by (nonlinear_arith);
    assert(ap * xq - na * nx == (ap - na) * xq + na * (xq - nx)) by (nonlinear_arith);
    let (m, pq) = (ba + ea, p * q);
    assert((ea * p) * (bx * q) == (ea * bx) * (p * q)) by (nonlinear_arith);
    assert((m * p) * (ex * q) == (m * ex) * (p * q)) by (nonlinear_arith);
    lemma_mul_is_distributive_add_other_way(pq, ea * bx, m * ex);
}

/// The error of two paired products of near values.
pub open spec fn pair_error(c: int, k: int, w: int, ex: int) -> int {
    5 * (c * w) + 2 * (k * w) + 2 * ((c + k) * ex)
}

proof fn lemma_pair_sum(
    value: int,
    exact: int,
    ideal: int,
    c: int,
    k: int,
    w: int,
    ex: int,
    h: nat,
)
    requires
        magnitude_of(value * one_unit() - exact) <= 5 * ((c * w) * one_unit()),
        magnitude_of(exact * up(h) - ideal) <= 2 * ((k * w + (c + k) * ex) * one_unit() * up(h)),
    ensures
        near(value, ideal, h + 1, pair_error(c, k, w, ex)),
{
    let (u, s) = (one_unit(), up(h));
    lemma_up(h, 1);
    lemma_up(1, h);
    lemma_abs_product(value * u - exact, s, 5 * ((c * w) * u), s);
    assert((value * u - exact) * s == (value * (s * u)) - exact * s) by (nonlinear_arith);
    let (t, z) = (c * w, k * w + (c + k) * ex);
    assert((5 * (t * u)) * s + 2 * (z * u * s) == (5 * t + 2 * z) * (s * u)) by (nonlinear_arith);
    assert(5 * t + 2 * z == pair_error(c, k, w, ex));
}

/// Paired products of near values are near the paired exact ones.
proof fn lemma_near_two(
    a: F64,
    na: int,
    b: F64,
    nb: int,
    i: nat,
    c: int,
    k: int,
    x: F64,
    nx: int,
    y: F64,
    ny: int,
    j: nat,
    w: int,
    ex: int,
)
    requires
        1 <= c,
        1 <= w,
        0 <= k,
        0 <= ex,
        magnitude_of(a.value()) <= c * one_unit(),
        magnitude_of(b.value()) <= c * one_unit(),
        magnitude_of(x.value()) <= 0x10_0000_0000_0000 * w,
        magnitude_of(y.value()) <= 0x10_0000_0000_0000 * w,
        near(a.value(), na, i, k * last_place()),
        near(b.value(), nb, i, k * last_place()),
        near(x.value(), nx, j, ex),
        near(y.value(), ny, j, ex),
    ensures
        ({
            let less = a.times(x).minus(b.times(y));
            let more = a.times(x).plus(b.times(y));
            let e = pair_error(c, k, w, ex);
            &&& less.finite() ==> near(less.value(), na * nx - nb * ny, i + j + 1, e)
            &&& more.finite() ==> near(more.value(), na * nx + nb * ny, i + j + 1, e)
            &&& less.finite() ==> magnitude_of(less.value()) <= 3 * (0x10_0000_0000_0000 * (c * w))
            &&& more.finite() ==> magnitude_of(more.value()) <= 3 * (0x10_0000_0000_0000 * (c * w))
        }),
{
    let (u, v, s) = (one_unit(), last_place(), up(i + j));
    lemma_last_place();
    lemma_up(i, j);
    lemma_up(i + j, 0);
    lemma_two(a, x, b, y, c, w);
    assert(k * v >= 0) by (nonlinear_arith)
        requires
            k >= 0,
            v > 0,
    ;
    lemma_near_product(
        a.value(),
        na,
        i,
        k * v,
        c * u,
        x.value(),
        nx,
        j,
        ex,
        0x10_0000_0000_0000 * w,
    );
    lemma_near_product(
        b.value(),
        nb,
        i,
        k * v,
        c * u,
        y.value(),
        ny,
        j,
        ex,
        0x10_0000_0000_0000 * w,
    );
    let z = k * w + (c + k) * ex;
    let step = (k * v) * (0x10_0000_0000_0000 * w) + (c * u + k * v) * ex;
    assert(step <= z * u) by {
        assert((k * v) * (0x10_0000_0000_0000 * w) == (k * w) * u) by (nonlinear_arith)
            requires
                u == 0x10_0000_0000_0000 * v,
        ;
        assert((c * u + k * v) * ex <= ((c + k) * ex) * u) by (nonlinear_arith)
            requires
                u == 0x10_0000_0000_0000 * v,
                v > 0,
                k >= 0,
                ex >= 0,
        ;
        assert((k * w + (c + k) * ex) * u == (k * w) * u + ((c + k) * ex) * u)
            by (nonlinear_arith);
    }
    assert(step * s <= z * u * s) by (nonlinear_arith)
        requires
            step <= z * u,
            s > 0,
    ;
    let (p, q) = (a.value() * x.value(), b.value() * y.value());
    assert((p - q) * s == p * s - q * s) by (nonlinear_arith);
    assert((p + q) * s == p * s + q * s) by (nonlinear_arith);
    if a.times(x).minus(b.times(y)).finite() {
        lemma_pair_sum(
            a.times(x).minus(b.times(y)).value(),
            p - q,
            na * nx - nb * ny,
            c,
            k,
            w,
            ex,
            i + j,
        );
    }
    if a.times(x).plus(b.times(y)).finite() {
        lemma_pair_sum(
            a.times(x).plus(b.times(y)).value(),
            p + q,
            na * nx + nb * ny,
            c,
            k,
            w,
            ex,
            i + j,
        );
    }
}

/// A near value at a greater height.
proof fn lemma_near_lift(value: int, n: int, i: nat, e: int, h: nat)
    requires
        near(value, n, i, e),
    ensures
        near(value, n * up(h), i + h, e),
{
    let (s, t) = (up(i), up(h));
    lemma_up(i, h);
    lemma_up(h, i);
    lemma_abs_product(value * s - n, t, e * s, t);
    assert((value * s - n) * t == value * (s * t) - n * t) by (nonlinear_arith);
    assert((e * s) * t == e * (s * t)) by (nonlinear_arith);
}

/// A sum of near values.
proof fn lemma_near_sum(a: F64, na: int, ea: int, b: F64, nb: int, eb: int, i: nat, w: int)
    requires
        a.plus(b).finite(),
        1 <= w,
        magnitude_of(a.value() + b.value()) <= 0x10_0000_0000_0000 * w,
        near(a.value(), na, i, ea),
        near(b.value(), nb, i, eb),
    ensures
        near(a.plus(b).value(), na + nb, i, ea + eb + w),
        magnitude_of(a.plus(b).value()) <= 0x10_0000_0000_0001 * w,
{
    let s = up(i);
    lemma_up(i, 0);
    lemma_sum_error(a, b, w);
    let (x, y, r) = (a.value(), b.value(), a.plus(b).value());
    lemma_abs_product(r - (x + y), s, w, s);
    assert((r - (x + y)) * s == r * s - x * s - y * s) by (nonlinear_arith);
    assert(ea * s + eb * s + w * s == (ea + eb + w) * s) by (nonlinear_arith);
}

/// Two values near the same exact one are close to each other.
proof fn lemma_near_same(a: int, b: int, n: int, i: nat, ea: int, eb: int)
    requires
        near(a, n, i, ea),
        near(b, n, i, eb),
    ensures
        magnitude_of(a - b) <= ea + eb,
{
    let s = up(i);
    lemma_up(i, 0);
    assert(-(ea + eb) <= a - b <= ea + eb) by (nonlinear_arith)
        requires
            -(ea * s) <= a * s - n <= ea * s,
            -(eb * s) <= b * s - n <= eb * s,
            s > 0,
    ;
}

/// An exact transform: its rotation over `up(i)`, and its shift over `up(j)`.
pub struct Exact {
    pub c: int,
    pub s: int,
    pub i: nat,
    pub x: int,
    pub y: int,
    pub j: nat,
}

/// The parts of a rotation are finite, and at most `c`. Those of a rotation by
/// an angle are at most one.
pub open spec fn turn_within(t: Rotation2, c: int) -> bool {
    &&& t.cos.finite()
    &&& t.sin.finite()
    &&& magnitude_of(t.cos.value()) <= c * one_unit()
    &&& magnitude_of(t.sin.value()) <= c * one_unit()
}

/// The parts are finite, those of the rotation at most `c` in size, and those
/// of the shift at most `2^52 * w` units.
pub open spec fn within(t: Transform2D, c: int, w: int) -> bool {
    &&& turn_within(t.turn, c)
    &&& has_finite_shift(t)
    &&& magnitude_of(t.shift.x.value()) <= 0x10_0000_0000_0000 * w
    &&& magnitude_of(t.shift.y.value()) <= 0x10_0000_0000_0000 * w
}

/// The rotation is within `k` last places of the exact one, and the shift
/// within `e` units.
pub open spec fn close(t: Transform2D, n: Exact, k: int, e: int) -> bool {
    &&& near(t.turn.cos.value(), n.c, n.i, k * last_place())
    &&& near(t.turn.sin.value(), n.s, n.i, k * last_place())
    &&& near(t.shift.x.value(), n.x, n.j, e)
    &&& near(t.shift.y.value(), n.y, n.j, e)
}

/// A transform as it stands.
pub open spec fn exactly(t: Transform2D) -> Exact {
    Exact {
        c: t.turn.cos.value(),
        s: t.turn.sin.value(),
        i: 0,
        x: t.shift.x.value(),
        y: t.shift.y.value(),
        j: 0,
    }
}

/// The larger of two heights.
pub open spec fn higher(a: nat, b: nat) -> nat {
    if a < b {
        b
    } else {
        a
    }
}

impl Exact {
    /// One transform after another.
    pub open spec fn followed(self, b: Exact) -> Exact {
        let h = self.i + b.j + 1;
        let j = higher(self.j, h);
        let (own, moved) = (up((j - self.j) as nat), up((j - h) as nat));
        Exact {
            c: self.c * b.c - self.s * b.s,
            s: self.c * b.s + self.s * b.c,
            i: self.i + b.i + 1,
            x: self.x * own + (self.c * b.x - self.s * b.y) * moved,
            y: self.y * own + (self.s * b.x + self.c * b.y) * moved,
            j,
        }
    }

    /// The way back, for a rotation of unit length.
    pub open spec fn back(self) -> Exact {
        Exact {
            c: self.c,
            s: -self.s,
            i: self.i,
            x: -(self.c * self.x + self.s * self.y),
            y: self.s * self.x - self.c * self.y,
            j: self.i + self.j + 1,
        }
    }
}

proof fn lemma_exactly(t: Transform2D)
    ensures
        close(t, exactly(t), 0, 0),
{
    lemma_up(0, 0);
}

/// The shift of the transform is finite.
pub open spec fn has_finite_shift(t: Transform2D) -> bool {
    t.shift.x.finite() && t.shift.y.finite()
}

/// Products of rotations are far from overflow.
proof fn lemma_turns_fit(ca: int, cb: int)
    requires
        ca * cb <= 0x1_0000,
    ensures
        3 * (ca * (cb * last_place())) <= pow2(2044),
{
    let v = last_place();
    lemma2_to64();
    lemma_pow2_pos(1022);
    lemma_pow2_adds(18, 1022);
    lemma_pow2_strictly_increases(1040, 2044);
    assert(ca * (cb * v) <= 0x1_0000 * v) by (nonlinear_arith)
        requires
            ca * cb <= 0x1_0000,
            v > 0,
    ;
}

/// A composition with a finite shift has finite parts.
pub proof fn lemma_shift_parts(a: Transform2D, b: Transform2D)
    requires
        has_finite_shift(a.compose(&b)),
    ensures
        has_finite_shift(a),
        has_finite_shift(b),
        a.turn.rotate(b.shift).x.finite(),
        a.turn.rotate(b.shift).y.finite(),
{
    let (c, s) = (a.turn.cos, a.turn.sin);
    let turned = a.turn.rotate(b.shift);
    lemma_sum_parts(a.shift.x, turned.x);
    lemma_sum_parts(a.shift.y, turned.y);
    lemma_sum_parts(s.times(b.shift.x), c.times(b.shift.y));
    lemma_product_parts(s, b.shift.x);
    lemma_product_parts(c, b.shift.y);
}

/// An inverse with a finite shift is that of a finite shift.
proof fn lemma_inverse_parts(a: Transform2D)
    requires
        has_finite_shift(a.inverse()),
    ensures
        has_finite_shift(a),
{
    let t = a.turn.inverse();
    let (x, y) = (a.shift.x.negated(), a.shift.y.negated());
    lemma_sum_parts(t.sin.times(x), t.cos.times(y));
    lemma_product_parts(t.sin, x);
    lemma_product_parts(t.cos, y);
}

/// Composing near transforms.
#[verifier::rlimit(40)]
proof fn lemma_compose(
    a: Transform2D,
    na: Exact,
    ca: int,
    ka: int,
    wa: int,
    ea: int,
    b: Transform2D,
    nb: Exact,
    cb: int,
    kb: int,
    wb: int,
    eb: int,
)
    requires
        within(a, ca, wa),
        close(a, na, ka, ea),
        within(b, cb, wb),
        close(b, nb, kb, eb),
        1 <= ca,
        1 <= cb,
        1 <= wa,
        1 <= wb,
        0 <= ka,
        0 <= kb,
        0 <= eb,
        ca * cb <= 0x1_0000,
        has_finite_shift(a.compose(&b)),
    ensures
        within(a.compose(&b), 3 * (ca * cb), 2 * (wa + 3 * (ca * wb))),
        close(
            a.compose(&b),
            na.followed(nb),
            pair_error(ca, ka, cb, kb),
            ea + pair_error(ca, ka, wb, eb) + (wa + 3 * (ca * wb)),
        ),
{
    let (u, v) = (one_unit(), last_place());
    lemma_last_place();
    let r = a.compose(&b);
    let (c, s) = (a.turn.cos, a.turn.sin);
    let z = cb * v;
    assert(z >= 1) by (nonlinear_arith)
        requires
            z == cb * v,
            cb >= 1,
            v >= 1,
    ;
    assert(cb * u == 0x10_0000_0000_0000 * z) by (nonlinear_arith)
        requires
            z == cb * v,
            u == 0x10_0000_0000_0000 * v,
    ;
    assert(kb * v >= 0) by (nonlinear_arith)
        requires
            kb >= 0,
            v >= 1,
    ;
    lemma_turns_fit(ca, cb);
    lemma_two_fit(c, b.turn.cos, s, b.turn.sin, ca, z);
    lemma_two_fit(c, b.turn.sin, s, b.turn.cos, ca, z);
    lemma_shift_parts(a, b);
    lemma_near_two(
        c, na.c, s, na.s, na.i, ca, ka, b.turn.cos, nb.c, b.turn.sin, nb.s, nb.i, z, kb * v,
    );
    lemma_near_two(
        c, na.c, s, na.s, na.i, ca, ka, b.turn.sin, nb.s, b.turn.cos, nb.c, nb.i, z, kb * v,
    );
    assert(pair_error(ca, ka, z, kb * v) == pair_error(ca, ka, cb, kb) * v) by {
        assert(ca * z == (ca * cb) * v) by (nonlinear_arith)
            requires
                z == cb * v,
        ;
        assert(ka * z == (ka * cb) * v) by (nonlinear_arith)
            requires
                z == cb * v,
        ;
        assert((ca + ka) * (kb * v) == ((ca + ka) * kb) * v) by (nonlinear_arith);
        let (p, q, t) = (ca * cb, ka * cb, (ca + ka) * kb);
        assert((5 * p + 2 * q + 2 * t) * v == 5 * (p * v) + 2 * (q * v) + 2 * (t * v))
            by (nonlinear_arith);
    }
    assert(3 * (0x10_0000_0000_0000 * (ca * z)) == (3 * (ca * cb)) * u) by (nonlinear_arith)
        requires
            z == cb * v,
            u == 0x10_0000_0000_0000 * v,
    ;
    lemma_near_two(
        c, na.c, s, na.s, na.i, ca, ka, b.shift.x, nb.x, b.shift.y, nb.y, nb.j, wb, eb,
    );
    lemma_near_two(
        s, na.s, c, na.c, na.i, ca, ka, b.shift.x, nb.x, b.shift.y, nb.y, nb.j, wb, eb,
    );
    let turned = a.turn.rotate(b.shift);
    let e = pair_error(ca, ka, wb, eb);
    let h = na.i + nb.j + 1;
    let j = higher(na.j, h);
    let (own, moved) = ((j - na.j) as nat, (j - h) as nat);
    lemma_near_lift(a.shift.x.value(), na.x, na.j, ea, own);
    lemma_near_lift(a.shift.y.value(), na.y, na.j, ea, own);
    lemma_near_lift(turned.x.value(), na.c * nb.x - na.s * nb.y, h, e, moved);
    lemma_near_lift(turned.y.value(), na.s * nb.x + na.c * nb.y, h, e, moved);
    let w = wa + 3 * (ca * wb);
    assert(ca * wb >= 1) by (nonlinear_arith)
        requires
            ca >= 1,
            wb >= 1,
    ;
    lemma_near_sum(
        a.shift.x,
        na.x * up(own),
        ea,
        turned.x,
        (na.c * nb.x - na.s * nb.y) * up(moved),
        e,
        j,
        w,
    );
    lemma_near_sum(
        a.shift.y,
        na.y * up(own),
        ea,
        turned.y,
        (na.s * nb.x + na.c * nb.y) * up(moved),
        e,
        j,
        w,
    );
}

proof fn lemma_near_negated(value: int, n: int, i: nat, e: int)
    requires
        near(value, n, i, e),
    ensures
        near(-value, -n, i, e),
{
    let s = up(i);
    assert((-value) * s == -(value * s)) by (nonlinear_arith);
}

/// Inverting a near transform.
proof fn lemma_inverse(a: Transform2D, n: Exact, c: int, k: int, w: int, e: int)
    requires
        within(a, c, w),
        close(a, n, k, e),
        1 <= c,
        1 <= w,
        0 <= k,
        0 <= e,
        has_finite_shift(a.inverse()),
    ensures
        within(a.inverse(), c, 3 * (c * w)),
        close(a.inverse(), n.back(), k, pair_error(c, k, w, e)),
{
    let t = a.turn.inverse();
    let (x, y) = (a.shift.x.negated(), a.shift.y.negated());
    lemma_negated(a.turn.sin);
    lemma_negated(a.shift.x);
    lemma_negated(a.shift.y);
    lemma_near_negated(a.turn.sin.value(), n.s, n.i, k * last_place());
    lemma_near_negated(a.shift.x.value(), n.x, n.j, e);
    lemma_near_negated(a.shift.y.value(), n.y, n.j, e);
    lemma_near_two(t.cos, n.c, t.sin, -n.s, n.i, c, k, x, -n.x, y, -n.y, n.j, w, e);
    lemma_near_two(t.sin, -n.s, t.cos, n.c, n.i, c, k, x, -n.x, y, -n.y, n.j, w, e);
    assert(n.c * (-n.x) - (-n.s) * (-n.y) == -(n.c * n.x + n.s * n.y)) by (nonlinear_arith);
    assert((-n.s) * (-n.x) + n.c * (-n.y) == n.s * n.x - n.c * n.y) by (nonlinear_arith);
}

/// Rotating by one pair after another is rotating by their product.
proof fn lemma_turn_twice(a: int, b: int, c: int, d: int, x: int, y: int)
    ensures
        (a * c - b * d) * x - (a * d + b * c) * y == a * (c * x - d * y) - b * (d * x + c * y),
        (a * d + b * c) * x + (a * c - b * d) * y == b * (c * x - d * y) + a * (d * x + c * y),
{
    assert((a * c - b * d) * x == a * (c * x) - b * (d * x)) by (nonlinear_arith);
    assert((a * d + b * c) * y == a * (d * y) + b * (c * y)) by (nonlinear_arith);
    assert((a * d + b * c) * x == a * (d * x) + b * (c * x)) by (nonlinear_arith);
    assert((a * c - b * d) * y == a * (c * y) - b * (d * y)) by (nonlinear_arith);
    let (cx, cy, dx, dy) = (c * x, c * y, d * x, d * y);
    assert(a * (cx - dy) == a * cx - a * dy) by (nonlinear_arith);
    assert(a * (dx + cy) == a * dx + a * cy) by (nonlinear_arith);
    assert(b * (cx - dy) == b * cx - b * dy) by (nonlinear_arith);
    assert(b * (dx + cy) == b * dx + b * cy) by (nonlinear_arith);
}

/// Rotating a sum of scaled vectors, and scaling the result.
proof fn lemma_turn_sum(a: int, b: int, x: int, y: int, g: int, p: int, q: int, h: int, k: int)
    ensures
        (a * (x * g + p * h) - b * (y * g + q * h)) * k == (a * x - b * y) * (g * k) + (a * p - b
            * q) * (h * k),
{
    assert(a * (x * g + p * h) == (a * x) * g + (a * p) * h) by (nonlinear_arith);
    assert(b * (y * g + q * h) == (b * y) * g + (b * q) * h) by (nonlinear_arith);
    let (ax, ap, by, bq) = (a * x, a * p, b * y, b * q);
    assert(ax * g - by * g == (ax - by) * g) by (nonlinear_arith);
    assert(ap * h - bq * h == (ap - bq) * h) by (nonlinear_arith);
    lemma_scaled_sum(ax - by, g, ap - bq, h, k);
}

/// A scaled sum, and scaled again.
proof fn lemma_scaled_sum(x: int, g: int, p: int, h: int, k: int)
    ensures
        (x * g + p * h) * k == x * (g * k) + p * (h * k),
{
    assert((x * g + p * h) * k == x * (g * k) + p * (h * k)) by (nonlinear_arith);
}

/// Composing exact transforms is associative.
proof fn lemma_associative(a: Exact, b: Exact, c: Exact)
    ensures
        a.followed(b).followed(c) == a.followed(b.followed(c)),
{
    let h1 = a.i + b.j + 1;
    let j1 = higher(a.j, h1);
    let h2 = b.i + c.j + 1;
    let j2 = higher(b.j, h2);
    let h = a.i + b.i + c.j + 2;
    let j = higher(j1, h);
    let h3 = a.i + j2 + 1;
    assert(j == higher(a.j, h3));
    let (g, k) = (up((j1 - a.j) as nat), up((j1 - h1) as nat));
    let m = up((j - j1) as nat);
    let (p, q) = (up((j2 - b.j) as nat), up((j2 - h2) as nat));
    let r = up((j - h3) as nat);
    let last = up((j - h) as nat);
    lemma_up((j1 - a.j) as nat, (j - j1) as nat);
    lemma_up((j1 - h1) as nat, (j - j1) as nat);
    lemma_up((j2 - b.j) as nat, (j - h3) as nat);
    lemma_up((j2 - h2) as nat, (j - h3) as nat);
    assert(k * m == p * r);
    assert(q * r == last);
    // The shifts.
    let (tx, ty) = (a.c * b.x - a.s * b.y, a.s * b.x + a.c * b.y);
    lemma_scaled_sum(a.x, g, tx, k, m);
    lemma_scaled_sum(a.y, g, ty, k, m);
    let (vx, vy) = (b.c * c.x - b.s * c.y, b.s * c.x + b.c * c.y);
    lemma_turn_twice(a.c, a.s, b.c, b.s, c.x, c.y);
    lemma_turn_sum(a.c, a.s, b.x, b.y, p, vx, vy, q, r);
    lemma_turn_sum(a.s, -a.c, b.x, b.y, p, vx, vy, q, r);
    let (sx, sy) = (b.x * p + vx * q, b.y * p + vy * q);
    assert(a.s * sx - (-a.c) * sy == a.s * sx + a.c * sy) by (nonlinear_arith);
    assert(a.s * b.x - (-a.c) * b.y == ty) by (nonlinear_arith)
        requires
            ty == a.s * b.x + a.c * b.y,
    ;
    assert(a.s * vx - (-a.c) * vy == a.s * vx + a.c * vy) by (nonlinear_arith);
    // The rotations.
    lemma_turn_twice(a.c, a.s, b.c, b.s, c.c, c.s);
    let (ab, ba) = (a.c * b.c - a.s * b.s, a.c * b.s + a.s * b.c);
    let (bc, cb) = (b.c * c.c - b.s * c.s, b.c * c.s + b.s * c.c);
    assert(ab * c.s + ba * c.c == a.c * cb + a.s * bc) by {
        assert(b.s * c.c + b.c * c.s == cb);
    }
    assert(a.followed(b).followed(c).x == a.followed(b.followed(c)).x);
    assert(a.followed(b).followed(c).y == a.followed(b.followed(c)).y);
}

/// The rotations differ by at most `k` last places of one, and the shifts by
/// at most `e` units.
pub open spec fn agree(a: Transform2D, b: Transform2D, k: int, e: int) -> bool {
    &&& magnitude_of(a.turn.cos.value() - b.turn.cos.value()) <= k * last_place()
    &&& magnitude_of(a.turn.sin.value() - b.turn.sin.value()) <= k * last_place()
    &&& magnitude_of(a.shift.x.value() - b.shift.x.value()) <= e
    &&& magnitude_of(a.shift.y.value() - b.shift.y.value()) <= e
}

proof fn lemma_agree(a: Transform2D, b: Transform2D, n: Exact, ka: int, ea: int, kb: int, eb: int)
    requires
        close(a, n, ka, ea),
        close(b, n, kb, eb),
    ensures
        agree(a, b, ka + kb, ea + eb),
{
    let v = last_place();
    assert(ka * v + kb * v == (ka + kb) * v) by (nonlinear_arith);
    lemma_near_same(a.turn.cos.value(), b.turn.cos.value(), n.c, n.i, ka * v, kb * v);
    lemma_near_same(a.turn.sin.value(), b.turn.sin.value(), n.s, n.i, ka * v, kb * v);
    lemma_near_same(a.shift.x.value(), b.shift.x.value(), n.x, n.j, ea, eb);
    lemma_near_same(a.shift.y.value(), b.shift.y.value(), n.y, n.j, ea, eb);
}

/// Composing is associative, up to rounding: for rotations with parts of at
/// most two and shifts of at most `2^52 * w` units the two orders differ by a
/// few hundred last places.
pub proof fn composing_is_associative(a: Transform2D, b: Transform2D, c: Transform2D, w: int)
    requires
        within(a, 2, w),
        within(b, 2, w),
        within(c, 2, w),
        1 <= w,
        has_finite_shift(a.compose(&b).compose(&c)),
        has_finite_shift(a.compose(&b.compose(&c))),
    ensures
        agree(a.compose(&b).compose(&c), a.compose(&b.compose(&c)), 400, 460 * w),
{
    let (na, nb, nc) = (exactly(a), exactly(b), exactly(c));
    lemma_exactly(a);
    lemma_exactly(b);
    lemma_exactly(c);
    let ab = a.compose(&b);
    let bc = b.compose(&c);
    lemma_shift_parts(ab, c);
    lemma_shift_parts(a, bc);
    lemma_compose(a, na, 2, 0, w, 0, b, nb, 2, 0, w, 0);
    lemma_compose(b, nb, 2, 0, w, 0, c, nc, 2, 0, w, 0);
    assert(0 + pair_error(2, 0, w, 0) + (w + 3 * (2 * w)) == 17 * w);
    assert(2 * (w + 3 * (2 * w)) == 14 * w);
    lemma_compose(ab, na.followed(nb), 12, 20, 14 * w, 17 * w, c, nc, 2, 0, w, 0);
    lemma_compose(a, na, 2, 0, w, 0, bc, nb.followed(nc), 12, 20, 14 * w, 17 * w);
    assert(17 * w + pair_error(12, 20, w, 0) + (14 * w + 3 * (12 * w)) == 167 * w);
    assert(0 + pair_error(2, 0, 14 * w, 17 * w) + (w + 3 * (2 * (14 * w))) == 293 * w);
    lemma_associative(na, nb, nc);
    lemma_agree(
        ab.compose(&c),
        a.compose(&bc),
        na.followed(nb).followed(nc),
        200,
        167 * w,
        200,
        293 * w,
    );
}

/// The transform that shifts by a vector.
pub open spec fn shifted_by(p: Vec2) -> Transform2D {
    Transform2D { shift: p, turn: Rotation2::identity() }
}

/// Applying a transform to a point is composing it with a shift.
proof fn lemma_apply(a: Transform2D, p: Vec2)
    ensures
        a.transform_point(p) == a.compose(&shifted_by(p)).shift,
{
    let turned = a.turn.rotate(p);
    crate::float::double::sums_commute(turned.x, a.shift.x);
    crate::float::double::sums_commute(turned.y, a.shift.y);
}

/// The rotation that does nothing has parts of at most two.
proof fn lemma_shift_within(p: Vec2, w: int)
    requires
        p.x.finite(),
        p.y.finite(),
        magnitude_of(p.x.value()) <= 0x10_0000_0000_0000 * w,
        magnitude_of(p.y.value()) <= 0x10_0000_0000_0000 * w,
    ensures
        within(shifted_by(p), 2, w),
{
    crate::float::double::lemma_one();
    crate::float::double::zero_has_no_value(F64::from_bits(0));
    lemma_last_place();
}

/// A composed transform does to a point what its parts do in turn, up to
/// rounding.
pub proof fn composing_is_applying_in_turn(a: Transform2D, b: Transform2D, p: Vec2, w: int)
    requires
        within(a, 2, w),
        within(b, 2, w),
        p.x.finite(),
        p.y.finite(),
        magnitude_of(p.x.value()) <= 0x10_0000_0000_0000 * w,
        magnitude_of(p.y.value()) <= 0x10_0000_0000_0000 * w,
        1 <= w,
        ({
            let at_once = a.compose(&b).transform_point(p);
            let in_turn = a.transform_point(b.transform_point(p));
            at_once.x.finite() && at_once.y.finite() && in_turn.x.finite() && in_turn.y.finite()
        }),
    ensures
        ({
            let at_once = a.compose(&b).transform_point(p);
            let in_turn = a.transform_point(b.transform_point(p));
            &&& magnitude_of(at_once.x.value() - in_turn.x.value()) <= 460 * w
            &&& magnitude_of(at_once.y.value() - in_turn.y.value()) <= 460 * w
        }),
{
    let c = shifted_by(p);
    lemma_shift_within(p, w);
    lemma_apply(a.compose(&b), p);
    lemma_apply(b, p);
    lemma_apply(a, b.transform_point(p));
    composing_is_associative(a, b, c, w);
}

/// How far the squared length of a rotation is from one: at most `d` last
/// places.
pub open spec fn unit_within(t: Rotation2, d: int) -> bool {
    let (c, s) = (t.cos.value(), t.sin.value());
    magnitude_of(c * c + s * s - one_unit() * one_unit()) <= d * (last_place() * one_unit())
}

/// The squared length of a rotation.
pub open spec fn squared(c: int, s: int) -> int {
    c * c + s * s
}

/// Turning two vectors alike scales their inner and outer product by the
/// squared length of the rotation.
proof fn lemma_turned_alike(c: int, s: int, a: int, b: int, p: int, q: int)
    ensures
        (c * a - s * b) * (c * p - s * q) + (c * b + s * a) * (s * p + c * q) == squared(c, s) * (a
            * p + b * q),
        (c * a - s * b) * (s * p + c * q) - (c * b + s * a) * (c * p - s * q) == squared(c, s) * (a
            * q - b * p),
{
    let (cc, cs, ss) = (c * c, c * s, s * s);
    let (ap, aq, bp, bq) = (a * p, a * q, b * p, b * q);
    lemma_expand(c, a, -s, b, c, p, -s, q);
    lemma_expand(c, b, s, a, s, p, c, q);
    lemma_expand(c, a, -s, b, s, p, c, q);
    lemma_expand(c, b, s, a, c, p, -s, q);
    assert(c * a + (-s) * b == c * a - s * b) by (nonlinear_arith);
    assert(c * p + (-s) * q == c * p - s * q) by (nonlinear_arith);
    assert(c * (-s) == -cs && (-s) * c == -cs && (-s) * (-s) == ss && s * c == cs && (-s) * s
        == -ss && s * (-s) == -ss) by (nonlinear_arith)
        requires
            cs == c * s,
            ss == s * s,
    ;
    assert((-cs) * aq == -(cs * aq) && (-cs) * bp == -(cs * bp) && (-cs) * ap == -(cs * ap)
        && (-cs) * bq == -(cs * bq) && (-ss) * bp == -(ss * bp) && (-ss) * aq == -(ss * aq))
        by (nonlinear_arith);
    assert((cc + ss) * (ap + bq) == cc * ap + cc * bq + ss * ap + ss * bq) by (nonlinear_arith);
    assert((cc + ss) * (aq - bp) == cc * aq - cc * bp + ss * aq - ss * bp) by (nonlinear_arith);
    assert(b * p == p * b && a * p == p * a && b * q == q * b && a * q == q * a)
        by (nonlinear_arith);
}

/// The product of two sums of products.
proof fn lemma_expand(c: int, a: int, s: int, b: int, e: int, p: int, f: int, q: int)
    ensures
        (c * a + s * b) * (e * p + f * q) == (c * e) * (a * p) + (c * f) * (a * q) + (s * e) * (b
            * p) + (s * f) * (b * q),
{
    let (x, y) = (e * p, f * q);
    assert((c * a + s * b) * (x + y) == (c * a) * x + (c * a) * y + (s * b) * x + (s * b) * y)
        by (nonlinear_arith);
    assert((c * a) * (e * p) == (c * e) * (a * p)) by (nonlinear_arith);
    assert((c * a) * (f * q) == (c * f) * (a * q)) by (nonlinear_arith);
    assert((s * b) * (e * p) == (s * e) * (b * p)) by (nonlinear_arith);
    assert((s * b) * (f * q) == (s * f) * (b * q)) by (nonlinear_arith);
}

/// A value near one exact value is near another that is close to it.
proof fn lemma_near_move(value: int, n: int, m: int, i: nat, e: int, g: int)
    requires
        near(value, n, i, e),
        magnitude_of(n - m) <= g * up(i),
    ensures
        near(value, m, i, e + g),
{
    let s = up(i);
    assert((e + g) * s == e * s + g * s) by (nonlinear_arith);
}

/// A value near a plain one.
proof fn lemma_near_plain(value: int, m: int, i: nat, e: int)
    requires
        near(value, m * up(i), i, e),
    ensures
        magnitude_of(value - m) <= e,
{
    let s = up(i);
    lemma_up(i, 0);
    assert(-e <= value - m <= e) by (nonlinear_arith)
        requires
            -(e * s) <= value * s - m * s <= e * s,
            s > 0,
    ;
}

/// What a rotation that is not quite of unit length adds.
proof fn lemma_defect(t: Rotation2, d: int, z: int, g: int)
    requires
        unit_within(t, d),
        magnitude_of(z) <= 0x10_0000_0000_0000 * g,
    ensures
        magnitude_of(squared(t.cos.value(), t.sin.value()) * z - z * up(2)) <= (d * g) * up(2),
{
    let (u, v) = (one_unit(), last_place());
    let n = squared(t.cos.value(), t.sin.value());
    lemma_last_place();
    lemma_up(1, 1);
    lemma_abs_product(n - u * u, z, d * (v * u), 0x10_0000_0000_0000 * g);
    assert((n - u * u) * z == n * z - z * (u * u)) by (nonlinear_arith);
    assert((d * (v * u)) * (0x10_0000_0000_0000 * g) == (d * g) * (u * u)) by (nonlinear_arith)
        requires
            u == 0x10_0000_0000_0000 * v,
    ;
}

/// The relative transform of two transforms, and how near it is.
proof fn lemma_relative(a: Transform2D, b: Transform2D, w: int)
    requires
        within(a, 2, w),
        within(b, 2, w),
        1 <= w,
        has_finite_shift(a.relative_to(&b)),
    ensures
        within(a.relative_to(&b), 12, 24 * w),
        close(a.relative_to(&b), exactly(a).back().followed(exactly(b)), 20, 32 * w),
{
    let (na, nb) = (exactly(a), exactly(b));
    lemma_exactly(a);
    lemma_exactly(b);
    lemma_shift_parts(a.inverse(), b);
    lemma_inverse(a, na, 2, 0, w, 0);
    assert(pair_error(2, 0, w, 0) == 10 * w);
    assert(3 * (2 * w) == 6 * w);
    lemma_compose(a.inverse(), na.back(), 2, 0, 6 * w, 10 * w, b, nb, 2, 0, w, 0);
    assert(10 * w + pair_error(2, 0, w, 0) + (6 * w + 3 * (2 * w)) == 32 * w);
    assert(2 * (6 * w + 3 * (2 * w)) == 24 * w);
}

/// Going and coming back: the exact transform `a` after its way back, then
/// `b`.
proof fn lemma_there_and_back(a: Exact, b: Exact)
    requires
        a.i == 0,
        a.j == 0,
        b.i == 0,
        b.j == 0,
    ensures
        ({
            let r = a.followed(a.back().followed(b));
            let n = squared(a.c, a.s);
            &&& r.c == n * b.c
            &&& r.s == n * b.s
            &&& r.i == 2
            &&& r.x == a.x * up(2) + n * (b.x - a.x)
            &&& r.y == a.y * up(2) + n * (b.y - a.y)
            &&& r.j == 2
        }),
{
    let n = squared(a.c, a.s);
    let home = a.followed(a.back());
    lemma_associative(a, a.back(), b);
    lemma_up(0, 0);
    assert(home.c == n) by {
        assert(a.s * (-a.s) == -(a.s * a.s)) by (nonlinear_arith);
    }
    assert(home.s == 0) by {
        assert(a.c * (-a.s) + a.s * a.c == 0) by (nonlinear_arith);
    }
    let (x, y) = (a.back().x, a.back().y);
    assert(a.c * x - a.s * y == -(n * a.x)) by {
        let (p, q) = (a.c * a.x, a.s * a.y);
        let (k, l) = (a.s * a.x, a.c * a.y);
        assert(a.c * (-(p + q)) == -(a.c * p) - a.c * q) by (nonlinear_arith);
        assert(a.s * (k - l) == a.s * k - a.s * l) by (nonlinear_arith);
        assert(a.c * (a.c * a.x) + a.s * (a.s * a.x) == (a.c * a.c + a.s * a.s) * a.x)
            by (nonlinear_arith);
        assert(a.c * (a.s * a.y) == a.s * (a.c * a.y)) by (nonlinear_arith);
    }
    assert(a.s * x + a.c * y == -(n * a.y)) by {
        let (p, q) = (a.c * a.x, a.s * a.y);
        let (k, l) = (a.s * a.x, a.c * a.y);
        assert(a.s * (-(p + q)) == -(a.s * p) - a.s * q) by (nonlinear_arith);
        assert(a.c * (k - l) == a.c * k - a.c * l) by (nonlinear_arith);
        assert(a.c * (a.c * a.y) + a.s * (a.s * a.y) == (a.c * a.c + a.s * a.s) * a.y)
            by (nonlinear_arith);
        assert(a.s * (a.c * a.x) == a.c * (a.s * a.x)) by (nonlinear_arith);
    }
    assert(home.i == 1 && home.j == 2);
    let (p, q) = (a.c * x - a.s * y, a.s * x + a.c * y);
    assert(p * 1 == p && q * 1 == q);
    assert(home.x == a.x * up(2) + p * up(0));
    assert(home.y == a.y * up(2) + q * up(0));
    let r = home.followed(b);
    assert(0 * b.s == 0 && 0 * b.c == 0 && 0 * b.x == 0 && 0 * b.y == 0);
    assert(n * (b.x - a.x) == n * b.x - n * a.x) by (nonlinear_arith);
    assert(n * (b.y - a.y) == n * b.y - n * a.y) by (nonlinear_arith);
    assert(home.x * 1 == home.x && home.y * 1 == home.y);
    assert((n * b.x) * 1 == n * b.x && (n * b.y) * 1 == n * b.y);
}

/// Composing a transform with the way from it to another gives the other back,
/// up to rounding and to what its rotation lacks of unit length.
pub proof fn relative_transforms_lead_to_their_target(
    a: Transform2D,
    b: Transform2D,
    w: int,
    d: int,
)
    requires
        within(a, 2, w),
        within(b, 2, w),
        1 <= w,
        has_finite_shift(a.compose(&a.relative_to(&b))),
        unit_within(a.turn, d),
    ensures
        agree(a.compose(&a.relative_to(&b)), b, 200 + 2 * d, 513 * w + 2 * (d * w)),
{
    let (na, nb) = (exactly(a), exactly(b));
    let v = last_place();
    lemma_last_place();
    lemma_exactly(a);
    lemma_shift_parts(a, a.relative_to(&b));
    lemma_relative(a, b, w);
    let rel = a.relative_to(&b);
    let nr = na.back().followed(nb);
    lemma_compose(a, na, 2, 0, w, 0, rel, nr, 12, 20, 24 * w, 32 * w);
    assert(0 + pair_error(2, 0, 24 * w, 32 * w) + (w + 3 * (2 * (24 * w))) == 513 * w);
    let r = a.compose(&rel);
    let n = squared(na.c, na.s);
    lemma_there_and_back(na, nb);
    assert(close(r, na.followed(nr), 200, 513 * w));
    assert((200 + 2 * d) * v == 200 * v + d * (2 * v)) by (nonlinear_arith);
    lemma_defect(a.turn, d, nb.c, 2 * v);
    lemma_defect(a.turn, d, nb.s, 2 * v);
    lemma_near_move(r.turn.cos.value(), n * nb.c, nb.c * up(2), 2, 200 * v, d * (2 * v));
    lemma_near_move(r.turn.sin.value(), n * nb.s, nb.s * up(2), 2, 200 * v, d * (2 * v));
    lemma_near_plain(r.turn.cos.value(), nb.c, 2, 200 * v + d * (2 * v));
    lemma_near_plain(r.turn.sin.value(), nb.s, 2, 200 * v + d * (2 * v));
    let (x, y) = (nb.x - na.x, nb.y - na.y);
    lemma_defect(a.turn, d, x, 2 * w);
    lemma_defect(a.turn, d, y, 2 * w);
    assert(d * (2 * w) == 2 * (d * w)) by (nonlinear_arith);
    assert(na.x * up(2) + x * up(2) == nb.x * up(2)) by (nonlinear_arith)
        requires
            x == nb.x - na.x,
    ;
    assert(na.y * up(2) + y * up(2) == nb.y * up(2)) by (nonlinear_arith)
        requires
            y == nb.y - na.y,
    ;
    lemma_near_move(
        r.shift.x.value(),
        na.x * up(2) + n * x,
        nb.x * up(2),
        2,
        513 * w,
        2 * (d * w),
    );
    lemma_near_move(
        r.shift.y.value(),
        na.y * up(2) + n * y,
        nb.y * up(2),
        2,
        513 * w,
        2 * (d * w),
    );
    lemma_near_plain(r.shift.x.value(), nb.x, 2, 513 * w + 2 * (d * w));
    lemma_near_plain(r.shift.y.value(), nb.y, 2, 513 * w + 2 * (d * w));
}

/// A transform relative to itself is the identity, up to rounding and to what
/// its rotation lacks of unit length.
pub proof fn a_transform_relative_to_itself_is_the_identity(a: Transform2D, w: int, d: int)
    requires
        within(a, 2, w),
        1 <= w,
        has_finite_shift(a.relative_to(&a)),
        0 <= d,
        unit_within(a.turn, d),
    ensures
        agree(a.relative_to(&a), Transform2D::identity(), 20 + d, 32 * w),
{
    let na = exactly(a);
    let (u, v) = (one_unit(), last_place());
    lemma_last_place();
    lemma_relative(a, a, w);
    let r = a.relative_to(&a);
    let nr = na.back().followed(na);
    lemma_up(0, 0);
    lemma_up(1, 0);
    assert(na.c * na.c - (-na.s) * na.s == squared(na.c, na.s)) by (nonlinear_arith)
        requires
            squared(na.c, na.s) == na.c * na.c + na.s * na.s,
    ;
    assert(na.c * na.s + (-na.s) * na.c == 0) by (nonlinear_arith);
    assert((-na.s) * na.y == -(na.s * na.y)) by (nonlinear_arith);
    assert((-na.s) * na.x == -(na.s * na.x)) by (nonlinear_arith);
    let (p, q) = (na.c * na.x - (-na.s) * na.y, (-na.s) * na.x + na.c * na.y);
    let (x, y) = (na.back().x, na.back().y);
    assert(p * 1 == p && q * 1 == q && x * 1 == x && y * 1 == y);
    assert(nr.x == x * up(0) + p * up(0));
    assert(nr.y == y * up(0) + q * up(0));
    assert(d * (v * u) == (d * v) * up(1)) by (nonlinear_arith)
        requires
            up(1) == u,
    ;
    assert((20 + d) * v == 20 * v + d * v) by (nonlinear_arith);
    assert(d * v >= 0) by (nonlinear_arith)
        requires
            d >= 0,
            v > 0,
    ;
    lemma_near_move(r.turn.cos.value(), nr.c, u * up(1), 1, 20 * v, d * v);
    lemma_near_plain(r.turn.cos.value(), u, 1, 20 * v + d * v);
    assert(0 * up(1) == 0);
    lemma_near_plain(r.turn.sin.value(), 0, 1, 20 * v);
    lemma_near_plain(r.shift.x.value(), 0, 1, 32 * w);
    lemma_near_plain(r.shift.y.value(), 0, 1, 32 * w);
    crate::float::double::lemma_one();
    crate::float::double::zero_has_no_value(F64::from_bits(0));
}

/// The exact way from one transform to another, written by the difference of
/// their shifts.
proof fn lemma_between(a: Exact, b: Exact)
    requires
        a.j == b.j,
    ensures
        ({
            let r = a.back().followed(b);
            let (x, y) = (b.x - a.x, b.y - a.y);
            &&& r.c == a.c * b.c + a.s * b.s
            &&& r.s == a.c * b.s - a.s * b.c
            &&& r.i == a.i + b.i + 1
            &&& r.x == a.c * x + a.s * y
            &&& r.y == a.c * y - a.s * x
            &&& r.j == a.i + a.j + 1
        }),
{
    let r = a.back().followed(b);
    let (x, y) = (b.x - a.x, b.y - a.y);
    lemma_up(0, 0);
    assert((-a.s) * b.s == -(a.s * b.s) && (-a.s) * b.c == -(a.s * b.c)) by (nonlinear_arith);
    assert((-a.s) * b.x == -(a.s * b.x) && (-a.s) * b.y == -(a.s * b.y)) by (nonlinear_arith);
    let (p, q) = (a.c * b.x - (-a.s) * b.y, (-a.s) * b.x + a.c * b.y);
    let (k, l) = (a.back().x, a.back().y);
    assert(p * 1 == p && q * 1 == q && k * 1 == k && l * 1 == l);
    assert(r.x == k * up(0) + p * up(0));
    assert(r.y == l * up(0) + q * up(0));
    assert(a.c * (b.x - a.x) == a.c * b.x - a.c * a.x) by (nonlinear_arith);
    assert(a.s * (b.x - a.x) == a.s * b.x - a.s * a.x) by (nonlinear_arith);
    assert(a.c * (b.y - a.y) == a.c * b.y - a.c * a.y) by (nonlinear_arith);
    assert(a.s * (b.y - a.y) == a.s * b.y - a.s * a.y) by (nonlinear_arith);
}

/// How large an exact part can be when a value is near it.
proof fn lemma_near_size(value: int, n: int, e: int, g: int)
    requires
        near(value, n, 1, e),
        0 <= e,
        magnitude_of(value) + e <= 0x10_0000_0000_0000 * g,
    ensures
        magnitude_of(n) <= 0x10_0000_0000_0000 * (g * one_unit()),
{
    let u = one_unit();
    lemma_up(1, 0);
    lemma_last_place();
    assert(-(0x10_0000_0000_0000 * (g * u)) <= n <= 0x10_0000_0000_0000 * (g * u))
        by (nonlinear_arith)
        requires
            -(e * u) <= value * u - n <= e * u,
            -(0x10_0000_0000_0000 * g) <= value + e <= 0x10_0000_0000_0000 * g,
            -(0x10_0000_0000_0000 * g) <= value - e <= 0x10_0000_0000_0000 * g,
            u > 0,
    ;
}

/// A value near an exact part that is another one but for what a rotation
/// lacks of unit length.
proof fn lemma_near_scaled(t: Rotation2, d: int, a: int, ea: int, b: int, n: int, eb: int, g: int)
    requires
        unit_within(t, d),
        near(a, squared(t.cos.value(), t.sin.value()) * n, 3, ea),
        near(b, n, 1, eb),
        0 <= eb,
        magnitude_of(b) + eb <= 0x10_0000_0000_0000 * g,
    ensures
        magnitude_of(a - b) <= ea + eb + d * g,
{
    let u = one_unit();
    lemma_near_size(b, n, eb, g);
    lemma_defect(t, d, n, g * u);
    lemma_up(1, 2);
    assert((d * (g * u)) * up(2) == (d * g) * up(3)) by (nonlinear_arith)
        requires
            u * up(2) == up(3),
    ;
    lemma_near_move(a, squared(t.cos.value(), t.sin.value()) * n, n * up(2), 3, ea, d * g);
    lemma_near_lift(b, n, 1, eb, 2);
    lemma_near_same(a, b, n * up(2), 3, ea + d * g, eb);
}

/// The way from `b` to `a` is the inverse of the way from `a` to `b`, up to
/// rounding and to what the rotation of `a` lacks of unit length.
pub proof fn relative_transforms_invert(a: Transform2D, b: Transform2D, w: int, d: int)
    requires
        within(a, 2, w),
        within(b, 2, w),
        1 <= w,
        has_finite_shift(a.relative_to(&b).inverse()),
        has_finite_shift(b.relative_to(&a)),
        unit_within(a.turn, d),
    ensures
        agree(
            a.relative_to(&b).inverse(),
            b.relative_to(&a),
            40,
            4480 * w + d * (25 * w),
        ),
{
    let (na, nb) = (exactly(a), exactly(b));
    let n = squared(na.c, na.s);
    lemma_inverse_parts(a.relative_to(&b));
    lemma_relative(a, b, w);
    lemma_relative(b, a, w);
    let there = a.relative_to(&b);
    let (r, q) = (there.inverse(), b.relative_to(&a));
    let nr = na.back().followed(nb);
    let nq = nb.back().followed(na);
    lemma_inverse(there, nr, 12, 20, 24 * w, 32 * w);
    assert(pair_error(12, 20, 24 * w, 32 * w) == 4448 * w);
    lemma_between(na, nb);
    lemma_between(nb, na);
    let (x, y) = (nb.x - na.x, nb.y - na.y);
    assert(nr.c == nq.c && -nr.s == nq.s) by {
        assert(na.c * nb.c == nb.c * na.c && na.s * nb.s == nb.s * na.s && na.c * nb.s == nb.s
            * na.c && na.s * nb.c == nb.c * na.s) by (nonlinear_arith);
    }
    assert(nr.back().x == n * nq.x && nr.back().y == n * nq.y) by {
        let t = -na.s;
        lemma_turned_alike(na.c, t, nb.c, nb.s, x, y);
        assert(t * t == na.s * na.s && t * nb.c == -(na.s * nb.c) && t * nb.s == -(na.s * nb.s)
            && t * x == -(na.s * x) && t * y == -(na.s * y)) by (nonlinear_arith)
            requires
                t == -na.s,
        ;
        let (k, l) = (nb.c * x + nb.s * y, nb.c * y - nb.s * x);
        assert(nb.c * (-x) == -(nb.c * x) && nb.s * (-y) == -(nb.s * y) && nb.c * (-y) == -(nb.c
            * y) && nb.s * (-x) == -(nb.s * x)) by (nonlinear_arith);
        assert(na.x - nb.x == -x && na.y - nb.y == -y);
        assert(nq.x == -k && nq.y == -l);
        assert(n * (-k) == -(n * k) && n * (-l) == -(n * l)) by (nonlinear_arith);
    }
    let v = last_place();
    lemma_last_place();
    lemma_near_same(r.turn.cos.value(), q.turn.cos.value(), nq.c, 1, 20 * v, 20 * v);
    lemma_near_same(r.turn.sin.value(), q.turn.sin.value(), nq.s, 1, 20 * v, 20 * v);
    lemma_near_scaled(
        a.turn,
        d,
        r.shift.x.value(),
        4448 * w,
        q.shift.x.value(),
        nq.x,
        32 * w,
        25 * w,
    );
    lemma_near_scaled(
        a.turn,
        d,
        r.shift.y.value(),
        4448 * w,
        q.shift.y.value(),
        nq.y,
        32 * w,
        25 * w,
    );
}

/// The exact way between two transforms seen through a third.
proof fn lemma_common_frame(t: Exact, a: Exact, b: Exact)
    requires
        t.i == 0,
        t.j == 0,
        a.i == 0,
        a.j == 0,
        b.i == 0,
        b.j == 0,
    ensures
        ({
            let r = t.followed(a).back().followed(t.followed(b));
            let q = a.back().followed(b);
            let n = squared(t.c, t.s);
            &&& r.c == n * q.c
            &&& r.s == n * q.s
            &&& r.i == 3
            &&& r.x == n * q.x
            &&& r.y == n * q.y
            &&& r.j == 3
        }),
{
    let (ta, tb) = (t.followed(a), t.followed(b));
    let (x, y) = (b.x - a.x, b.y - a.y);
    lemma_up(0, 0);
    lemma_between(a, b);
    lemma_between(ta, tb);
    lemma_turned_alike(t.c, t.s, a.c, a.s, b.c, b.s);
    lemma_turned_alike(t.c, t.s, a.c, a.s, x, y);
    let (p, q) = (t.c * a.x - t.s * a.y, t.s * a.x + t.c * a.y);
    let (k, l) = (t.c * b.x - t.s * b.y, t.s * b.x + t.c * b.y);
    assert(p * 1 == p && q * 1 == q && k * 1 == k && l * 1 == l) by (nonlinear_arith);
    assert(ta.x == t.x * up(1) + p * up(0) && ta.y == t.y * up(1) + q * up(0));
    assert(tb.x == t.x * up(1) + k * up(0) && tb.y == t.y * up(1) + l * up(0));
    assert(t.c * (b.x - a.x) == t.c * b.x - t.c * a.x) by (nonlinear_arith);
    assert(t.s * (b.x - a.x) == t.s * b.x - t.s * a.x) by (nonlinear_arith);
    assert(t.c * (b.y - a.y) == t.c * b.y - t.c * a.y) by (nonlinear_arith);
    assert(t.s * (b.y - a.y) == t.s * b.y - t.s * a.y) by (nonlinear_arith);
    assert(tb.x - ta.x == t.c * x - t.s * y);
    assert(tb.y - ta.y == t.s * x + t.c * y);
}

/// The way between two transforms does not depend on the frame that both are
/// seen from, up to rounding and to what the rotation of that frame lacks of
/// unit length.
pub proof fn relative_transforms_ignore_the_frame(
    t: Transform2D,
    a: Transform2D,
    b: Transform2D,
    w: int,
    d: int,
)
    requires
        within(t, 2, w),
        within(a, 2, w),
        within(b, 2, w),
        1 <= w,
        has_finite_shift(t.compose(&a).relative_to(&t.compose(&b))),
        has_finite_shift(a.relative_to(&b)),
        0 <= d,
        unit_within(t.turn, d),
    ensures
        agree(
            t.compose(&a).relative_to(&t.compose(&b)),
            a.relative_to(&b),
            2500 + 13 * d,
            6016 * w + d * (25 * w),
        ),
{
    let (nt, na, nb) = (exactly(t), exactly(a), exactly(b));
    let n = squared(nt.c, nt.s);
    let v = last_place();
    lemma_last_place();
    lemma_exactly(t);
    lemma_exactly(a);
    lemma_exactly(b);
    lemma_relative(a, b, w);
    let (ta, tb) = (t.compose(&a), t.compose(&b));
    let (nta, ntb) = (nt.followed(na), nt.followed(nb));
    lemma_shift_parts(ta.inverse(), tb);
    lemma_inverse_parts(ta);
    lemma_compose(t, nt, 2, 0, w, 0, a, na, 2, 0, w, 0);
    lemma_compose(t, nt, 2, 0, w, 0, b, nb, 2, 0, w, 0);
    assert(0 + pair_error(2, 0, w, 0) + (w + 3 * (2 * w)) == 17 * w);
    assert(2 * (w + 3 * (2 * w)) == 14 * w);
    lemma_inverse(ta, nta, 12, 20, 14 * w, 17 * w);
    assert(pair_error(12, 20, 14 * w, 17 * w) == 2488 * w);
    assert(3 * (12 * (14 * w)) == 504 * w);
    lemma_compose(
        ta.inverse(),
        nta.back(),
        12,
        20,
        504 * w,
        2488 * w,
        tb,
        ntb,
        12,
        20,
        14 * w,
        17 * w,
    );
    assert(2488 * w + pair_error(12, 20, 14 * w, 17 * w) + (504 * w + 3 * (12 * (14 * w))) == 5984
        * w);
    let (r, q) = (ta.relative_to(&tb), a.relative_to(&b));
    let nq = na.back().followed(nb);
    lemma_common_frame(nt, na, nb);
    assert(d * (13 * v) == (13 * d) * v) by (nonlinear_arith);
    assert((2500 + 13 * d) * v == 2480 * v + 20 * v + (13 * d) * v) by (nonlinear_arith);
    lemma_near_scaled(
        t.turn,
        d,
        r.turn.cos.value(),
        2480 * v,
        q.turn.cos.value(),
        nq.c,
        20 * v,
        13 * v,
    );
    lemma_near_scaled(
        t.turn,
        d,
        r.turn.sin.value(),
        2480 * v,
        q.turn.sin.value(),
        nq.s,
        20 * v,
        13 * v,
    );
    lemma_near_scaled(
        t.turn,
        d,
        r.shift.x.value(),
        5984 * w,
        q.shift.x.value(),
        nq.x,
        32 * w,
        25 * w,
    );
    lemma_near_scaled(
        t.turn,
        d,
        r.shift.y.value(),
        5984 * w,
        q.shift.y.value(),
        nq.y,
        32 * w,
        25 * w,
    );
}

/// The rotation of a composition is the rotation by both angles in turn: its
/// cosine and sine are those of the sum of the angles, up to rounding.
pub proof fn composing_adds_the_angles(p: Rotation2, q: Rotation2)
    requires
        turn_within(p, 2),
        turn_within(q, 2),
    ensures
        ({
            let r = p.compose(q);
            &&& r.cos.finite()
            &&& r.sin.finite()
            &&& near(
                r.cos.value(),
                p.cos.value() * q.cos.value() - p.sin.value() * q.sin.value(),
                1,
                20 * last_place(),
            )
            &&& near(
                r.sin.value(),
                p.cos.value() * q.sin.value() + p.sin.value() * q.cos.value(),
                1,
                20 * last_place(),
            )
        }),
{
    let z = 2 * last_place();
    lemma_last_place();
    lemma_turns_fit(2, 2);
    lemma_two_fit(p.cos, q.cos, p.sin, q.sin, 2, z);
    lemma_two_fit(p.cos, q.sin, p.sin, q.cos, 2, z);
    lemma_two(p.cos, q.cos, p.sin, q.sin, 2, z);
    lemma_two(p.cos, q.sin, p.sin, q.cos, 2, z);
    lemma_up(1, 0);
    let (v, u) = (last_place(), one_unit());
    assert(5 * ((2 * (2 * v)) * u) == (20 * v) * u) by (nonlinear_arith);
}

proof fn lemma_near_shifted(a: int, b: int, n: int, i: nat, e: int, g: int)
    requires
        near(b, n, i, e),
        magnitude_of(a - b) <= g,
    ensures
        near(a, n, i, e + g),
{
    let s = up(i);
    lemma_up(i, 0);
    assert(-((e + g) * s) <= a * s - n <= (e + g) * s) by (nonlinear_arith)
        requires
            -(e * s) <= b * s - n <= e * s,
            -g <= a - b <= g,
            s > 0,
    ;
}

/// What the way from `o` to `q`, seen through `g`, adds to the place of `o`.
proof fn lemma_exact_step(g: Transform2D, o: Transform2D, q: Transform2D, w: int, d: int)
    requires
        within(g, 2, w),
        within(o, 2, w),
        within(q, 2, w),
        unit_within(o.turn, d),
    ensures
        ({
            let (ng, no, nq) = (exactly(g), exactly(o), exactly(q));
            let r = ng.followed(no).followed(no.back().followed(nq));
            let t = ng.followed(nq);
            &&& r.j == 3
            &&& t.j == 1
            &&& magnitude_of(r.x - t.x * up(2)) <= (8 * (d * w)) * up(3)
            &&& magnitude_of(r.y - t.y * up(2)) <= (8 * (d * w)) * up(3)
        }),
{
    let (ng, no, nq) = (exactly(g), exactly(o), exactly(q));
    let u = one_unit();
    let way = no.back().followed(nq);
    let m = no.followed(way);
    let n = squared(no.c, no.s);
    lemma_associative(ng, no, way);
    lemma_there_and_back(no, nq);
    lemma_up(0, 0);
    lemma_up(1, 2);
    let r = ng.followed(m);
    let t = ng.followed(nq);
    let (x, y) = (nq.x - no.x, nq.y - no.y);
    lemma_defect(o.turn, d, x, 2 * w);
    lemma_defect(o.turn, d, y, 2 * w);
    assert(d * (2 * w) == 2 * (d * w)) by (nonlinear_arith);
    let (fx, fy) = (n * x - x * up(2), n * y - y * up(2));
    let bound = (2 * (d * w)) * up(2);
    assert(m.x == nq.x * up(2) + fx) by {
        assert(nq.x * up(2) == no.x * up(2) + x * up(2)) by (nonlinear_arith)
            requires
                x == nq.x - no.x,
        ;
    }
    assert(m.y == nq.y * up(2) + fy) by {
        assert(nq.y * up(2) == no.y * up(2) + y * up(2)) by (nonlinear_arith)
            requires
                y == nq.y - no.y,
        ;
    }
    let (p, k) = (ng.c * m.x - ng.s * m.y, ng.s * m.x + ng.c * m.y);
    let (l, z) = (ng.c * nq.x - ng.s * nq.y, ng.s * nq.x + ng.c * nq.y);
    assert(p * 1 == p && k * 1 == k && l * 1 == l && z * 1 == z) by (nonlinear_arith);
    assert(r.x == ng.x * up(3) + p * up(0) && r.y == ng.y * up(3) + k * up(0));
    assert(t.x == ng.x * up(1) + l * up(0) && t.y == ng.y * up(1) + z * up(0));
    let s = up(2);
    assert((ng.x * u + l) * s == ng.x * (u * s) + l * s) by (nonlinear_arith);
    assert((ng.y * u + z) * s == ng.y * (u * s) + z * s) by (nonlinear_arith);
    assert(p == l * s + (ng.c * fx - ng.s * fy)) by {
        lemma_moved(ng.c, nq.x, s, fx);
        lemma_moved(ng.s, nq.y, s, fy);
        assert((ng.c * nq.x - ng.s * nq.y) * s == (ng.c * nq.x) * s - (ng.s * nq.y) * s)
            by (nonlinear_arith);
    }
    assert(k == z * s + (ng.s * fx + ng.c * fy)) by {
        lemma_moved(ng.s, nq.x, s, fx);
        lemma_moved(ng.c, nq.y, s, fy);
        assert((ng.s * nq.x + ng.c * nq.y) * s == (ng.s * nq.x) * s + (ng.c * nq.y) * s)
            by (nonlinear_arith);
    }
    lemma_abs_product(ng.c, fx, 2 * u, bound);
    lemma_abs_product(ng.s, fy, 2 * u, bound);
    lemma_abs_product(ng.s, fx, 2 * u, bound);
    lemma_abs_product(ng.c, fy, 2 * u, bound);
    assert((2 * u) * ((2 * (d * w)) * s) == (4 * (d * w)) * (u * s)) by (nonlinear_arith);
    assert((8 * (d * w)) * up(3) == 2 * ((4 * (d * w)) * up(3))) by (nonlinear_arith);
}

proof fn lemma_moved(c: int, x: int, s: int, f: int)
    ensures
        c * (x * s + f) == (c * x) * s + c * f,
{
    assert(c * (x * s + f) == (c * x) * s + c * f) by (nonlinear_arith);
}

/// A frame `g` that places `o` near `p` places `q` near where the way from `o`
/// to `q` leads from `p`: within `e` units before the step, and a few thousand
/// last places more after it. `d` tells what the rotation of `o` lacks of unit
/// length, and `h` by how much the rotation of `p` differs from that of `o` in
/// the frame.
pub proof fn steps_keep_the_frame(
    g: Transform2D,
    o: Transform2D,
    q: Transform2D,
    p: Transform2D,
    w: int,
    d: int,
    h: int,
    e: int,
)
    requires
        within(g, 2, w),
        within(o, 2, w),
        within(q, 2, w),
        within(p, 2, 15 * w),
        1 <= w,
        has_finite_shift(g.compose(&o)),
        has_finite_shift(g.compose(&q)),
        has_finite_shift(p.compose(&o.relative_to(&q))),
        0 <= d,
        0 <= h,
        0 <= e,
        unit_within(o.turn, d),
        agree(p, g.compose(&o), h, e),
    ensures
        ({
            let (r, t) = (p.compose(&o.relative_to(&q)).shift, g.compose(&q).shift);
            let f = e + (2801 + 8 * d + 112 * h) * w;
            &&& magnitude_of(r.x.value() - t.x.value()) <= f
            &&& magnitude_of(r.y.value() - t.y.value()) <= f
        }),
{
    let (ng, no, nq) = (exactly(g), exactly(o), exactly(q));
    let v = last_place();
    lemma_exactly(g);
    lemma_exactly(o);
    lemma_exactly(q);
    lemma_shift_parts(p, o.relative_to(&q));
    lemma_relative(o, q, w);
    let (placed, way, end) = (g.compose(&o), o.relative_to(&q), g.compose(&q));
    let (nplaced, nway, nend) = (ng.followed(no), no.back().followed(nq), ng.followed(nq));
    lemma_compose(g, ng, 2, 0, w, 0, o, no, 2, 0, w, 0);
    lemma_compose(g, ng, 2, 0, w, 0, q, nq, 2, 0, w, 0);
    assert(0 + pair_error(2, 0, w, 0) + (w + 3 * (2 * w)) == 17 * w);
    assert((20 + h) * v == 20 * v + h * v) by (nonlinear_arith);
    lemma_near_shifted(
        p.turn.cos.value(),
        placed.turn.cos.value(),
        nplaced.c,
        nplaced.i,
        20 * v,
        h * v,
    );
    lemma_near_shifted(
        p.turn.sin.value(),
        placed.turn.sin.value(),
        nplaced.s,
        nplaced.i,
        20 * v,
        h * v,
    );
    lemma_near_shifted(p.shift.x.value(), placed.shift.x.value(), nplaced.x, nplaced.j, 17 * w, e);
    lemma_near_shifted(p.shift.y.value(), placed.shift.y.value(), nplaced.y, nplaced.j, 17 * w, e);
    lemma_compose(p, nplaced, 2, 20 + h, 15 * w, 17 * w + e, way, nway, 12, 20, 24 * w, 32 * w);
    let r = p.compose(&way);
    let nr = nplaced.followed(nway);
    let f = e + 2784 * w + 112 * (h * w);
    assert(pair_error(2, 20 + h, 24 * w, 32 * w) == 2608 * w + 112 * (h * w)) by {
        assert(2 * ((20 + h) * (24 * w)) == 960 * w + 48 * (h * w)) by (nonlinear_arith);
        assert(2 * ((2 + (20 + h)) * (32 * w)) == 1408 * w + 64 * (h * w)) by (nonlinear_arith);
        assert(2 * (20 + h) * (24 * w) == 2 * ((20 + h) * (24 * w))) by (nonlinear_arith);
        assert(2 * (2 + (20 + h)) * (32 * w) == 2 * ((2 + (20 + h)) * (32 * w)))
            by (nonlinear_arith);
    }
    lemma_exact_step(g, o, q, w, d);
    let more = 8 * (d * w);
    lemma_near_move(r.shift.x.value(), nr.x, nend.x * up(2), 3, f, more);
    lemma_near_move(r.shift.y.value(), nr.y, nend.y * up(2), 3, f, more);
    lemma_near_lift(end.shift.x.value(), nend.x, 1, 17 * w, 2);
    lemma_near_lift(end.shift.y.value(), nend.y, 1, 17 * w, 2);
    lemma_near_same(
        r.shift.x.value(),
        end.shift.x.value(),
        nend.x * up(2),
        3,
        f + more,
        17 * w,
    );
    lemma_near_same(
        r.shift.y.value(),
        end.shift.y.value(),
        nend.y * up(2),
        3,
        f + more,
        17 * w,
    );
    assert((2801 + 8 * d + 112 * h) * w == 2801 * w + 8 * (d * w) + 112 * (h * w))
        by (nonlinear_arith);
}

/// How far a place can be in a frame.
pub proof fn lemma_placed(g: Transform2D, o: Transform2D, w: int)
    requires
        within(g, 2, w),
        within(o, 2, w),
        1 <= w,
        has_finite_shift(g.compose(&o)),
    ensures
        within(g.compose(&o), 12, 14 * w),
{
    lemma_exactly(g);
    lemma_exactly(o);
    lemma_compose(g, exactly(g), 2, 0, w, 0, o, exactly(o), 2, 0, w, 0);
    assert(2 * (w + 3 * (2 * w)) == 14 * w);
}

/// A composition has a finite shift while the shifts of its parts are at most
/// `2^1018` metres: overflow begins at `2^1024`.
pub proof fn compositions_do_not_overflow(a: Transform2D, b: Transform2D, w: int)
    requires
        within(a, 2, w),
        within(b, 2, w),
        1 <= w <= pow2(2040),
    ensures
        a.compose(&b).is_finite(),
{
    let z = 2 * last_place();
    lemma_last_place();
    lemma_turns_fit(2, 2);
    let (c, s) = (a.turn.cos, a.turn.sin);
    lemma_two_fit(c, b.turn.cos, s, b.turn.sin, 2, z);
    lemma_two_fit(c, b.turn.sin, s, b.turn.cos, 2, z);
    lemma2_to64();
    lemma_pow2_adds(4, 2040);
    lemma_two_fit(c, b.shift.x, s, b.shift.y, 2, w);
    lemma_two_fit(s, b.shift.x, c, b.shift.y, 2, w);
    lemma_two(c, b.shift.x, s, b.shift.y, 2, w);
    lemma_two(s, b.shift.x, c, b.shift.y, 2, w);
    let turned = a.turn.rotate(b.shift);
    lemma_sum_fits(a.shift.x, turned.x, 7 * w);
    lemma_sum_fits(a.shift.y, turned.y, 7 * w);
}

/// The way between transforms that agree is short, up to rounding.
pub proof fn transforms_that_agree_are_not_far_apart(
    a: Transform2D,
    b: Transform2D,
    w: int,
    k: int,
    e: int,
)
    requires
        within(a, 2, w),
        within(b, 2, w),
        1 <= w,
        agree(a, b, k, e),
        has_finite_shift(a.relative_to(&b)),
    ensures
        magnitude_of(a.relative_to(&b).shift.x.value()) <= 4 * e + 32 * w,
        magnitude_of(a.relative_to(&b).shift.y.value()) <= 4 * e + 32 * w,
{
    let (na, nb) = (exactly(a), exactly(b));
    let u = one_unit();
    let r = a.relative_to(&b).shift;
    lemma_relative(a, b, w);
    lemma_between(na, nb);
    lemma_up(1, 0);
    let (x, y) = (nb.x - na.x, nb.y - na.y);
    let n = na.back().followed(nb);
    lemma_abs_product(na.c, x, 2 * u, e);
    lemma_abs_product(na.s, y, 2 * u, e);
    lemma_abs_product(na.c, y, 2 * u, e);
    lemma_abs_product(na.s, x, 2 * u, e);
    assert(2 * ((2 * u) * e) == (4 * e) * u) by (nonlinear_arith);
    assert(0 * up(1) == 0);
    lemma_near_move(r.x.value(), n.x, 0, 1, 32 * w, 4 * e);
    lemma_near_move(r.y.value(), n.y, 0, 1, 32 * w, 4 * e);
    lemma_near_plain(r.x.value(), 0, 1, 32 * w + 4 * e);
    lemma_near_plain(r.y.value(), 0, 1, 32 * w + 4 * e);
}

} // verus!
