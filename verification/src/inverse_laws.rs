//! What the inverse of a matrix means.
use vstd::arithmetic::power2::*;
use vstd::prelude::*;

use crate::float::double::F64;
use crate::linear::{Mat3, Vec3};

verus! {

/// A product of three numbers.
pub open spec fn triple(x: int, y: int, z: int) -> int {
    x * (y * z)
}

/// The order of three factors does not matter.
proof fn lemma_triple(x: int, y: int, z: int)
    ensures
        x * (y * z) == triple(x, y, z),
        x * (z * y) == triple(x, y, z),
        y * (x * z) == triple(x, y, z),
        y * (z * x) == triple(x, y, z),
        z * (x * y) == triple(x, y, z),
        z * (y * x) == triple(x, y, z),
{
    assert(y * z == z * y && x * z == z * x && x * y == y * x) by (nonlinear_arith);
    assert(y * (x * z) == x * (y * z)) by (nonlinear_arith);
    assert(z * (x * y) == x * (y * z)) by (nonlinear_arith);
}

/// The exact minor of four numbers.
pub open spec fn exact_minor(p: F64, q: F64, r: F64, s: F64) -> int {
    p.value() * q.value() - r.value() * s.value()
}

/// The exact determinant.
pub open spec fn exact_determinant(m: Mat3) -> int {
    let (a, b, c) = (m.r0, m.r1, m.r2);
    a.x.value() * exact_minor(b.y, c.z, c.y, b.z) - a.y.value() * exact_minor(b.x, c.z, c.x, b.z)
        + a.z.value() * exact_minor(b.x, c.y, c.x, b.y)
}

/// The exact entries of the transposed matrix of cofactors.
pub open spec fn exact_cofactor(m: Mat3, row: int, column: int) -> int {
    let (a, b, c) = (m.r0, m.r1, m.r2);
    if row == 0 {
        if column == 0 {
            exact_minor(b.y, c.z, c.y, b.z)
        } else if column == 1 {
            exact_minor(a.z, c.y, c.z, a.y)
        } else {
            exact_minor(a.y, b.z, b.y, a.z)
        }
    } else if row == 1 {
        if column == 0 {
            -exact_minor(b.x, c.z, c.x, b.z)
        } else if column == 1 {
            exact_minor(a.x, c.z, c.x, a.z)
        } else {
            exact_minor(a.z, b.x, b.z, a.x)
        }
    } else {
        if column == 0 {
            exact_minor(b.x, c.y, c.x, b.y)
        } else if column == 1 {
            exact_minor(a.y, c.x, c.y, a.x)
        } else {
            exact_minor(a.x, b.y, b.x, a.y)
        }
    }
}

proof fn lemma_spread(x: int, p: int, q: int)
    ensures
        x * (p - q) == x * p - x * q,
        x * (-(p - q)) == x * q - x * p,
{
    assert(x * (p - q) == x * p - x * q) by (nonlinear_arith);
    assert(x * (-(p - q)) == x * q - x * p) by (nonlinear_arith);
}

/// A row of a matrix times a column of its cofactors is the determinant, or
/// nothing where the two are not of the same number.
proof fn lemma_cofactors(m: Mat3, row: int, column: int)
    requires
        0 <= row < 3,
        0 <= column < 3,
    ensures
        m.entry(row, 0).value() * exact_cofactor(m, 0, column) + m.entry(row, 1).value()
            * exact_cofactor(m, 1, column) + m.entry(row, 2).value() * exact_cofactor(m, 2, column)
            == if row == column {
            exact_determinant(m)
        } else {
            0
        },
{
    let r = m.row(row);
    let (x, y, z) = (r.x.value(), r.y.value(), r.z.value());
    let (a, b, c) = (m.r0, m.r1, m.r2);
    let (ax, ay, az) = (a.x.value(), a.y.value(), a.z.value());
    let (bx, by, bz) = (b.x.value(), b.y.value(), b.z.value());
    let (cx, cy, cz) = (c.x.value(), c.y.value(), c.z.value());
    lemma_triple(ax, by, cz);
    lemma_triple(ax, cy, bz);
    lemma_triple(ay, bx, cz);
    lemma_triple(ay, cx, bz);
    lemma_triple(az, bx, cy);
    lemma_triple(az, cx, by);
    lemma_spread(ax, by * cz, cy * bz);
    lemma_spread(ay, bx * cz, cx * bz);
    lemma_spread(az, bx * cy, cx * by);
    if column == 0 {
        lemma_spread(x, by * cz, cy * bz);
        lemma_spread(y, bx * cz, cx * bz);
        lemma_spread(z, bx * cy, cx * by);
        lemma_triple(x, by, cz);
        lemma_triple(x, cy, bz);
        lemma_triple(y, bx, cz);
        lemma_triple(y, cx, bz);
        lemma_triple(z, bx, cy);
        lemma_triple(z, cx, by);
    } else if column == 1 {
        lemma_spread(x, az * cy, cz * ay);
        lemma_spread(y, ax * cz, cx * az);
        lemma_spread(z, ay * cx, cy * ax);
        lemma_triple(x, az, cy);
        lemma_triple(x, cz, ay);
        lemma_triple(y, ax, cz);
        lemma_triple(y, cx, az);
        lemma_triple(z, ay, cx);
        lemma_triple(z, cy, ax);
    } else {
        lemma_spread(x, ay * bz, by * az);
        lemma_spread(y, az * bx, bz * ax);
        lemma_spread(z, ax * by, bx * ay);
        lemma_triple(x, ay, bz);
        lemma_triple(x, by, az);
        lemma_triple(y, az, bx);
        lemma_triple(y, bz, ax);
        lemma_triple(z, ax, by);
        lemma_triple(z, bx, ay);
    }
}

/// A minor is near the exact one: `t` is the square of the bound, in last
/// places.
proof fn lemma_minor(p: F64, q: F64, r: F64, s: F64, k: int)
    requires
        1 <= k,
        3 * (k * (k * crate::nearness::last_place())) <= pow2(2044),
        crate::graph_laws::is_bounded(p, k * crate::nearness::one_unit()),
        crate::graph_laws::is_bounded(q, k * crate::nearness::one_unit()),
        crate::graph_laws::is_bounded(r, k * crate::nearness::one_unit()),
        crate::graph_laws::is_bounded(s, k * crate::nearness::one_unit()),
    ensures
        ({
            let t = k * (k * crate::nearness::last_place());
            let u = crate::nearness::one_unit();
            let v = crate::linear::minor(p, q, r, s);
            &&& crate::graph_laws::is_bounded(v, 3 * (0x10_0000_0000_0000 * t))
            &&& crate::nearness::magnitude_of(v.value() * u - exact_minor(p, q, r, s)) <= 5 * (t
                * u)
        }),
{
    let w = k * crate::nearness::last_place();
    crate::nearness::lemma_last_place();
    let (u, v) = (crate::nearness::one_unit(), crate::nearness::last_place());
    assert(w >= 1 && k * u == 0x10_0000_0000_0000 * w) by (nonlinear_arith)
        requires
            w == k * v,
            k >= 1,
            v >= 1,
            u == 0x10_0000_0000_0000 * v,
    ;
    crate::nearness::lemma_two_fit(p, q, r, s, k, w);
    crate::nearness::lemma_two(p, q, r, s, k, w);
}

/// The entries of the adjugate are near the exact cofactors.
proof fn lemma_adjugate(m: Mat3, k: int, row: int, column: int)
    requires
        0 <= row < 3,
        0 <= column < 3,
        1 <= k,
        3 * (k * (k * crate::nearness::last_place())) <= pow2(2044),
        crate::graph_laws::is_bounded_matrix(m, k * crate::nearness::one_unit()),
    ensures
        ({
            let t = k * (k * crate::nearness::last_place());
            let u = crate::nearness::one_unit();
            let v = m.adjugate().entry(row, column);
            &&& crate::graph_laws::is_bounded(v, 3 * (0x10_0000_0000_0000 * t))
            &&& crate::nearness::magnitude_of(v.value() * u - exact_cofactor(m, row, column)) <= 5
                * (t * u)
        }),
{
    reveal(Mat3::spec_adjugate);
    let (a, b, c) = (m.r0, m.r1, m.r2);
    if row == 0 {
        if column == 0 {
            lemma_minor(b.y, c.z, c.y, b.z, k);
        } else if column == 1 {
            lemma_minor(a.z, c.y, c.z, a.y, k);
        } else {
            lemma_minor(a.y, b.z, b.y, a.z, k);
        }
    } else if row == 1 {
        if column == 0 {
            lemma_minor(b.x, c.z, c.x, b.z, k);
            let v = crate::linear::minor(b.x, c.z, c.x, b.z);
            crate::nearness::lemma_negated(v);
            let (x, u) = (v.value(), crate::nearness::one_unit());
            assert((-x) * u == -(x * u)) by (nonlinear_arith);
        } else if column == 1 {
            lemma_minor(a.x, c.z, c.x, a.z, k);
        } else {
            lemma_minor(a.z, b.x, b.z, a.x, k);
        }
    } else {
        if column == 0 {
            lemma_minor(b.x, c.y, c.x, b.y, k);
        } else if column == 1 {
            lemma_minor(a.y, c.x, c.y, a.x, k);
        } else {
            lemma_minor(a.x, b.y, b.x, a.y, k);
        }
    }
}

/// The determinant is near the exact one.
proof fn lemma_determinant(m: Mat3, k: int)
    requires
        1 <= k,
        64 * (k * (k * (k * crate::nearness::last_place()))) <= pow2(2044),
        crate::graph_laws::is_bounded_matrix(m, k * crate::nearness::one_unit()),
    ensures
        ({
            let s = k * (k * (k * crate::nearness::last_place()));
            let u = crate::nearness::one_unit();
            let d = m.determinant();
            &&& d.finite()
            &&& crate::nearness::magnitude_of(d.value() * (u * u) - exact_determinant(m)) <= 46 * (s
                * (u * u))
        }),
{
    reveal(Mat3::spec_determinant);
    let (u, v) = (crate::nearness::one_unit(), crate::nearness::last_place());
    let t = k * (k * v);
    let s = k * t;
    crate::nearness::lemma_last_place();
    lemma_pow2_pos(1074);
    assert(t >= 1 && s >= t) by (nonlinear_arith)
        requires
            t == k * (k * v),
            s == k * t,
            k >= 1,
            v >= 1,
    ;
    let (a, b, c) = (m.r0, m.r1, m.r2);
    lemma_minor(b.y, c.z, c.y, b.z, k);
    lemma_minor(b.x, c.z, c.x, b.z, k);
    lemma_minor(b.x, c.y, c.x, b.y, k);
    let (f, g, h) = (
        crate::linear::minor(b.y, c.z, c.y, b.z),
        crate::linear::minor(b.x, c.z, c.x, b.z),
        crate::linear::minor(b.x, c.y, c.x, b.y),
    );
    let w = 3 * t;
    assert(k * w == 3 * s) by (nonlinear_arith)
        requires
            w == 3 * t,
            s == k * t,
    ;
    crate::nearness::lemma_two_fit(a.x, f, a.y, g, k, w);
    crate::nearness::lemma_two(a.x, f, a.y, g, k, w);
    crate::nearness::lemma_product_size(a.z, h, k, w);
    crate::nearness::lemma_product_fits(a.z, h, 3 * s);
    crate::nearness::lemma_one_product(a.z, h, k, w);
    let two = a.x.times(f).minus(a.y.times(g));
    let last = a.z.times(h);
    crate::nearness::lemma_sum_fits(two, last, 13 * s);
    crate::nearness::lemma_sum_error(two, last, 13 * s);
    let d = two.plus(last);
    // Everything in squares of units.
    let (x, y, z) = (a.x.value(), a.y.value(), a.z.value());
    let (i, j, l) = (f.value(), g.value(), h.value());
    let (p, q, r) = (
        exact_minor(b.y, c.z, c.y, b.z),
        exact_minor(b.x, c.z, c.x, b.z),
        exact_minor(b.x, c.y, c.x, b.y),
    );
    let (e0, e1, e2) = (
        two.value() * u - (x * i - y * j),
        last.value() * u - z * l,
        d.value() - (two.value() + last.value()),
    );
    let (m0, m1, m2) = (i * u - p, j * u - q, l * u - r);
    let uu = u * u;
    let su = s * u;
    assert(5 * ((3 * s) * u) == 15 * su && (3 * s) * u == 3 * su) by (nonlinear_arith)
        requires
            su == s * u,
    ;
    crate::nearness::lemma_abs_product(e0, u, 15 * su, u);
    crate::nearness::lemma_abs_product(e1, u, 3 * su, u);
    crate::nearness::lemma_abs_product(e2, uu, 13 * s, uu);
    crate::nearness::lemma_abs_product(x, m0, k * u, 5 * (t * u));
    crate::nearness::lemma_abs_product(y, m1, k * u, 5 * (t * u));
    crate::nearness::lemma_abs_product(z, m2, k * u, 5 * (t * u));
    assert((k * u) * (5 * (t * u)) == 5 * (s * uu)) by (nonlinear_arith)
        requires
            s == k * t,
            uu == u * u,
    ;
    assert((15 * su) * u == 15 * (s * uu) && (3 * su) * u == 3 * (s * uu) && (13 * s) * uu == 13
        * (s * uu)) by (nonlinear_arith)
        requires
            su == s * u,
            uu == u * u,
    ;
    let (tv, lv, dv) = (two.value(), last.value(), d.value());
    assert(e2 * uu == dv * uu - tv * uu - lv * uu) by (nonlinear_arith)
        requires
            e2 == dv - (tv + lv),
    ;
    let (xi, yj, zl) = (x * i, y * j, z * l);
    assert(e0 * u == (tv * u) * u - xi * u + yj * u) by (nonlinear_arith)
        requires
            e0 == tv * u - (xi - yj),
    ;
    assert(e1 * u == (lv * u) * u - zl * u) by (nonlinear_arith)
        requires
            e1 == lv * u - zl,
    ;
    assert((tv * u) * u == tv * uu && (lv * u) * u == lv * uu) by (nonlinear_arith)
        requires
            uu == u * u,
    ;
    assert(x * m0 == x * (i * u) - x * p && y * m1 == y * (j * u) - y * q && z * m2 == z * (l * u)
        - z * r) by {
        lemma_spread(x, i * u, p);
        lemma_spread(y, j * u, q);
        lemma_spread(z, l * u, r);
    }
    assert(xi * u == x * (i * u) && yj * u == y * (j * u) && zl * u == z * (l * u)) by {
        lemma_triple(x, i, u);
        lemma_triple(y, j, u);
        lemma_triple(z, l, u);
        vstd::arithmetic::mul::lemma_mul_is_commutative(xi, u);
        vstd::arithmetic::mul::lemma_mul_is_commutative(yj, u);
        vstd::arithmetic::mul::lemma_mul_is_commutative(zl, u);
    }
}

/// A matrix times its inverse is the identity, but for rounding against the
/// size of the determinant: in every entry.
pub proof fn inverses_invert(m: Mat3, k: int, row: int, column: int)
    requires
        0 <= row < 3,
        0 <= column < 3,
        1 <= k,
        64 * (k * (k * (k * crate::nearness::last_place()))) <= pow2(2044),
        crate::graph_laws::is_bounded_matrix(m, k * crate::nearness::one_unit()),
        m.try_inverse() is Some,
        ({
            let inverse = m.try_inverse()->0;
            &&& inverse.entry(0, column).finite()
            &&& inverse.entry(1, column).finite()
            &&& inverse.entry(2, column).finite()
        }),
    ensures
        ({
            let u = crate::nearness::one_unit();
            let s = k * (k * (k * crate::nearness::last_place()));
            let d = m.determinant().value();
            let product = crate::graph_laws::exact_dot(
                m.row(row),
                (m.try_inverse()->0).column(column),
            );
            let exact = if row == column {
                u * u
            } else {
                0
            };
            crate::nearness::magnitude_of((product - exact) * d) <= 70 * (s * (u * u)) + 3 * ((k
                * u) * crate::nearness::magnitude_of(d))
        }),
{
    let (u, v) = (crate::nearness::one_unit(), crate::nearness::last_place());
    let e = 0x10_0000_0000_0000int;
    let t = k * (k * v);
    let s = k * t;
    let uu = u * u;
    crate::nearness::lemma_last_place();
    lemma_pow2_pos(1074);
    assert(t >= 1 && s >= t) by (nonlinear_arith)
        requires
            t == k * (k * v),
            s == k * t,
            k >= 1,
            v >= 1,
    ;
    lemma_determinant(m, k);
    lemma_cofactors(m, row, column);
    lemma_adjugate(m, k, 0, column);
    lemma_adjugate(m, k, 1, column);
    lemma_adjugate(m, k, 2, column);
    let det = m.determinant();
    let adj = m.adjugate();
    let inverse = m.try_inverse()->0;
    crate::values::quotients_are_about_exact(adj.entry(0, column), det);
    crate::values::quotients_are_about_exact(adj.entry(1, column), det);
    crate::values::quotients_are_about_exact(adj.entry(2, column), det);
    let d = det.value();
    let n = crate::nearness::magnitude_of(d);
    lemma_column(
        m.entry(row, 0).value(),
        inverse.entry(0, column).value(),
        adj.entry(0, column).value(),
        exact_cofactor(m, 0, column),
        d,
        k,
        t,
    );
    lemma_column(
        m.entry(row, 1).value(),
        inverse.entry(1, column).value(),
        adj.entry(1, column).value(),
        exact_cofactor(m, 1, column),
        d,
        k,
        t,
    );
    lemma_column(
        m.entry(row, 2).value(),
        inverse.entry(2, column).value(),
        adj.entry(2, column).value(),
        exact_cofactor(m, 2, column),
        d,
        k,
        t,
    );
    let (a, b, c) = (
        m.entry(row, 0).value() * inverse.entry(0, column).value(),
        m.entry(row, 1).value() * inverse.entry(1, column).value(),
        m.entry(row, 2).value() * inverse.entry(2, column).value(),
    );
    assert((a + b + c) * d == a * d + b * d + c * d) by (nonlinear_arith);
    assert((a + b + c - uu) * d == (a + b + c) * d - d * uu) by (nonlinear_arith);
    assert((a + b + c - 0) * d == (a + b + c) * d);
}

/// One entry of a column of the inverse, times the determinant.
proof fn lemma_column(x: int, v: int, j: int, exact: int, d: int, k: int, t: int)
    requires
        ({
            let (u, e) = (crate::nearness::one_unit(), 0x10_0000_0000_0000int);
            &&& 1 <= k
            &&& 1 <= t
            &&& t == k * (k * crate::nearness::last_place())
            &&& crate::nearness::magnitude_of(x) <= k * u
            &&& crate::nearness::magnitude_of(j) <= 3 * (e * t)
            &&& crate::nearness::magnitude_of(j * u - exact) <= 5 * (t * u)
            &&& crate::nearness::magnitude_of(v * d - j * u) * e <= crate::nearness::magnitude_of(j)
                * u + e * crate::nearness::magnitude_of(d)
        }),
    ensures
        ({
            let u = crate::nearness::one_unit();
            crate::nearness::magnitude_of((x * v) * d - x * exact) <= 8 * ((k * t) * (u * u)) + (k
                * u) * crate::nearness::magnitude_of(d)
        }),
{
    let (u, e) = (crate::nearness::one_unit(), 0x10_0000_0000_0000int);
    lemma_pow2_pos(1074);
    let n = crate::nearness::magnitude_of(d);
    let (p, q) = (v * d - j * u, j * u - exact);
    let m = crate::nearness::magnitude_of(j);
    assert(m * u <= e * (3 * (t * u))) by (nonlinear_arith)
        requires
            m <= 3 * (e * t),
            u > 0,
    ;
    assert(crate::nearness::magnitude_of(p) <= 3 * (t * u) + n);
    let bound = 8 * (t * u) + n;
    crate::nearness::lemma_abs_product(x, p + q, k * u, bound);
    assert(x * (p + q) == (x * v) * d - x * exact) by {
        assert(p + q == v * d - exact);
        lemma_spread(x, v * d, exact);
        assert(x * (v * d) == (x * v) * d) by (nonlinear_arith);
    }
    assert((k * u) * bound == 8 * ((k * t) * (u * u)) + (k * u) * n) by {
        let (tu, ku) = (t * u, k * u);
        assert(ku * (8 * tu + n) == 8 * (ku * tu) + ku * n) by (nonlinear_arith);
        assert((k * u) * (t * u) == (k * t) * (u * u)) by (nonlinear_arith);
    }
}

} // verus!
