//! Vectors and matrices of three dimensions, over `F64`.
use vstd::prelude::*;

use crate::float::double::F64;

verus! {

/// The pattern of 1.0.
pub const ONE: u64 = 0x3ff0_0000_0000_0000;

/// A vector of the plane.
#[derive(Clone, Copy, Debug)]
pub struct Vec2 {
    pub x: F64,
    pub y: F64,
}

impl Vec2 {
    pub open spec fn spec_new(x: F64, y: F64) -> Vec2 {
        Vec2 { x, y }
    }

    /// The vector with the given components.
    #[verifier::when_used_as_spec(spec_new)]
    pub fn new(x: F64, y: F64) -> (r: Vec2)
        ensures
            r == Vec2::new(x, y),
    {
        Vec2 { x, y }
    }

    pub open spec fn spec_plus(self, other: Vec2) -> Vec2 {
        Vec2 { x: self.x.plus(other.x), y: self.y.plus(other.y) }
    }

    /// `self + other`.
    #[verifier::when_used_as_spec(spec_plus)]
    pub fn plus(self, other: Vec2) -> (r: Vec2)
        ensures
            r == self.plus(other),
    {
        Vec2 { x: self.x.plus(other.x), y: self.y.plus(other.y) }
    }

    pub open spec fn spec_minus(self, other: Vec2) -> Vec2 {
        Vec2 { x: self.x.minus(other.x), y: self.y.minus(other.y) }
    }

    /// `self - other`.
    #[verifier::when_used_as_spec(spec_minus)]
    pub fn minus(self, other: Vec2) -> (r: Vec2)
        ensures
            r == self.minus(other),
    {
        Vec2 { x: self.x.minus(other.x), y: self.y.minus(other.y) }
    }

    pub open spec fn spec_negated(self) -> Vec2 {
        Vec2 { x: self.x.negated(), y: self.y.negated() }
    }

    /// `-self`.
    #[verifier::when_used_as_spec(spec_negated)]
    pub fn negated(self) -> (r: Vec2)
        ensures
            r == self.negated(),
    {
        Vec2 { x: self.x.negated(), y: self.y.negated() }
    }

    #[verifier::opaque]
    pub open spec fn spec_dot(self, other: Vec2) -> F64 {
        self.x.times(other.x).plus(self.y.times(other.y))
    }

    /// The inner product, summed from the first component on.
    #[verifier::when_used_as_spec(spec_dot)]
    pub fn dot(self, other: Vec2) -> (r: F64)
        ensures
            r == self.dot(other),
    {
        proof {
            reveal(Vec2::spec_dot);
        }
        self.x.times(other.x).plus(self.y.times(other.y))
    }

    pub open spec fn spec_norm(self) -> F64 {
        self.dot(self).sqrt()
    }

    /// The Euclidean length.
    #[verifier::when_used_as_spec(spec_norm)]
    pub fn norm(self) -> (r: F64)
        ensures
            r == self.norm(),
    {
        self.dot(self).sqrt()
    }
}

/// A vector of space.
#[derive(Clone, Copy, Debug)]
pub struct Vec3 {
    pub x: F64,
    pub y: F64,
    pub z: F64,
}

impl Vec3 {
    /// A component, counted from zero.
    pub open spec fn part(self, k: int) -> F64 {
        if k == 0 {
            self.x
        } else if k == 1 {
            self.y
        } else {
            self.z
        }
    }

    pub open spec fn spec_zeros() -> Vec3 {
        Vec3 { x: F64::from_bits(0), y: F64::from_bits(0), z: F64::from_bits(0) }
    }

    /// The vector without length.
    #[verifier::when_used_as_spec(spec_zeros)]
    pub fn zeros() -> (r: Vec3)
        ensures
            r == Vec3::zeros(),
    {
        Vec3 { x: F64::from_bits(0), y: F64::from_bits(0), z: F64::from_bits(0) }
    }

    pub open spec fn spec_new(x: F64, y: F64, z: F64) -> Vec3 {
        Vec3 { x, y, z }
    }

    /// The vector with the given components.
    #[verifier::when_used_as_spec(spec_new)]
    pub fn new(x: F64, y: F64, z: F64) -> (r: Vec3)
        ensures
            r == Vec3::new(x, y, z),
    {
        Vec3 { x, y, z }
    }

    pub open spec fn spec_plus(self, other: Vec3) -> Vec3 {
        Vec3 {
            x: self.x.plus(other.x),
            y: self.y.plus(other.y),
            z: self.z.plus(other.z),
        }
    }

    /// `self + other`.
    #[verifier::when_used_as_spec(spec_plus)]
    pub fn plus(self, other: Vec3) -> (r: Vec3)
        ensures
            r == self.plus(other),
    {
        Vec3 {
            x: self.x.plus(other.x),
            y: self.y.plus(other.y),
            z: self.z.plus(other.z),
        }
    }

    pub open spec fn spec_minus(self, other: Vec3) -> Vec3 {
        Vec3 {
            x: self.x.minus(other.x),
            y: self.y.minus(other.y),
            z: self.z.minus(other.z),
        }
    }

    /// `self - other`.
    #[verifier::when_used_as_spec(spec_minus)]
    pub fn minus(self, other: Vec3) -> (r: Vec3)
        ensures
            r == self.minus(other),
    {
        Vec3 {
            x: self.x.minus(other.x),
            y: self.y.minus(other.y),
            z: self.z.minus(other.z),
        }
    }

    pub open spec fn spec_negated(self) -> Vec3 {
        Vec3 { x: self.x.negated(), y: self.y.negated(), z: self.z.negated() }
    }

    /// `-self`.
    #[verifier::when_used_as_spec(spec_negated)]
    pub fn negated(self) -> (r: Vec3)
        ensures
            r == self.negated(),
    {
        Vec3 { x: self.x.negated(), y: self.y.negated(), z: self.z.negated() }
    }

    #[verifier::opaque]
    pub open spec fn spec_dot(self, other: Vec3) -> F64 {
        self.x.times(other.x).plus(self.y.times(other.y)).plus(self.z.times(other.z))
    }

    /// The inner product, summed from the first component on.
    #[verifier::when_used_as_spec(spec_dot)]
    pub fn dot(self, other: Vec3) -> (r: F64)
        ensures
            r == self.dot(other),
    {
        proof {
            reveal(Vec3::spec_dot);
        }
        self.x.times(other.x).plus(self.y.times(other.y)).plus(self.z.times(other.z))
    }

    pub open spec fn spec_norm(self) -> F64 {
        self.dot(self).sqrt()
    }

    /// The Euclidean length.
    #[verifier::when_used_as_spec(spec_norm)]
    pub fn norm(self) -> (r: F64)
        ensures
            r == self.norm(),
    {
        self.dot(self).sqrt()
    }

    pub open spec fn spec_scaled(self, k: F64) -> Vec3 {
        Vec3 { x: self.x.times(k), y: self.y.times(k), z: self.z.times(k) }
    }

    /// `self * k`.
    #[verifier::when_used_as_spec(spec_scaled)]
    pub fn scaled(self, k: F64) -> (r: Vec3)
        ensures
            r == self.scaled(k),
    {
        Vec3 { x: self.x.times(k), y: self.y.times(k), z: self.z.times(k) }
    }

    pub open spec fn spec_over(self, k: F64) -> Vec3 {
        Vec3 { x: self.x.over(k), y: self.y.over(k), z: self.z.over(k) }
    }

    /// `self / k`.
    #[verifier::when_used_as_spec(spec_over)]
    pub fn over(self, k: F64) -> (r: Vec3)
        ensures
            r == self.over(k),
    {
        Vec3 { x: self.x.over(k), y: self.y.over(k), z: self.z.over(k) }
    }

    pub open spec fn spec_outer(self, other: Vec3) -> Mat3 {
        Mat3 {
            r0: Vec3::new(self.x.times(other.x), self.x.times(other.y), self.x.times(other.z)),
            r1: Vec3::new(self.y.times(other.x), self.y.times(other.y), self.y.times(other.z)),
            r2: Vec3::new(self.z.times(other.x), self.z.times(other.y), self.z.times(other.z)),
        }
    }

    /// The product of `self` as a column with `other` as a row.
    #[verifier::when_used_as_spec(spec_outer)]
    pub fn outer(self, other: Vec3) -> (r: Mat3)
        ensures
            r == self.outer(other),
    {
        Mat3 {
            r0: Vec3::new(self.x.times(other.x), self.x.times(other.y), self.x.times(other.z)),
            r1: Vec3::new(self.y.times(other.x), self.y.times(other.y), self.y.times(other.z)),
            r2: Vec3::new(self.z.times(other.x), self.z.times(other.y), self.z.times(other.z)),
        }
    }
}

/// A matrix of three rows and three columns.
#[derive(Clone, Copy, Debug)]
pub struct Mat3 {
    pub r0: Vec3,
    pub r1: Vec3,
    pub r2: Vec3,
}

impl Mat3 {
    /// A row, counted from zero.
    pub open spec fn row(self, k: int) -> Vec3 {
        if k == 0 {
            self.r0
        } else if k == 1 {
            self.r1
        } else {
            self.r2
        }
    }

    /// A column, counted from zero.
    pub open spec fn column(self, k: int) -> Vec3 {
        Vec3 { x: self.r0.part(k), y: self.r1.part(k), z: self.r2.part(k) }
    }

    /// The entry in a row and a column.
    pub open spec fn entry(self, row: int, column: int) -> F64 {
        self.row(row).part(column)
    }

    pub open spec fn spec_diagonal(d: Vec3) -> Mat3 {
        let zero = F64::from_bits(0);
        Mat3 {
            r0: Vec3::new(d.x, zero, zero),
            r1: Vec3::new(zero, d.y, zero),
            r2: Vec3::new(zero, zero, d.z),
        }
    }

    /// The matrix with `d` on the diagonal.
    #[verifier::when_used_as_spec(spec_diagonal)]
    pub fn diagonal(d: Vec3) -> (r: Mat3)
        ensures
            r == Mat3::diagonal(d),
    {
        let zero = F64::from_bits(0);
        Mat3 {
            r0: Vec3::new(d.x, zero, zero),
            r1: Vec3::new(zero, d.y, zero),
            r2: Vec3::new(zero, zero, d.z),
        }
    }

    pub open spec fn spec_zeros() -> Mat3 {
        let zero = F64::from_bits(0);
        Mat3::diagonal(Vec3::new(zero, zero, zero))
    }

    /// Nothing but zeros.
    #[verifier::when_used_as_spec(spec_zeros)]
    pub fn zeros() -> (r: Mat3)
        ensures
            r == Mat3::zeros(),
    {
        let zero = F64::from_bits(0);
        Mat3::diagonal(Vec3::new(zero, zero, zero))
    }

    pub open spec fn spec_identity() -> Mat3 {
        let one = F64::from_bits(ONE);
        Mat3::diagonal(Vec3::new(one, one, one))
    }

    /// The identity.
    #[verifier::when_used_as_spec(spec_identity)]
    pub fn identity() -> (r: Mat3)
        ensures
            r == Mat3::identity(),
    {
        let one = F64::from_bits(ONE);
        Mat3::diagonal(Vec3::new(one, one, one))
    }

    pub open spec fn spec_plus(self, other: Mat3) -> Mat3 {
        Mat3 {
            r0: self.r0.plus(other.r0),
            r1: self.r1.plus(other.r1),
            r2: self.r2.plus(other.r2),
        }
    }

    /// `self + other`.
    #[verifier::when_used_as_spec(spec_plus)]
    pub fn plus(self, other: Mat3) -> (r: Mat3)
        ensures
            r == self.plus(other),
    {
        Mat3 {
            r0: self.r0.plus(other.r0),
            r1: self.r1.plus(other.r1),
            r2: self.r2.plus(other.r2),
        }
    }

    pub open spec fn spec_minus(self, other: Mat3) -> Mat3 {
        Mat3 {
            r0: self.r0.minus(other.r0),
            r1: self.r1.minus(other.r1),
            r2: self.r2.minus(other.r2),
        }
    }

    /// `self - other`.
    #[verifier::when_used_as_spec(spec_minus)]
    pub fn minus(self, other: Mat3) -> (r: Mat3)
        ensures
            r == self.minus(other),
    {
        Mat3 {
            r0: self.r0.minus(other.r0),
            r1: self.r1.minus(other.r1),
            r2: self.r2.minus(other.r2),
        }
    }

    pub open spec fn spec_scaled(self, k: F64) -> Mat3 {
        Mat3 { r0: self.r0.scaled(k), r1: self.r1.scaled(k), r2: self.r2.scaled(k) }
    }

    /// `self * k`.
    #[verifier::when_used_as_spec(spec_scaled)]
    pub fn scaled(self, k: F64) -> (r: Mat3)
        ensures
            r == self.scaled(k),
    {
        Mat3 { r0: self.r0.scaled(k), r1: self.r1.scaled(k), r2: self.r2.scaled(k) }
    }

    pub open spec fn spec_over(self, k: F64) -> Mat3 {
        Mat3 { r0: self.r0.over(k), r1: self.r1.over(k), r2: self.r2.over(k) }
    }

    /// `self / k`.
    #[verifier::when_used_as_spec(spec_over)]
    pub fn over(self, k: F64) -> (r: Mat3)
        ensures
            r == self.over(k),
    {
        Mat3 { r0: self.r0.over(k), r1: self.r1.over(k), r2: self.r2.over(k) }
    }

    pub open spec fn spec_transpose(self) -> Mat3 {
        Mat3 {
            r0: Vec3::new(self.r0.x, self.r1.x, self.r2.x),
            r1: Vec3::new(self.r0.y, self.r1.y, self.r2.y),
            r2: Vec3::new(self.r0.z, self.r1.z, self.r2.z),
        }
    }

    /// Rows and columns exchanged.
    #[verifier::when_used_as_spec(spec_transpose)]
    pub fn transpose(self) -> (r: Mat3)
        ensures
            r == self.transpose(),
    {
        Mat3 {
            r0: Vec3::new(self.r0.x, self.r1.x, self.r2.x),
            r1: Vec3::new(self.r0.y, self.r1.y, self.r2.y),
            r2: Vec3::new(self.r0.z, self.r1.z, self.r2.z),
        }
    }

    pub open spec fn spec_apply(self, v: Vec3) -> Vec3 {
        Vec3::new(self.r0.dot(v), self.r1.dot(v), self.r2.dot(v))
    }

    /// `self * v`.
    #[verifier::when_used_as_spec(spec_apply)]
    pub fn apply(self, v: Vec3) -> (r: Vec3)
        ensures
            r == self.apply(v),
    {
        Vec3::new(self.r0.dot(v), self.r1.dot(v), self.r2.dot(v))
    }

    #[verifier::opaque]
    pub open spec fn spec_times(self, other: Mat3) -> Mat3 {
        let columns = other.transpose();
        Mat3 {
            r0: columns.apply_row(self.r0),
            r1: columns.apply_row(self.r1),
            r2: columns.apply_row(self.r2),
        }
    }

    /// `self * other`.
    #[verifier::when_used_as_spec(spec_times)]
    pub fn times(self, other: Mat3) -> (r: Mat3)
        ensures
            r == self.times(other),
    {
        proof {
            reveal(Mat3::spec_times);
        }
        let columns = other.transpose();
        Mat3 {
            r0: columns.apply_row(self.r0),
            r1: columns.apply_row(self.r1),
            r2: columns.apply_row(self.r2),
        }
    }

    pub open spec fn spec_apply_row(self, row: Vec3) -> Vec3 {
        Vec3::new(row.dot(self.r0), row.dot(self.r1), row.dot(self.r2))
    }

    /// The products of `row` with each row of `self`.
    #[verifier::when_used_as_spec(spec_apply_row)]
    pub fn apply_row(self, row: Vec3) -> (r: Vec3)
        ensures
            r == self.apply_row(row),
    {
        Vec3::new(row.dot(self.r0), row.dot(self.r1), row.dot(self.r2))
    }

    #[verifier::opaque]
    pub open spec fn spec_determinant(self) -> F64 {
        self.r0.x.times(minor(self.r1.y, self.r2.z, self.r2.y, self.r1.z)).minus(
            self.r0.y.times(minor(self.r1.x, self.r2.z, self.r2.x, self.r1.z)),
        ).plus(self.r0.z.times(minor(self.r1.x, self.r2.y, self.r2.x, self.r1.y)))
    }

    /// The determinant, expanded along the first row.
    #[verifier::when_used_as_spec(spec_determinant)]
    pub fn determinant(self) -> (r: F64)
        ensures
            r == self.determinant(),
    {
        proof {
            reveal(Mat3::spec_determinant);
        }
        self.r0.x.times(minor(self.r1.y, self.r2.z, self.r2.y, self.r1.z)).minus(
            self.r0.y.times(minor(self.r1.x, self.r2.z, self.r2.x, self.r1.z)),
        ).plus(self.r0.z.times(minor(self.r1.x, self.r2.y, self.r2.x, self.r1.y)))
    }

    #[verifier::opaque]
    pub open spec fn spec_adjugate(self) -> Mat3 {
        let (a, b, c) = (self.r0, self.r1, self.r2);
        Mat3 {
            r0: Vec3::new(
                minor(b.y, c.z, c.y, b.z),
                minor(a.z, c.y, c.z, a.y),
                minor(a.y, b.z, b.y, a.z),
            ),
            r1: Vec3::new(
                minor(b.x, c.z, c.x, b.z).negated(),
                minor(a.x, c.z, c.x, a.z),
                minor(a.z, b.x, b.z, a.x),
            ),
            r2: Vec3::new(
                minor(b.x, c.y, c.x, b.y),
                minor(a.y, c.x, c.y, a.x),
                minor(a.x, b.y, b.x, a.y),
            ),
        }
    }

    /// The transposed matrix of cofactors.
    #[verifier::when_used_as_spec(spec_adjugate)]
    pub fn adjugate(self) -> (r: Mat3)
        ensures
            r == self.adjugate(),
    {
        proof {
            reveal(Mat3::spec_adjugate);
        }
        let (a, b, c) = (self.r0, self.r1, self.r2);
        Mat3 {
            r0: Vec3::new(
                minor(b.y, c.z, c.y, b.z),
                minor(a.z, c.y, c.z, a.y),
                minor(a.y, b.z, b.y, a.z),
            ),
            r1: Vec3::new(
                minor(b.x, c.z, c.x, b.z).negated(),
                minor(a.x, c.z, c.x, a.z),
                minor(a.z, b.x, b.z, a.x),
            ),
            r2: Vec3::new(
                minor(b.x, c.y, c.x, b.y),
                minor(a.y, c.x, c.y, a.x),
                minor(a.x, b.y, b.x, a.y),
            ),
        }
    }
}

pub open spec fn spec_minor(a: F64, b: F64, c: F64, d: F64) -> F64 {
    a.times(b).minus(c.times(d))
}

/// `a * b - c * d`.
#[verifier::when_used_as_spec(spec_minor)]
pub fn minor(a: F64, b: F64, c: F64, d: F64) -> (r: F64)
    ensures
        r == minor(a, b, c, d),
{
    a.times(b).minus(c.times(d))
}

impl Mat3 {
    /// The inverse: the adjugate over the determinant, unless that is zero.
    pub open spec fn spec_try_inverse(self) -> Option<Mat3> {
        if self.determinant().zero() {
            None
        } else {
            Some(self.adjugate().over(self.determinant()))
        }
    }

    /// The inverse: the adjugate over the determinant, unless that is zero.
    #[verifier::when_used_as_spec(spec_try_inverse)]
    pub fn try_inverse(self) -> (r: Option<Mat3>)
        ensures
            r == self.try_inverse(),
    {
        let determinant = self.determinant();
        if determinant.is_zero() {
            None
        } else {
            Some(self.adjugate().over(determinant))
        }
    }
}

} // verus!
