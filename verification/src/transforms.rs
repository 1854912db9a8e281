//! 2D rigid body transforms.
//!
//! A rotation is held as the cosine and the sine of its angle. Going from an
//! angle to that pair and back takes trigonometric functions, whose last bits
//! differ between machines, so callers supply those two directions.
use vstd::arithmetic::div_mod::*;
use vstd::arithmetic::power2::*;
use vstd::prelude::*;

use crate::float::double::F64;
use crate::float::rounding::Format;
use crate::linear::{Vec2, ONE};
use crate::types::Pose;

verus! {

/// The pattern of the number nearest to half a turn.
pub const PI: u64 = 0x4009_21fb_5444_2d18;

/// The pattern of twice `PI`.
pub const TAU: u64 = 0x4019_21fb_5444_2d18;

/// A rotation of the plane: the cosine and the sine of its angle.
#[derive(Clone, Copy, Debug)]
pub struct Rotation2 {
    pub cos: F64,
    pub sin: F64,
}

impl Rotation2 {
    pub open spec fn spec_identity() -> Rotation2 {
        Rotation2 { cos: F64::from_bits(ONE), sin: F64::from_bits(0) }
    }

    /// No rotation.
    #[verifier::when_used_as_spec(spec_identity)]
    pub fn identity() -> (r: Rotation2)
        ensures
            r == Rotation2::identity(),
    {
        Rotation2 { cos: F64::from_bits(ONE), sin: F64::from_bits(0) }
    }

    pub open spec fn spec_inverse(self) -> Rotation2 {
        Rotation2 { cos: self.cos, sin: self.sin.negated() }
    }

    /// The rotation by the opposite angle.
    #[verifier::when_used_as_spec(spec_inverse)]
    pub fn inverse(self) -> (r: Rotation2)
        ensures
            r == self.inverse(),
    {
        Rotation2 { cos: self.cos, sin: self.sin.negated() }
    }

    pub open spec fn spec_compose(self, other: Rotation2) -> Rotation2 {
        Rotation2 {
            cos: self.cos.times(other.cos).minus(self.sin.times(other.sin)),
            sin: self.cos.times(other.sin).plus(self.sin.times(other.cos)),
        }
    }

    /// The rotation by the sum of the angles.
    #[verifier::when_used_as_spec(spec_compose)]
    pub fn compose(self, other: Rotation2) -> (r: Rotation2)
        ensures
            r == self.compose(other),
    {
        Rotation2 {
            cos: self.cos.times(other.cos).minus(self.sin.times(other.sin)),
            sin: self.cos.times(other.sin).plus(self.sin.times(other.cos)),
        }
    }

    pub open spec fn spec_rotate(self, v: Vec2) -> Vec2 {
        Vec2 {
            x: self.cos.times(v.x).minus(self.sin.times(v.y)),
            y: self.sin.times(v.x).plus(self.cos.times(v.y)),
        }
    }

    /// The vector turned by the angle.
    #[verifier::when_used_as_spec(spec_rotate)]
    pub fn rotate(self, v: Vec2) -> (r: Vec2)
        ensures
            r == self.rotate(v),
    {
        Vec2 {
            x: self.cos.times(v.x).minus(self.sin.times(v.y)),
            y: self.sin.times(v.x).plus(self.cos.times(v.y)),
        }
    }
}

/// A 2D rigid body transform (translation + rotation).
#[derive(Clone, Copy, Debug)]
pub struct Transform2D {
    pub shift: Vec2,
    pub turn: Rotation2,
}

impl Transform2D {
    pub open spec fn spec_identity() -> Transform2D {
        Transform2D {
            shift: Vec2 { x: F64::from_bits(0), y: F64::from_bits(0) },
            turn: Rotation2::identity(),
        }
    }

    /// Create identity transform.
    #[verifier::when_used_as_spec(spec_identity)]
    pub fn identity() -> (r: Transform2D)
        ensures
            r == Transform2D::identity(),
    {
        Transform2D {
            shift: Vec2 { x: F64::from_bits(0), y: F64::from_bits(0) },
            turn: Rotation2::identity(),
        }
    }

    pub open spec fn spec_new(x: F64, y: F64, turn: Rotation2) -> Transform2D {
        Transform2D { shift: Vec2 { x, y }, turn }
    }

    /// Create transform from translation and rotation.
    #[verifier::when_used_as_spec(spec_new)]
    pub fn new(x: F64, y: F64, turn: Rotation2) -> (r: Transform2D)
        ensures
            r == Transform2D::new(x, y, turn),
    {
        Transform2D { shift: Vec2 { x, y }, turn }
    }

    /// Create from a pose; `turn` is the rotation by `pose.theta`.
    pub fn from_pose(pose: &Pose, turn: Rotation2) -> (r: Transform2D)
        ensures
            r == Transform2D::new(pose.x, pose.y, turn),
    {
        Transform2D::new(pose.x, pose.y, turn)
    }

    /// Convert to a pose; `angle` is the angle of the rotation.
    pub fn to_pose(&self, angle: F64) -> (r: Pose)
        ensures
            r == (Pose { x: self.shift.x, y: self.shift.y, theta: angle }),
    {
        Pose { x: self.shift.x, y: self.shift.y, theta: angle }
    }

    /// Get translation component.
    pub fn translation(&self) -> (r: Vec2)
        ensures
            r == self.shift,
    {
        self.shift
    }

    /// Get rotation component.
    pub fn rotation(&self) -> (r: Rotation2)
        ensures
            r == self.turn,
    {
        self.turn
    }

    pub open spec fn spec_inverse(&self) -> Transform2D {
        Transform2D {
            shift: self.turn.inverse().rotate(self.shift.negated()),
            turn: self.turn.inverse(),
        }
    }

    /// Compute inverse transform.
    #[verifier::when_used_as_spec(spec_inverse)]
    pub fn inverse(&self) -> (r: Transform2D)
        ensures
            r == self.inverse(),
    {
        let turn = self.turn.inverse();
        Transform2D { shift: turn.rotate(self.shift.negated()), turn }
    }

    pub open spec fn spec_compose(&self, other: &Transform2D) -> Transform2D {
        Transform2D {
            shift: self.shift.plus(self.turn.rotate(other.shift)),
            turn: self.turn.compose(other.turn),
        }
    }

    /// Compose transforms: self * other.
    /// If self is A->B and other is B->C, result is A->C.
    #[verifier::when_used_as_spec(spec_compose)]
    pub fn compose(&self, other: &Transform2D) -> (r: Transform2D)
        ensures
            r == self.compose(other),
    {
        Transform2D {
            shift: self.shift.plus(self.turn.rotate(other.shift)),
            turn: self.turn.compose(other.turn),
        }
    }

    pub open spec fn spec_transform_point(&self, point: Vec2) -> Vec2 {
        self.turn.rotate(point).plus(self.shift)
    }

    /// Transform a point from child frame to parent frame.
    #[verifier::when_used_as_spec(spec_transform_point)]
    pub fn transform_point(&self, point: Vec2) -> (r: Vec2)
        ensures
            r == self.transform_point(point),
    {
        self.turn.rotate(point).plus(self.shift)
    }

    /// A pose of the child frame, seen from the parent frame.
    pub open spec fn carried(&self, pose: &Pose, turn: Rotation2, angle: F64) -> Pose {
        let placed = self.compose(&Transform2D::new(pose.x, pose.y, turn));
        Pose { x: placed.shift.x, y: placed.shift.y, theta: normalize_angle(angle) }
    }

    /// Transform a pose from child frame to parent frame.
    ///
    /// `turn` is the rotation by `pose.theta`, and `angle` the angle of the
    /// composed rotation.
    pub fn transform_pose(&self, pose: &Pose, turn: Rotation2, angle: F64) -> (r: Pose)
        ensures
            r == self.carried(pose, turn, angle),
    {
        let placed = self.compose(&Transform2D::new(pose.x, pose.y, turn));
        Pose { x: placed.shift.x, y: placed.shift.y, theta: normalize_angle(angle) }
    }

    pub open spec fn spec_relative_to(&self, other: &Transform2D) -> Transform2D {
        self.inverse().compose(other)
    }

    /// Compute relative transform: from self to other.
    /// If self is A and other is B (both in same frame), returns A->B transform.
    #[verifier::when_used_as_spec(spec_relative_to)]
    pub fn relative_to(&self, other: &Transform2D) -> (r: Transform2D)
        ensures
            r == self.relative_to(other),
    {
        self.inverse().compose(other)
    }
}

impl Default for Transform2D {
    fn default() -> (r: Transform2D)
        ensures
            r == Transform2D::identity(),
    {
        Transform2D::identity()
    }
}

impl core::ops::Mul for Transform2D {
    type Output = Transform2D;

    fn mul(self, rhs: Transform2D) -> (r: Transform2D) {
        self.compose(&rhs)
    }
}

impl vstd::std_specs::ops::MulSpecImpl for Transform2D {
    open spec fn obeys_mul_spec() -> bool {
        true
    }

    open spec fn mul_req(self, rhs: Transform2D) -> bool {
        true
    }

    open spec fn mul_spec(self, rhs: Transform2D) -> Transform2D {
        self.compose(&rhs)
    }
}

impl core::ops::Mul<&Transform2D> for Transform2D {
    type Output = Transform2D;

    fn mul(self, rhs: &Transform2D) -> (r: Transform2D) {
        self.compose(rhs)
    }
}

impl vstd::std_specs::ops::MulSpecImpl<&Transform2D> for Transform2D {
    open spec fn obeys_mul_spec() -> bool {
        true
    }

    open spec fn mul_req(self, rhs: &Transform2D) -> bool {
        true
    }

    open spec fn mul_spec(self, rhs: &Transform2D) -> Transform2D {
        self.compose(rhs)
    }
}

impl core::ops::Mul<Transform2D> for &Transform2D {
    type Output = Transform2D;

    fn mul(self, rhs: Transform2D) -> (r: Transform2D) {
        self.compose(&rhs)
    }
}

impl vstd::std_specs::ops::MulSpecImpl<Transform2D> for &Transform2D {
    open spec fn obeys_mul_spec() -> bool {
        true
    }

    open spec fn mul_req(self, rhs: Transform2D) -> bool {
        true
    }

    open spec fn mul_spec(self, rhs: Transform2D) -> Transform2D {
        self.compose(&rhs)
    }
}

impl core::ops::Mul<&Transform2D> for &Transform2D {
    type Output = Transform2D;

    fn mul(self, rhs: &Transform2D) -> (r: Transform2D) {
        self.compose(rhs)
    }
}

impl vstd::std_specs::ops::MulSpecImpl<&Transform2D> for &Transform2D {
    open spec fn obeys_mul_spec() -> bool {
        true
    }

    open spec fn mul_req(self, rhs: &Transform2D) -> bool {
        true
    }

    open spec fn mul_spec(self, rhs: &Transform2D) -> Transform2D {
        self.compose(rhs)
    }
}

#[verifier::opaque]
pub open spec fn spec_normalize_angle(angle: F64) -> F64 {
    let a = angle.rem(F64::from_bits(TAU));
    if F64::from_bits(PI).at_most(a) {
        a.minus(F64::from_bits(TAU))
    } else if a.less(F64::from_bits(PI).negated()) {
        a.plus(F64::from_bits(TAU))
    } else {
        a
    }
}

/// Normalize angle to [-PI, PI).
#[verifier::when_used_as_spec(spec_normalize_angle)]
pub fn normalize_angle(angle: F64) -> (r: F64)
    ensures
        r == normalize_angle(angle),
{
    proof {
        reveal(spec_normalize_angle);
    }
    let a = angle.rem(F64::from_bits(TAU));
    if F64::from_bits(PI).at_most(a) {
        a.minus(F64::from_bits(TAU))
    } else if a.less(F64::from_bits(PI).negated()) {
        a.plus(F64::from_bits(TAU))
    } else {
        a
    }
}

pub open spec fn spec_angle_diff(a: F64, b: F64) -> F64 {
    normalize_angle(b.minus(a))
}

/// Compute shortest angular difference from a to b.
#[verifier::when_used_as_spec(spec_angle_diff)]
pub fn angle_diff(a: F64, b: F64) -> (r: F64)
    ensures
        r == angle_diff(a, b),
{
    normalize_angle(b.minus(a))
}

/// A full turn is twice half a turn, and neither is nothing.
pub proof fn a_full_turn_is_two_halves()
    ensures
        F64::from_bits(PI).finite(),
        F64::from_bits(TAU).finite(),
        F64::from_bits(PI).value() > 0,
        F64::from_bits(TAU).value() == 2 * F64::from_bits(PI).value(),
        F64::from_bits(PI).negated().finite(),
        F64::from_bits(PI).negated().value() == -F64::from_bits(PI).value(),
        F64::from_bits(TAU).negated().finite(),
        F64::from_bits(TAU).negated().value() == -F64::from_bits(TAU).value(),
        Format::double().size(PI) == F64::from_bits(PI).value(),
        Format::double().size(TAU) == F64::from_bits(TAU).value(),
{
    let digits = 0x1921_fb54_442d_18nat;
    assert(PI as nat / 0x10_0000_0000_0000 == 1024);
    assert(TAU as nat / 0x10_0000_0000_0000 == 1025);
    lemma_pow2_pos(1023);
    lemma_pow2_unfold(1024);
    assert(digits * pow2(1024) == 2 * (digits * pow2(1023))) by (nonlinear_arith)
        requires
            pow2(1024) == 2 * pow2(1023),
    ;
    assert(digits * pow2(1023) > 0) by (nonlinear_arith)
        requires
            pow2(1023) > 0,
            digits > 0,
    ;
}

/// What `rem` by a full turn leaves: the sign of the angle, and its size less
/// whole turns.
proof fn lemma_rest(angle: F64)
    requires
        angle.finite(),
    ensures
        ({
            let f = Format::double();
            let rest = angle.rem(F64::from_bits(TAU));
            let turn = F64::from_bits(TAU).value();
            &&& rest.finite()
            &&& f.size(rest.bits) == f.size(angle.bits) % (turn as nat)
            &&& rest.value() == (if angle.value() < 0 {
                -(f.size(rest.bits) as int)
            } else {
                f.size(rest.bits) as int
            })
        }),
{
    let f = Format::double();
    a_full_turn_is_two_halves();
    reveal(F64::spec_rem);
    f.remainders_are_exact(f.encoded(angle.bits), f.encoded(TAU));
    let rest = f.size(angle.bits) % f.size(TAU);
    f.lemma_signed(f.negative(angle.bits), f.rounded(rest, 1));
    if angle.value() == 0 {
        lemma_small_mod(0, f.size(TAU));
        if f.rounded(rest, 1) > 0 {
            f.lemma_monotone(0, f.rounded(rest, 1));
        }
    }
}

/// A difference of close numbers, taken by a sum of patterns with opposite
/// signs.
proof fn lemma_close_sum(a: u64, b: u64)
    requires
        Format::double().is_finite(a),
        Format::double().is_finite(b),
        Format::double().negative(a) != Format::double().negative(b),
        Format::double().size(a) <= Format::double().size(b) <= 2 * Format::double().size(a),
    ensures
        Format::double().is_finite(Format::double().sum(a, b)),
        Format::double().value(Format::double().sum(a, b)) == Format::double().value(a)
            + Format::double().value(b),
{
    let f = Format::double();
    f.close_differences_are_exact(f.encoded(a), f.encoded(b));
    let gap = (f.size(b) - f.size(a)) as nat;
    f.lemma_signed(true, f.rounded(gap, 1));
    f.lemma_signed(false, f.rounded(gap, 1));
    f.lemma_signed(true, 0);
    f.lemma_signed(false, 0);
    f.lemma_zero();
}

/// A normalized angle lies in [-PI, PI) and differs from the angle by whole
/// turns, without any rounding.
pub proof fn normalized_angles_are_in_range(angle: F64)
    requires
        angle.finite(),
    ensures
        normalize_angle(angle).finite(),
        -F64::from_bits(PI).value() <= normalize_angle(angle).value()
            < F64::from_bits(PI).value(),
        (angle.value() - normalize_angle(angle).value()) % F64::from_bits(TAU).value() == 0,
{
    let f = Format::double();
    let turn = F64::from_bits(TAU).value();
    let half = F64::from_bits(PI).value();
    a_full_turn_is_two_halves();
    lemma_rest(angle);
    let a = angle.rem(F64::from_bits(TAU));
    let size = f.size(angle.bits) as int;
    lemma_mod_bound(size, turn);
    lemma_fundamental_div_mod(size, turn);
    let turns = size / turn;
    reveal(spec_normalize_angle);
    reveal(F64::spec_at_most);
    reveal(F64::spec_less);
    reveal(F64::spec_plus);
    let r = normalize_angle(angle);
    if F64::from_bits(PI).at_most(a) {
        lemma_close_sum(a.bits, F64::from_bits(TAU).negated().bits);
        assert(r.value() == a.value() - turn);
        assert(angle.value() - r.value() == turn * (turns + 1)) by (nonlinear_arith)
            requires
                angle.value() == turn * turns + a.value(),
                r.value() == a.value() - turn,
        ;
        lemma_mod_multiples_basic(turns + 1, turn);
        vstd::arithmetic::mul::lemma_mul_is_commutative(turns + 1, turn);
    } else if a.less(F64::from_bits(PI).negated()) {
        lemma_close_sum(a.bits, TAU);
        assert(r.value() == a.value() + turn);
        assert(angle.value() - r.value() == turn * (-turns - 1)) by (nonlinear_arith)
            requires
                angle.value() == -(turn * turns) + a.value(),
                r.value() == a.value() + turn,
        ;
        lemma_mod_multiples_basic(-turns - 1, turn);
        vstd::arithmetic::mul::lemma_mul_is_commutative(-turns - 1, turn);
    } else if angle.value() < 0 {
        assert(angle.value() - r.value() == turn * (-turns)) by (nonlinear_arith)
            requires
                angle.value() == -(turn * turns) + r.value(),
        ;
        lemma_mod_multiples_basic(-turns, turn);
        vstd::arithmetic::mul::lemma_mul_is_commutative(-turns, turn);
    } else {
        lemma_mod_multiples_basic(turns, turn);
        vstd::arithmetic::mul::lemma_mul_is_commutative(turns, turn);
    }
}

/// An angle that lies in [-PI, PI) is left as it is.
pub proof fn angles_in_range_are_kept(angle: F64)
    requires
        angle.finite(),
        -F64::from_bits(PI).value() <= angle.value() < F64::from_bits(PI).value(),
    ensures
        normalize_angle(angle) == angle,
{
    let f = Format::double();
    a_full_turn_is_two_halves();
    reveal(spec_normalize_angle);
    reveal(F64::spec_at_most);
    reveal(F64::spec_less);
    reveal(F64::spec_rem);
    let size = f.size(angle.bits);
    lemma_small_mod(size, f.size(TAU));
    f.rounding_keeps_numbers(f.encoded(angle.bits));
}

/// Normalizing twice is normalizing once.
pub proof fn normalizing_is_idempotent(angle: F64)
    requires
        angle.finite(),
    ensures
        normalize_angle(normalize_angle(angle)) == normalize_angle(angle),
{
    normalized_angles_are_in_range(angle);
    angles_in_range_are_kept(normalize_angle(angle));
}

/// The shortest way from one angle to another is at most half a turn long.
pub proof fn angle_differences_are_in_range(a: F64, b: F64)
    requires
        b.minus(a).finite(),
    ensures
        -F64::from_bits(PI).value() <= angle_diff(a, b).value() < F64::from_bits(PI).value(),
{
    normalized_angles_are_in_range(b.minus(a));
}

/// The difference of two angles leads from the first to the second: added to
/// the first it gives the second, but for whole turns and one rounding.
pub proof fn angle_differences_lead_from_one_to_the_other(a: F64, b: F64) -> (turns: int)
    requires
        b.minus(a).finite(),
    ensures
        crate::values::about(
            angle_diff(a, b).value() + turns * F64::from_bits(TAU).value(),
            b.value() - a.value(),
            1,
            1,
        ),
{
    let gap = b.minus(a);
    let turn = F64::from_bits(TAU).value();
    a_full_turn_is_two_halves();
    normalized_angles_are_in_range(gap);
    crate::values::differences_are_about_exact(b, a);
    let rest = gap.value() - normalize_angle(gap).value();
    lemma_fundamental_div_mod(rest, turn);
    let turns = rest / turn;
    assert(turns * turn == turn * turns) by (nonlinear_arith);
    turns
}

/// Carrying a pose to the parent frame carries its position as any point, and
/// brings its heading into range.
pub proof fn poses_are_carried_as_points(tf: Transform2D, pose: Pose, turn: Rotation2, angle: F64)
    ensures
        ({
            let r = tf.carried(&pose, turn, angle);
            let place = tf.transform_point(Vec2 { x: pose.x, y: pose.y });
            &&& r.x == place.x
            &&& r.y == place.y
            &&& angle.finite() ==> -F64::from_bits(PI).value() <= r.theta.value()
                < F64::from_bits(PI).value() && (angle.value() - r.theta.value())
                % F64::from_bits(TAU).value() == 0
        }),
{
    let turned = tf.turn.rotate(Vec2 { x: pose.x, y: pose.y });
    crate::float::double::sums_commute(turned.x, tf.shift.x);
    crate::float::double::sums_commute(turned.y, tf.shift.y);
    if angle.finite() {
        normalized_angles_are_in_range(angle);
    }
}

/// Turning back undoes turning back.
pub proof fn inverse_twice_keeps_the_rotation(tf: Transform2D)
    ensures
        tf.inverse().inverse().turn == tf.turn,
{
}

impl Transform2D {
    /// All four numbers are finite.
    pub open spec fn is_finite(&self) -> bool {
        &&& self.shift.x.finite()
        &&& self.shift.y.finite()
        &&& self.turn.cos.finite()
        &&& self.turn.sin.finite()
    }

    /// The four numbers have the same values.
    pub open spec fn same_values(&self, other: &Transform2D) -> bool {
        &&& self.shift.x.value() == other.shift.x.value()
        &&& self.shift.y.value() == other.shift.y.value()
        &&& self.turn.cos.value() == other.turn.cos.value()
        &&& self.turn.sin.value() == other.turn.sin.value()
    }
}

/// A product with one, and one with nothing added or taken away.
proof fn lemma_kept(a: F64, b: F64)
    requires
        a.finite(),
        b.finite(),
    ensures
        ({
            let (one, zero) = (F64::from_bits(ONE), F64::from_bits(0));
            &&& a.times(one).minus(b.times(zero)).value() == a.value()
            &&& a.times(one).plus(b.times(zero)).value() == a.value()
            &&& b.times(zero).plus(a.times(one)).value() == a.value()
            &&& one.times(a).minus(zero.times(b)).value() == a.value()
            &&& one.times(a).plus(zero.times(b)).value() == a.value()
            &&& zero.times(b).plus(one.times(a)).value() == a.value()
            &&& a.times(one).minus(b.times(zero)).finite()
            &&& one.times(a).minus(zero.times(b)).finite()
            &&& zero.times(b).plus(one.times(a)).finite()
            &&& b.times(zero).plus(a.times(one)).finite()
            &&& a.times(one).plus(b.times(zero)).finite()
            &&& one.times(a).plus(zero.times(b)).finite()
        }),
{
    let (one, zero) = (F64::from_bits(ONE), F64::from_bits(0));
    crate::float::double::one_is_neutral(a);
    crate::float::double::zero_absorbs(b, zero);
    crate::float::double::zero_is_neutral(a, b.times(zero));
    crate::float::double::zero_is_neutral(a, zero.times(b));
    crate::float::double::zero_is_neutral(a, b.times(zero).negated());
    crate::float::double::zero_is_neutral(a, zero.times(b).negated());
}

/// Composing with the identity, on either side, keeps a transform.
pub proof fn identity_is_neutral(tf: Transform2D)
    requires
        tf.is_finite(),
    ensures
        tf.compose(&Transform2D::identity()).same_values(&tf),
        Transform2D::identity().compose(&tf).same_values(&tf),
        tf.compose(&Transform2D::identity()).is_finite(),
        Transform2D::identity().compose(&tf).is_finite(),
{
    let (one, zero) = (F64::from_bits(ONE), F64::from_bits(0));
    let (c, s) = (tf.turn.cos, tf.turn.sin);
    lemma_kept(c, s);
    lemma_kept(s, c);
    lemma_kept(tf.shift.x, tf.shift.y);
    lemma_kept(tf.shift.y, tf.shift.x);
    crate::float::double::zero_absorbs(c, zero);
    crate::float::double::zero_absorbs(s, zero);
    let dx = c.times(zero).minus(s.times(zero));
    let dy = s.times(zero).plus(c.times(zero));
    crate::float::double::zero_is_neutral(c.times(zero), s.times(zero).negated());
    crate::float::double::zero_is_neutral(s.times(zero), c.times(zero));
    crate::float::double::zero_has_no_value(c.times(zero));
    crate::float::double::zero_has_no_value(s.times(zero));
    crate::float::double::zero_has_no_value(dx);
    crate::float::double::zero_has_no_value(dy);
    crate::float::double::zero_is_neutral(tf.shift.x, dx);
    crate::float::double::zero_is_neutral(tf.shift.y, dy);
    let placed = Transform2D::identity().turn.rotate(tf.shift);
    crate::float::double::zero_is_neutral(placed.x, zero);
    crate::float::double::zero_is_neutral(placed.y, zero);
}

} // verus!
