//! Extended Kalman Filter for 2D pose estimation.
use vstd::prelude::*;

use crate::config::SlamConfig;
use crate::float::double::F64;
use crate::linear::{Mat3, Vec2, Vec3, ONE};
use crate::transforms::{normalize_angle, Rotation2, Transform2D};

verus! {

/// The pattern of 1e-4: the variances at the start.
pub const FIRST_VARIANCE: u64 = 0x3f1a_36e2_eb1c_432d;

/// The pattern of 1e-8: the least process noise.
pub const NOISE_FLOOR: u64 = 0x3e45_798e_e230_8c3a;

/// How odometry noise grows with motion.
#[derive(Clone, Copy, Debug)]
pub struct OdometryNoise {
    /// Linear noise as fraction of distance traveled
    pub linear_noise: F64,
    /// Angular noise as fraction of rotation
    pub angular_noise: F64,
    /// Angular noise per meter of linear motion (rad/m)
    pub linear_to_angular_noise: F64,
    /// Linear noise per radian of rotation (m/rad)
    pub angular_to_linear_noise: F64,
}

/// A motion in the body frame, with the rotation by the heading at which it
/// starts.
#[derive(Clone, Copy, Debug)]
pub struct BodyMotion {
    pub dx: F64,
    pub dy: F64,
    pub dtheta: F64,
    pub heading: Rotation2,
}

/// Extended Kalman Filter for 2D pose estimation.
///
/// State vector: x, y and heading in world frame.
/// Predicts with body-frame odometry deltas, updates with scan match measurements.
#[derive(Clone, Copy, Debug)]
pub struct PoseEkf {
    /// State: x, y and heading
    pub state: Vec3,
    /// 3x3 covariance matrix
    pub covariance: Mat3,
    /// Process noise scaling
    pub noise: OdometryNoise,
}

impl BodyMotion {
    #[verifier::opaque]
    pub open spec fn spec_transition(self) -> Mat3 {
        let (c, s) = (self.heading.cos, self.heading.sin);
        let (one, zero) = (F64::from_bits(ONE), F64::from_bits(0));
        Mat3 {
            r0: Vec3::new(
                one,
                zero,
                s.negated().times(self.dx).minus(c.times(self.dy)),
            ),
            r1: Vec3::new(zero, one, c.times(self.dx).minus(s.times(self.dy))),
            r2: Vec3::new(zero, zero, one),
        }
    }

    /// Jacobian of state transition w.r.t. state.
    #[verifier::when_used_as_spec(spec_transition)]
    pub fn transition(self) -> (r: Mat3)
        ensures
            r == self.transition(),
    {
        proof {
            reveal(BodyMotion::spec_transition);
        }
        let (c, s) = (self.heading.cos, self.heading.sin);
        let (one, zero) = (F64::from_bits(ONE), F64::from_bits(0));
        Mat3 {
            r0: Vec3::new(
                one,
                zero,
                s.negated().times(self.dx).minus(c.times(self.dy)),
            ),
            r1: Vec3::new(zero, one, c.times(self.dx).minus(s.times(self.dy))),
            r2: Vec3::new(zero, zero, one),
        }
    }

    #[verifier::opaque]
    pub open spec fn spec_noise(self, scale: OdometryNoise) -> Vec3 {
        let dist = self.dx.times(self.dx).plus(self.dy.times(self.dy)).sqrt();
        let rot = self.dtheta.abs();
        let along = scale.linear_noise.times(dist).plus(scale.angular_to_linear_noise.times(rot));
        let around = scale.angular_noise.times(rot).plus(
            scale.linear_to_angular_noise.times(dist),
        );
        let floor = F64::from_bits(NOISE_FLOOR);
        Vec3::new(
            along.times(along).max(floor),
            along.times(along).max(floor),
            around.times(around).max(floor),
        )
    }

    /// The process noise of the motion: it scales with the motion's size and
    /// has a floor, which prevents the covariance from collapsing.
    #[verifier::when_used_as_spec(spec_noise)]
    pub fn noise(self, scale: OdometryNoise) -> (r: Vec3)
        ensures
            r == self.noise(scale),
    {
        proof {
            reveal(BodyMotion::spec_noise);
        }
        let dist = self.dx.times(self.dx).plus(self.dy.times(self.dy)).sqrt();
        let rot = self.dtheta.abs();
        let along = scale.linear_noise.times(dist).plus(scale.angular_to_linear_noise.times(rot));
        let around = scale.angular_noise.times(rot).plus(
            scale.linear_to_angular_noise.times(dist),
        );
        let floor = F64::from_bits(NOISE_FLOOR);
        Vec3::new(
            along.times(along).max(floor),
            along.times(along).max(floor),
            around.times(around).max(floor),
        )
    }
}

impl PoseEkf {
    /// The filter after a motion.
    pub open spec fn predicted(self, motion: BodyMotion) -> PoseEkf {
        let moved = motion.heading.rotate(Vec2::new(motion.dx, motion.dy));
        let f = motion.transition();
        PoseEkf {
            state: Vec3::new(
                self.state.x.plus(moved.x),
                self.state.y.plus(moved.y),
                normalize_angle(self.state.z.plus(motion.dtheta)),
            ),
            covariance: f.times(self.covariance).times(f.transpose()).plus(
                Mat3::diagonal(motion.noise(self.noise)),
            ),
            noise: self.noise,
        }
    }

    /// How far a measurement is from the state, the shortest way around.
    pub open spec fn innovation(self, measurement: Vec3) -> Vec3 {
        let gap = measurement.minus(self.state);
        Vec3::new(gap.x, gap.y, normalize_angle(gap.z))
    }

    /// The filter after a measurement with covariance `r`. Where the
    /// innovation covariance has no inverse, the measurement is skipped.
    pub open spec fn updated(self, measurement: Vec3, r: Mat3) -> PoseEkf {
        match self.covariance.plus(r).try_inverse() {
            None => self,
            Some(s_inv) => {
                let k = self.covariance.times(s_inv);
                let state = self.state.plus(k.apply(self.innovation(measurement)));
                let i_kh = Mat3::identity().minus(k);
                PoseEkf {
                    state: Vec3::new(state.x, state.y, normalize_angle(state.z)),
                    covariance: i_kh.times(self.covariance).times(i_kh.transpose()).plus(
                        k.times(r).times(k.transpose()),
                    ),
                    noise: self.noise,
                }
            },
        }
    }

    pub open spec fn spec_new(config: &SlamConfig) -> PoseEkf {
        let variance = F64::from_bits(FIRST_VARIANCE);
        PoseEkf {
            state: Vec3::zeros(),
            covariance: Mat3::diagonal(Vec3::new(variance, variance, variance)),
            noise: OdometryNoise {
                linear_noise: config.odom_linear_noise,
                angular_noise: config.odom_angular_noise,
                linear_to_angular_noise: config.odom_linear_to_angular_noise,
                angular_to_linear_noise: config.odom_angular_to_linear_noise,
            },
        }
    }

    /// Create a new EKF at the origin with small initial covariance.
    #[verifier::when_used_as_spec(spec_new)]
    pub fn new(config: &SlamConfig) -> (r: PoseEkf)
        ensures
            r == PoseEkf::new(config),
    {
        let variance = F64::from_bits(FIRST_VARIANCE);
        PoseEkf {
            state: Vec3::zeros(),
            covariance: Mat3::diagonal(Vec3::new(variance, variance, variance)),
            noise: OdometryNoise {
                linear_noise: config.odom_linear_noise,
                angular_noise: config.odom_angular_noise,
                linear_to_angular_noise: config.odom_linear_to_angular_noise,
                angular_to_linear_noise: config.odom_angular_to_linear_noise,
            },
        }
    }

    /// Predict step: propagate state with body-frame odometry delta.
    ///
    /// The motion's heading is the rotation by the angle of the state.
    pub fn predict(&mut self, motion: BodyMotion)
        ensures
            *final(self) == old(self).predicted(motion),
    {
        let moved = motion.heading.rotate(Vec2::new(motion.dx, motion.dy));
        self.state = Vec3::new(
            self.state.x.plus(moved.x),
            self.state.y.plus(moved.y),
            normalize_angle(self.state.z.plus(motion.dtheta)),
        );
        let f = motion.transition();
        self.covariance = f.times(self.covariance).times(f.transpose()).plus(
            Mat3::diagonal(motion.noise(self.noise)),
        );
    }

    /// Update step: incorporate an absolute pose measurement with covariance R.
    pub fn update(&mut self, measurement: Vec3, r: Mat3)
        ensures
            *final(self) == old(self).updated(measurement, r),
    {
        let gap = measurement.minus(self.state);
        let innovation = Vec3::new(gap.x, gap.y, normalize_angle(gap.z));
        let s_inv = match self.covariance.plus(r).try_inverse() {
            Some(inverse) => inverse,
            None => {
                return ;
            },
        };
        let k = self.covariance.times(s_inv);
        let state = self.state.plus(k.apply(innovation));
        self.state = Vec3::new(state.x, state.y, normalize_angle(state.z));
        let i_kh = Mat3::identity().minus(k);
        self.covariance = i_kh.times(self.covariance).times(i_kh.transpose()).plus(
            k.times(r).times(k.transpose()),
        );
    }

    pub open spec fn spec_pose(&self, turn: Rotation2) -> Transform2D {
        Transform2D::new(self.state.x, self.state.y, turn)
    }

    /// Get current pose as Transform2D; `turn` is the rotation by the heading.
    #[verifier::when_used_as_spec(spec_pose)]
    pub fn pose(&self, turn: Rotation2) -> (r: Transform2D)
        ensures
            r == self.pose(turn),
    {
        Transform2D::new(self.state.x, self.state.y, turn)
    }

    /// Get current covariance matrix.
    pub fn covariance(&self) -> (r: Mat3)
        ensures
            r == self.covariance,
    {
        self.covariance
    }

    /// The filter at another pose.
    pub open spec fn moved_to(self, tf: &Transform2D, angle: F64) -> PoseEkf {
        PoseEkf { state: Vec3::new(tf.shift.x, tf.shift.y, angle), ..self }
    }

    /// Reset pose (e.g. after graph optimization) preserving covariance;
    /// `angle` is the angle of the transform's rotation.
    pub fn reset_pose(&mut self, tf: &Transform2D, angle: F64)
        ensures
            *final(self) == old(self).moved_to(tf, angle),
    {
        self.state = Vec3::new(tf.shift.x, tf.shift.y, angle);
    }
}

/// The process noise never falls below its floor, whatever the motion.
pub proof fn process_noise_has_a_floor(motion: BodyMotion, scale: OdometryNoise)
    ensures
        ({
            let q = motion.noise(scale);
            let floor = F64::from_bits(NOISE_FLOOR);
            floor.at_most(q.x) && floor.at_most(q.y) && floor.at_most(q.z)
        }),
{
    reveal(BodyMotion::spec_noise);
    reveal(F64::spec_less);
    reveal(F64::spec_at_most);
    assert(!F64::from_bits(NOISE_FLOOR).nan());
}

/// The process noise depends on how far and how much the robot moved, not on
/// the direction: not on the sign of the turn, nor on the signs of the way, nor
/// on which axis is which.
pub proof fn process_noise_has_no_direction(motion: BodyMotion, scale: OdometryNoise)
    ensures
        ({
            let other = |dx: F64, dy: F64, dtheta: F64|
                (BodyMotion { dx, dy, dtheta, heading: motion.heading }).noise(scale);
            let (x, y, t) = (motion.dx, motion.dy, motion.dtheta);
            let q = motion.noise(scale);
            &&& other(x, y, t.negated()) == q
            &&& !x.nan() ==> other(x.negated(), y, t) == q
            &&& !y.nan() ==> other(x, y.negated(), t) == q
            &&& other(y, x, t) == q
            &&& q.x == q.y
        }),
{
    reveal(BodyMotion::spec_noise);
    crate::values::absolute_values(motion.dtheta);
    lemma_same_square(motion.dx);
    lemma_same_square(motion.dy);
    crate::float::double::sums_commute(
        motion.dx.times(motion.dx),
        motion.dy.times(motion.dy),
    );
}

/// Each noise setting has its own effect: the uncertainty of the place grows
/// with the way by `linear_noise` and with the turn by
/// `angular_to_linear_noise`, that of the heading with the turn by
/// `angular_noise` and with the way by `linear_to_angular_noise`, and no setting
/// has any other effect.
pub proof fn noise_settings_have_their_own_effect(
    motion: BodyMotion,
    a: OdometryNoise,
    b: OdometryNoise,
)
    ensures
        a.linear_noise == b.linear_noise && a.angular_to_linear_noise == b.angular_to_linear_noise
            ==> motion.noise(a).x == motion.noise(b).x && motion.noise(a).y == motion.noise(b).y,
        a.angular_noise == b.angular_noise && a.linear_to_angular_noise
            == b.linear_to_angular_noise ==> motion.noise(a).z == motion.noise(b).z,
        motion.dtheta.zero() && a.linear_noise == b.linear_noise
            && a.angular_to_linear_noise.finite() && b.angular_to_linear_noise.finite()
            && a.linear_noise.times(way(motion)).finite() ==> motion.noise(a).x.value()
            == motion.noise(b).x.value(),
        motion.dtheta.zero() && a.linear_to_angular_noise == b.linear_to_angular_noise
            && a.angular_noise.finite() && b.angular_noise.finite()
            && a.linear_to_angular_noise.times(way(motion)).finite() ==> motion.noise(a).z.value()
            == motion.noise(b).z.value(),
{
    reveal(BodyMotion::spec_noise);
    let rot = motion.dtheta.abs();
    let dist = way(motion);
    if motion.dtheta.zero() {
        if a.angular_to_linear_noise.finite() && b.angular_to_linear_noise.finite()
            && a.linear_noise == b.linear_noise && a.linear_noise.times(dist).finite() {
            crate::float::double::zero_absorbs(a.angular_to_linear_noise, rot);
            crate::float::double::zero_absorbs(b.angular_to_linear_noise, rot);
            lemma_nothing_more(
                a.linear_noise.times(dist),
                a.angular_to_linear_noise.times(rot),
                b.angular_to_linear_noise.times(rot),
            );
        }
        if a.angular_noise.finite() && b.angular_noise.finite() && a.linear_to_angular_noise
            == b.linear_to_angular_noise && a.linear_to_angular_noise.times(dist).finite() {
            crate::float::double::zero_absorbs(a.angular_noise, rot);
            crate::float::double::zero_absorbs(b.angular_noise, rot);
            lemma_nothing_more(
                a.linear_to_angular_noise.times(dist),
                a.angular_noise.times(rot),
                b.angular_noise.times(rot),
            );
            crate::float::double::sums_commute(
                a.linear_to_angular_noise.times(dist),
                a.angular_noise.times(rot),
            );
            crate::float::double::sums_commute(
                b.linear_to_angular_noise.times(dist),
                b.angular_noise.times(rot),
            );
        }
    }
}

/// How far a motion goes.
pub open spec fn way(motion: BodyMotion) -> F64 {
    motion.dx.times(motion.dx).plus(motion.dy.times(motion.dy)).sqrt()
}

/// Adding nothing, of either sign, and squaring.
proof fn lemma_nothing_more(a: F64, p: F64, q: F64)
    requires
        a.finite(),
        p.zero(),
        q.zero(),
    ensures
        ({
            let (x, y) = (a.plus(p), a.plus(q));
            let floor = F64::from_bits(NOISE_FLOOR);
            x.times(x).max(floor).value() == y.times(y).max(floor).value()
        }),
{
    let f = crate::float::rounding::Format::double();
    let (x, y) = (a.plus(p), a.plus(q));
    crate::float::double::zero_is_neutral(a, p);
    crate::float::double::zero_is_neutral(a, q);
    reveal(F64::spec_times);
    reveal(F64::spec_less);
    assert(f.size(x.bits) == f.size(y.bits));
}

/// A number and its opposite have the same square.
proof fn lemma_same_square(a: F64)
    ensures
        !a.nan() ==> a.negated().times(a.negated()) == a.times(a),
{
    reveal(F64::spec_times);
}

/// The heading stays in [-PI, PI) through motions and measurements.
pub proof fn headings_stay_normalized(ekf: PoseEkf, motion: BodyMotion, measurement: Vec3, r: Mat3)
    ensures
        ekf.state.z.plus(motion.dtheta).finite() ==> in_half_turn(
            ekf.predicted(motion).state.z,
        ),
        ekf.covariance.plus(r).try_inverse() matches Some(s_inv) ==> ({
            let turned = ekf.state.plus(
                ekf.covariance.times(s_inv).apply(ekf.innovation(measurement)),
            );
            turned.z.finite() ==> in_half_turn(ekf.updated(measurement, r).state.z)
        }),
{
    let sum = ekf.state.z.plus(motion.dtheta);
    if sum.finite() {
        crate::transforms::normalized_angles_are_in_range(sum);
    }
    if let Some(s_inv) = ekf.covariance.plus(r).try_inverse() {
        let turned = ekf.state.plus(ekf.covariance.times(s_inv).apply(ekf.innovation(measurement)));
        if turned.z.finite() {
            crate::transforms::normalized_angles_are_in_range(turned.z);
        }
    }
}

/// The innovation is the way from the state to the measurement; for the heading
/// it is the shortest way around, either way.
pub proof fn innovations_go_the_shortest_way(ekf: PoseEkf, measurement: Vec3)
    requires
        measurement.x.minus(ekf.state.x).finite(),
        measurement.y.minus(ekf.state.y).finite(),
        measurement.z.minus(ekf.state.z).finite(),
    ensures
        ({
            let way = ekf.innovation(measurement);
            let gap = measurement.z.minus(ekf.state.z).value();
            let turn = F64::from_bits(crate::transforms::TAU).value();
            &&& crate::values::about(
                way.x.value(),
                measurement.x.value() - ekf.state.x.value(),
                1,
                1,
            )
            &&& crate::values::about(
                way.y.value(),
                measurement.y.value() - ekf.state.y.value(),
                1,
                1,
            )
            &&& crate::values::about(gap, measurement.z.value() - ekf.state.z.value(), 1, 1)
            &&& in_half_turn(way.z)
            &&& (gap - way.z.value()) % turn == 0
        }),
{
    crate::values::differences_are_about_exact(measurement.x, ekf.state.x);
    crate::values::differences_are_about_exact(measurement.y, ekf.state.y);
    crate::values::differences_are_about_exact(measurement.z, ekf.state.z);
    crate::transforms::normalized_angles_are_in_range(measurement.z.minus(ekf.state.z));
}

/// A motion turns the heading by its angle, but for whole turns and rounding.
pub proof fn motions_turn_the_heading(ekf: PoseEkf, motion: BodyMotion)
    requires
        ekf.state.z.plus(motion.dtheta).finite(),
    ensures
        ({
            let sum = ekf.state.z.plus(motion.dtheta).value();
            let turn = F64::from_bits(crate::transforms::TAU).value();
            &&& crate::values::about(sum, ekf.state.z.value() + motion.dtheta.value(), 1, 1)
            &&& in_half_turn(ekf.predicted(motion).state.z)
            &&& (sum - ekf.predicted(motion).state.z.value()) % turn == 0
        }),
{
    crate::values::sums_are_about_exact(ekf.state.z, motion.dtheta);
    crate::transforms::normalized_angles_are_in_range(ekf.state.z.plus(motion.dtheta));
}

/// A reset moves the filter and keeps its certainty.
pub proof fn resets_keep_the_covariance(ekf: PoseEkf, tf: Transform2D, angle: F64)
    ensures
        ekf.moved_to(&tf, angle).state.x == tf.shift.x,
        ekf.moved_to(&tf, angle).state.y == tf.shift.y,
        ekf.moved_to(&tf, angle).state.z == angle,
        ekf.moved_to(&tf, angle).covariance == ekf.covariance,
        ekf.moved_to(&tf, angle).noise == ekf.noise,
{
}

/// The angle lies in [-PI, PI).
pub open spec fn in_half_turn(angle: F64) -> bool {
    let half = F64::from_bits(crate::transforms::PI).value();
    &&& angle.finite()
    &&& -half <= angle.value() < half
}

/// Standing still keeps the estimated pose.
pub proof fn standing_still_keeps_the_pose(ekf: PoseEkf, motion: BodyMotion)
    requires
        ekf.state.x.finite(),
        ekf.state.y.finite(),
        in_half_turn(ekf.state.z),
        motion.heading.cos.finite(),
        motion.heading.sin.finite(),
        motion.dx.zero(),
        motion.dy.zero(),
        motion.dtheta.zero(),
    ensures
        ekf.predicted(motion).state.x.value() == ekf.state.x.value(),
        ekf.predicted(motion).state.y.value() == ekf.state.y.value(),
        ekf.predicted(motion).state.z.value() == ekf.state.z.value(),
{
    let (c, s) = (motion.heading.cos, motion.heading.sin);
    let (dx, dy) = (motion.dx, motion.dy);
    crate::float::double::zero_absorbs(c, dx);
    crate::float::double::zero_absorbs(c, dy);
    crate::float::double::zero_absorbs(s, dx);
    crate::float::double::zero_absorbs(s, dy);
    crate::float::double::zero_is_neutral(c.times(dx), s.times(dy).negated());
    crate::float::double::zero_is_neutral(s.times(dx), c.times(dy));
    let moved = motion.heading.rotate(Vec2::new(dx, dy));
    crate::float::double::zero_has_no_value(c.times(dx));
    crate::float::double::zero_has_no_value(s.times(dx));
    crate::float::double::zero_has_no_value(moved.x);
    crate::float::double::zero_has_no_value(moved.y);
    crate::float::double::zero_is_neutral(ekf.state.x, moved.x);
    crate::float::double::zero_is_neutral(ekf.state.y, moved.y);
    crate::float::double::zero_is_neutral(ekf.state.z, motion.dtheta);
    crate::transforms::angles_in_range_are_kept(ekf.state.z.plus(motion.dtheta));
}

/// The derivatives of a motion: the place moves with the place and the heading
/// with the heading, and a small turn at the start swings the way around: by
/// its opposite ordinate along x and by its abscissa along y, up to rounding.
pub proof fn transitions_swing_the_way(motion: BodyMotion, c: int, g: int)
    requires
        1 <= c,
        1 <= g,
        3 * (c * g) <= vstd::arithmetic::power2::pow2(2044),
        crate::graph_laws::is_bounded(motion.heading.cos, c * crate::nearness::one_unit()),
        crate::graph_laws::is_bounded(motion.heading.sin, c * crate::nearness::one_unit()),
        crate::graph_laws::is_bounded(motion.dx, 0x10_0000_0000_0000 * g),
        crate::graph_laws::is_bounded(motion.dy, 0x10_0000_0000_0000 * g),
    ensures
        ({
            let f = motion.transition();
            let u = crate::nearness::one_unit();
            let (cos, sin) = (motion.heading.cos.value(), motion.heading.sin.value());
            let (x, y) = (motion.dx.value(), motion.dy.value());
            &&& crate::nearness::near(f.r0.z.value(), -(sin * x) - cos * y, 1, 5 * (c * g))
            &&& crate::nearness::near(f.r1.z.value(), cos * x - sin * y, 1, 5 * (c * g))
            &&& f.r0.x.value() == u && f.r1.y.value() == u && f.r2.z.value() == u
            &&& f.r0.y.value() == 0 && f.r1.x.value() == 0
            &&& f.r2.x.value() == 0 && f.r2.y.value() == 0
        }),
{
    reveal(BodyMotion::spec_transition);
    let (cos, sin) = (motion.heading.cos, motion.heading.sin);
    crate::float::double::lemma_one();
    crate::float::double::zero_has_no_value(F64::from_bits(0));
    crate::nearness::lemma_negated(sin);
    crate::nearness::lemma_two_fit(sin.negated(), motion.dx, cos, motion.dy, c, g);
    crate::nearness::lemma_two_fit(cos, motion.dx, sin, motion.dy, c, g);
    crate::nearness::lemma_two(sin.negated(), motion.dx, cos, motion.dy, c, g);
    crate::nearness::lemma_two(cos, motion.dx, sin, motion.dy, c, g);
    vstd::arithmetic::power2::lemma_pow2_pos(1074);
    assert(crate::nearness::up(1) == crate::nearness::one_unit());
    let (s, x) = (sin.value(), motion.dx.value());
    assert((-s) * x == -(s * x)) by (nonlinear_arith);
    let u = crate::nearness::one_unit();
    assert((5 * (c * g)) * u == 5 * ((c * g) * u)) by (nonlinear_arith);
}

/// A motion carries the covariance along and adds the noise of the motion on
/// the diagonal: every entry is the form of the derivatives in two rows, up to
/// rounding.
pub proof fn motions_carry_the_covariance(
    ekf: PoseEkf,
    motion: BodyMotion,
    c: int,
    g: int,
    row: int,
    column: int,
)
    requires
        0 <= row < 3,
        0 <= column < 3,
        1 <= c,
        1 <= g,
        16 * (c * (4 * (c * g))) <= vstd::arithmetic::power2::pow2(2044),
        crate::graph_laws::is_bounded_matrix(
            motion.transition(),
            c * crate::nearness::one_unit(),
        ),
        crate::graph_laws::is_bounded_matrix(ekf.covariance, 0x10_0000_0000_0000 * g),
        ekf.predicted(motion).covariance.entry(row, column).finite(),
    ensures
        ({
            let f = motion.transition();
            let carried = crate::graph_laws::exact_form(f.row(row), ekf.covariance, f.row(column));
            let noise = if row == column {
                motion.noise(ekf.noise).part(row).value()
            } else {
                0
            };
            exists|form: int| #[trigger]
                crate::nearness::near(form, carried, 2, 70 * (c * (c * g)))
                    && crate::values::about(
                    ekf.predicted(motion).covariance.entry(row, column).value(),
                    form + noise,
                    1,
                    1,
                )
        }),
{
    let f = motion.transition();
    let q = motion.noise(ekf.noise);
    let (a, b) = (f.row(row), f.row(column));
    let m = ekf.covariance;
    crate::graph_laws::lemma_near_form(a, m, b, c, g, c);
    let t = Vec3 { x: a.dot(m.column(0)), y: a.dot(m.column(1)), z: a.dot(m.column(2)) };
    let carried = f.times(m).times(f.transpose());
    assert(carried.entry(row, column) == t.dot(b)) by {
        reveal(Mat3::spec_times);
    }
    let zero = F64::from_bits(0);
    crate::float::double::zero_has_no_value(zero);
    let added = if row == column {
        q.part(row)
    } else {
        zero
    };
    crate::values::sums_are_about_exact(t.dot(b), added);
    assert(crate::nearness::near(
        t.dot(b).value(),
        crate::graph_laws::exact_form(a, m, b),
        2,
        70 * (c * (c * g)),
    ));
}

/// A measurement pulls the state by the gain: the covariance of the state times
/// the inverse of the combined covariance. The place moves by the gain's share
/// of the innovation, and the heading too, but for whole turns; a measurement
/// whose combined covariance has no inverse changes nothing. The result is the
/// gain.
pub proof fn measurements_pull_the_state(
    ekf: PoseEkf,
    measurement: Vec3,
    r: Mat3,
    c: int,
    g: int,
    s: int,
    row: int,
) -> (gain: Mat3)
    requires
        0 <= row < 3,
        1 <= c,
        1 <= g,
        1 <= s,
        16 * (s * (4 * (c * g))) <= vstd::arithmetic::power2::pow2(2044),
        crate::graph_laws::is_bounded_matrix(ekf.covariance, c * crate::nearness::one_unit()),
        ekf.covariance.plus(r).try_inverse() matches Some(inverse)
            ==> crate::graph_laws::is_bounded_matrix(inverse, 0x10_0000_0000_0000 * g),
        crate::graph_laws::is_bounded_vector(
            ekf.innovation(measurement),
            s * crate::nearness::one_unit(),
        ),
        ekf.state.part(row).finite(),
    ensures
        match ekf.covariance.plus(r).try_inverse() {
            None => ekf.updated(measurement, r) == ekf,
            Some(inverse) => {
                let u = crate::nearness::one_unit();
                let way = ekf.innovation(measurement);
                let after = ekf.updated(measurement, r).state;
                let pull = gain.row(row).dot(way);
                let sum = ekf.state.part(row).plus(pull);
                &&& forall|column: int|
                    0 <= column < 3 ==> crate::nearness::near(
                        (#[trigger] gain.entry(row, column)).value(),
                        crate::graph_laws::exact_dot(
                            ekf.covariance.row(row),
                            inverse.column(column),
                        ),
                        1,
                        10 * (c * g),
                    )
                &&& crate::nearness::near(
                    pull.value(),
                    crate::graph_laws::exact_dot(way, gain.row(row)),
                    1,
                    10 * (s * (4 * (c * g))),
                )
                &&& sum.finite() ==> crate::values::about(
                    sum.value(),
                    ekf.state.part(row).value() + pull.value(),
                    1,
                    1,
                )
                &&& row < 2 ==> after.part(row) == sum
                &&& row == 2 && sum.finite() ==> in_half_turn(after.z) && (sum.value()
                    - after.z.value()) % F64::from_bits(crate::transforms::TAU).value() == 0
            },
        },
{
    let u = crate::nearness::one_unit();
    vstd::arithmetic::power2::lemma_pow2_pos(1074);
    assert(crate::nearness::up(1) == u);
    match ekf.covariance.plus(r).try_inverse() {
        None => Mat3::zeros(),
        Some(inverse) => {
            let gain = ekf.covariance.times(inverse);
            let way = ekf.innovation(measurement);
            let a = ekf.covariance.row(row);
            let t = c * g;
            assert(1 <= t && t <= s * t && s * (4 * t) == 4 * (s * t)) by (nonlinear_arith)
                requires
                    t == c * g,
                    c >= 1,
                    g >= 1,
                    s >= 1,
            ;
            assert forall|column: int| 0 <= column < 3 implies crate::nearness::near(
                (#[trigger] gain.entry(row, column)).value(),
                crate::graph_laws::exact_dot(a, inverse.column(column)),
                1,
                10 * (c * g),
            ) && crate::graph_laws::is_bounded(
                gain.entry(row, column),
                0x10_0000_0000_0000 * (4 * t),
            ) by {
                reveal(Mat3::spec_times);
                crate::graph_laws::lemma_near_dot(a, inverse.column(column), c, g);
                assert((10 * t) * u == 10 * (t * u)) by (nonlinear_arith);
            }
            let k = gain.row(row);
            assert(k.x == gain.entry(row, 0) && k.y == gain.entry(row, 1) && k.z == gain.entry(
                row,
                2,
            ));
            crate::graph_laws::lemma_near_dot(way, k, s, 4 * t);
            let z = s * (4 * t);
            assert((10 * z) * u == 10 * (z * u)) by (nonlinear_arith);
            let sum = ekf.state.part(row).plus(k.dot(way));
            if sum.finite() {
                crate::values::sums_are_about_exact(ekf.state.part(row), k.dot(way));
                crate::transforms::normalized_angles_are_in_range(sum);
            }
            gain
        },
    }
}

/// What a measurement leaves of the covariance: the part that the gain does not
/// explain, and what the measurement brings in through the gain, each the form
/// of two rows, up to rounding.
pub proof fn measurements_shrink_the_covariance(
    ekf: PoseEkf,
    measurement: Vec3,
    r: Mat3,
    c: int,
    g: int,
    row: int,
    column: int,
)
    requires
        0 <= row < 3,
        0 <= column < 3,
        1 <= c,
        1 <= g,
        16 * (c * (4 * (c * g))) <= vstd::arithmetic::power2::pow2(2044),
        ekf.covariance.plus(r).try_inverse() is Some,
        ({
            let gain = ekf.covariance.times(ekf.covariance.plus(r).try_inverse()->0);
            &&& crate::graph_laws::is_bounded_matrix(gain, c * crate::nearness::one_unit())
            &&& crate::graph_laws::is_bounded_matrix(
                Mat3::identity().minus(gain),
                c * crate::nearness::one_unit(),
            )
        }),
        crate::graph_laws::is_bounded_matrix(ekf.covariance, 0x10_0000_0000_0000 * g),
        crate::graph_laws::is_bounded_matrix(r, 0x10_0000_0000_0000 * g),
        ekf.updated(measurement, r).covariance.entry(row, column).finite(),
    ensures
        ({
            let gain = ekf.covariance.times(ekf.covariance.plus(r).try_inverse()->0);
            let rest = Mat3::identity().minus(gain);
            let e = 70 * (c * (c * g));
            exists|kept: int, brought: int|
                #![trigger crate::values::about(
                    ekf.updated(measurement, r).covariance.entry(row, column).value(),
                    kept + brought,
                    1,
                    1,
                )]
                crate::nearness::near(
                    kept,
                    crate::graph_laws::exact_form(rest.row(row), ekf.covariance, rest.row(column)),
                    2,
                    e,
                ) && crate::nearness::near(
                    brought,
                    crate::graph_laws::exact_form(gain.row(row), r, gain.row(column)),
                    2,
                    e,
                ) && crate::values::about(
                    ekf.updated(measurement, r).covariance.entry(row, column).value(),
                    kept + brought,
                    1,
                    1,
                )
        }),
{
    let gain = ekf.covariance.times(ekf.covariance.plus(r).try_inverse()->0);
    let rest = Mat3::identity().minus(gain);
    crate::graph_laws::lemma_near_form(rest.row(row), ekf.covariance, rest.row(column), c, g, c);
    crate::graph_laws::lemma_near_form(gain.row(row), r, gain.row(column), c, g, c);
    let first = rest.times(ekf.covariance).times(rest.transpose()).entry(row, column);
    let second = gain.times(r).times(gain.transpose()).entry(row, column);
    assert(first == form(rest.row(row), ekf.covariance, rest.row(column)) && second == form(
        gain.row(row),
        r,
        gain.row(column),
    )) by {
        reveal(Mat3::spec_times);
    }
    crate::values::sums_are_about_exact(first, second);
    assert(crate::values::about(
        ekf.updated(measurement, r).covariance.entry(row, column).value(),
        first.value() + second.value(),
        1,
        1,
    ));
}

/// A row times a matrix times a column.
pub open spec fn form(a: Vec3, m: Mat3, b: Vec3) -> F64 {
    (Vec3 { x: a.dot(m.column(0)), y: a.dot(m.column(1)), z: a.dot(m.column(2)) }).dot(b)
}

} // verus!
