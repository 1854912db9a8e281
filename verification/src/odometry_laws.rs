//! What odometry does to the pose, and what the correction says of it.
use vstd::arithmetic::power2::*;
use vstd::prelude::*;

use crate::config::SlamConfig;
use crate::ekf::PoseEkf;
use crate::float::double::F64;
use crate::processor::SlamProcessor;
use crate::transforms::{normalize_angle, Rotation2, Transform2D, PI, TAU};
use crate::types::Pose;

verus! {

/// An odometry pose with the rotation by its heading, the angle of the motion
/// that led to it, and the rotation by the filter's heading before it.
#[derive(Clone, Copy, Debug)]
pub struct OdometryReading {
    pub pose: Pose,
    pub turn: Rotation2,
    pub dtheta: F64,
    pub heading: Rotation2,
}

impl OdometryReading {
    /// Where the odometry places the robot.
    pub open spec fn place(self) -> Transform2D {
        Transform2D::new(self.pose.x, self.pose.y, self.turn)
    }
}

/// At the end of a scan, the odometry pose followed by the correction is the
/// estimated pose, up to rounding and to what the rotation of the odometry
/// pose lacks of unit length.
pub proof fn corrected_odometry_is_the_pose(
    slam: SlamProcessor,
    heading: Rotation2,
    w: int,
    d: int,
)
    requires
        crate::nearness::within(slam.last_odom_pose, 2, w),
        crate::nearness::within(slam.ekf.pose(heading), 2, w),
        crate::nearness::unit_within(slam.last_odom_pose.turn, d),
        crate::nearness::has_finite_shift(
            slam.last_odom_pose.compose(&slam.finished(heading).odom_correction),
        ),
        1 <= w,
    ensures
        ({
            let r = slam.finished(heading);
            crate::nearness::agree(
                r.last_odom_pose.compose(&r.odom_correction),
                r.ekf.pose(heading),
                200 + 2 * d,
                513 * w + 2 * (d * w),
            )
        }),
{
    crate::nearness::relative_transforms_lead_to_their_target(
        slam.last_odom_pose,
        slam.ekf.pose(heading),
        w,
        d,
    );
}

/// An odometry pose moves the estimated position by the way from the last
/// odometry pose to it, turned by the filter's heading, and the heading by the
/// angle of that way. The map and the correction stay.
pub proof fn odometry_moves_the_pose(slam: SlamProcessor, reading: OdometryReading, turn: Rotation2)
    ensures
        ({
            let r = slam.after_odometry(
                &reading.pose,
                reading.turn,
                reading.dtheta,
                reading.heading,
            );
            let way = slam.last_odom_pose.relative_to(&reading.place());
            &&& r.ekf.pose(turn).shift == slam.ekf.pose(reading.heading).compose(&way).shift
            &&& r.ekf.state.z == normalize_angle(slam.ekf.state.z.plus(reading.dtheta))
            &&& r.last_odom_pose == reading.place()
            &&& r.config == slam.config
            &&& r.keyframes == slam.keyframes
            &&& r.edges == slam.edges
            &&& r.odom_correction == slam.odom_correction
            &&& r.last_keyframe_pose == slam.last_keyframe_pose
            &&& r.last_scan_odom_pose == slam.last_scan_odom_pose
            &&& r.loop_closure_count == slam.loop_closure_count
            &&& r.pending_imu_delta == slam.pending_imu_delta
            &&& r.scan_context_db == slam.scan_context_db
            &&& r.reference_keyframe_idx == slam.reference_keyframe_idx
            &&& r.consecutive_match_failures == slam.consecutive_match_failures
            &&& r.last_relocalization_attempt == slam.last_relocalization_attempt
        }),
{
}

/// The processor after the first `n` readings.
pub open spec fn driven(
    slam: SlamProcessor,
    readings: Seq<OdometryReading>,
    n: nat,
) -> SlamProcessor
    decreases n,
{
    if n == 0 {
        slam
    } else {
        let r = readings[n - 1];
        driven(slam, readings, (n - 1) as nat).after_odometry(&r.pose, r.turn, r.dtheta, r.heading)
    }
}

/// A reading that is heard while `frame` takes odometry poses to estimated
/// ones: coordinates are at most `2^52 * w` units, the rotation of the last
/// odometry pose lacks at most `d` last places of unit length, and the
/// filter's heading is that of the last odometry pose in the frame within `h`
/// last places.
pub open spec fn is_heard(
    slam: SlamProcessor,
    reading: OdometryReading,
    frame: Transform2D,
    w: int,
    d: int,
    h: int,
) -> bool {
    let placed = frame.compose(&slam.last_odom_pose).turn;
    let heading = reading.heading;
    &&& crate::nearness::within(slam.last_odom_pose, 2, w)
    &&& crate::nearness::within(reading.place(), 2, w)
    &&& crate::nearness::unit_within(slam.last_odom_pose.turn, d)
    &&& heading.cos.finite()
    &&& heading.sin.finite()
    &&& crate::nearness::magnitude_of(heading.cos.value()) <= 2 * crate::nearness::one_unit()
    &&& crate::nearness::magnitude_of(heading.sin.value()) <= 2 * crate::nearness::one_unit()
    &&& crate::nearness::magnitude_of(heading.cos.value() - placed.cos.value()) <= h
        * crate::nearness::last_place()
    &&& crate::nearness::magnitude_of(heading.sin.value() - placed.sin.value()) <= h
        * crate::nearness::last_place()
}

/// The estimated position is that of the last odometry pose in the frame,
/// within `e` units.
pub open spec fn is_placed(slam: SlamProcessor, frame: Transform2D, e: int) -> bool {
    let place = frame.compose(&slam.last_odom_pose).shift;
    &&& slam.ekf.state.x.finite()
    &&& slam.ekf.state.y.finite()
    &&& crate::nearness::magnitude_of(slam.ekf.state.x.value() - place.x.value()) <= e
    &&& crate::nearness::magnitude_of(slam.ekf.state.y.value() - place.y.value()) <= e
}

/// A series of odometry poses telescopes: the frame that took the first one to
/// the estimated position takes the last one to the estimated position, but
/// for a few thousand last places for every step, and the map stays. All steps
/// together may take `2^52` last places, which is as far as the coordinates
/// reach.
pub proof fn odometry_telescopes(
    slam: SlamProcessor,
    readings: Seq<OdometryReading>,
    n: nat,
    frame: Transform2D,
    w: int,
    d: int,
    h: int,
    e: int,
)
    requires
        n <= readings.len(),
        crate::nearness::within(frame, 2, w),
        1 <= w,
        0 <= d,
        0 <= h,
        0 <= e,
        e + n * (2801 + 8 * d + 112 * h) <= 0x10_0000_0000_0000,
        is_placed(slam, frame, e * w),
        driven(slam, readings, n).ekf.state.x.finite(),
        driven(slam, readings, n).ekf.state.y.finite(),
        forall|k: nat|
            k <= n ==> crate::nearness::has_finite_shift(
                frame.compose(&(#[trigger] driven(slam, readings, k)).last_odom_pose),
            ),
        forall|k: int|
            0 <= k < n ==> is_heard(
                driven(slam, readings, k as nat),
                #[trigger] readings[k],
                frame,
                w,
                d,
                h,
            ),
    ensures
        is_placed(
            driven(slam, readings, n),
            frame,
            (e + n * (2801 + 8 * d + 112 * h)) * w,
        ),
        n > 0 ==> driven(slam, readings, n).last_odom_pose == readings[n - 1].place(),
        driven(slam, readings, n).keyframes == slam.keyframes,
        driven(slam, readings, n).edges == slam.edges,
        driven(slam, readings, n).odom_correction == slam.odom_correction,
        driven(slam, readings, n).scan_context_db == slam.scan_context_db,
        driven(slam, readings, n).loop_closure_count == slam.loop_closure_count,
    decreases n,
{
    if n > 0 {
        let m = (n - 1) as nat;
        let step = 2801 + 8 * d + 112 * h;
        assert(n * step == m * step + step) by (nonlinear_arith)
            requires
                n == m + 1,
        ;
        let before = driven(slam, readings, m);
        let after = driven(slam, readings, n);
        let reading = readings[m as int];
        odometry_moves_the_pose(before, reading, reading.heading);
        let p = before.ekf.pose(reading.heading);
        assert(after.ekf.pose(reading.heading).shift == p.compose(
            &before.last_odom_pose.relative_to(&reading.place()),
        ).shift);
        crate::nearness::lemma_shift_parts(
            p,
            before.last_odom_pose.relative_to(&reading.place()),
        );
        odometry_telescopes(slam, readings, m, frame, w, d, h, e);
        assert(is_heard(before, reading, frame, w, d, h));
        let f = (e + m * step) * w;
        assert(0 <= f <= 0x10_0000_0000_0000 * w) by (nonlinear_arith)
            requires
                f == (e + m * step) * w,
                0 <= e + m * step <= 0x10_0000_0000_0000,
                1 <= w,
        ;
        crate::nearness::lemma_placed(frame, before.last_odom_pose, w);
        crate::nearness::steps_keep_the_frame(
            frame,
            before.last_odom_pose,
            reading.place(),
            p,
            w,
            d,
            h,
            f,
        );
        assert(f + step * w == (e + n * step) * w) by (nonlinear_arith)
            requires
                f == (e + m * step) * w,
                n * step == m * step + step,
        ;
    } else {
        assert(0 * (2801 + 8 * d + 112 * h) == 0) by (nonlinear_arith);
    }
}

/// One direction is another but for whole turns and `t` units: `turns` of them
/// lie between the two.
pub open spec fn is_turned(a: int, b: int, turns: int, t: int) -> bool {
    crate::nearness::magnitude_of(a - b - turns * F64::from_bits(TAU).value()) <= t
}

/// Two directions are the same but for `t` units.
pub open spec fn same_direction(a: int, b: int, t: int) -> bool {
    exists|turns: int| is_turned(a, b, turns, t)
}

/// The odometry heading before a reading.
pub open spec fn heading_before(readings: Seq<OdometryReading>, start: int, n: int) -> int {
    if n == 0 {
        start
    } else {
        readings[n - 1].pose.theta.value()
    }
}

/// A reading whose motion turns from one odometry heading to the next, but for
/// `t` units.
pub open spec fn turns_on(
    readings: Seq<OdometryReading>,
    reading: OdometryReading,
    start: int,
    n: int,
    t: int,
) -> bool {
    let half = F64::from_bits(PI).value();
    &&& reading.dtheta.finite()
    &&& crate::nearness::magnitude_of(reading.dtheta.value()) <= half
    &&& same_direction(
        reading.dtheta.value(),
        reading.pose.theta.value() - heading_before(readings, start, n),
        t,
    )
}

/// The sum of a heading and a motion, brought into range.
proof fn lemma_heading_step(z: F64, dtheta: F64, from: int, to: int, c: int, e: int, t: int)
    requires
        z.finite(),
        dtheta.finite(),
        crate::nearness::magnitude_of(z.value()) <= F64::from_bits(PI).value(),
        crate::nearness::magnitude_of(dtheta.value()) <= F64::from_bits(PI).value(),
        same_direction(z.value(), from + c, e),
        same_direction(dtheta.value(), to - from, t),
    ensures
        ({
            let r = normalize_angle(z.plus(dtheta));
            &&& r.finite()
            &&& crate::nearness::magnitude_of(r.value()) <= F64::from_bits(PI).value()
            &&& same_direction(r.value(), to + c, e + t + 8 * crate::nearness::last_place())
        }),
{
    let turn = F64::from_bits(TAU).value();
    let w = 8 * crate::nearness::last_place();
    crate::transforms::a_full_turn_is_two_halves();
    assert(1 <= w <= pow2(2044) && turn <= 0x10_0000_0000_0000 * w) by {
        assert(TAU as nat / 0x10_0000_0000_0000 == 1025);
        lemma2_to64();
        lemma_pow2_adds(2, 1022);
        lemma_pow2_adds(3, 1022);
        lemma_pow2_pos(1022);
        lemma_pow2_strictly_increases(1025, 2044);
        let (p, q) = (pow2(1022) as int, pow2(1024) as int);
        assert(turn == 0x1921_fb54_442d_18 * q);
        assert(0x1921_fb54_442d_18 * (4 * p) <= 0x10_0000_0000_0000 * (8 * p));
    }
    crate::nearness::lemma_sum_fits(z, dtheta, w);
    crate::nearness::lemma_sum_error(z, dtheta, w);
    let sum = z.plus(dtheta);
    crate::transforms::normalized_angles_are_in_range(sum);
    let r = normalize_angle(sum);
    let gap = sum.value() - r.value();
    vstd::arithmetic::div_mod::lemma_fundamental_div_mod(gap, turn);
    let m = gap / turn;
    let (old_way, new_way) = (from + c, to - from);
    assert(same_direction(z.value(), old_way, e) && same_direction(dtheta.value(), new_way, t));
    let k = choose|k: int| is_turned(z.value(), old_way, k, e);
    let l = choose|l: int| is_turned(dtheta.value(), new_way, l, t);
    assert((k + l - m) * turn == k * turn + l * turn - turn * m) by (nonlinear_arith);
    assert(is_turned(r.value(), to + c, k + l - m, e + t + w));
}

/// The heading follows a series of odometry poses as the position does: where
/// the filter's heading was that of the first one turned by `c`, it is that of
/// the last one turned by `c`, but for whole turns and a few last places for
/// every step. `start` is the odometry heading before the series.
pub proof fn headings_telescope(
    slam: SlamProcessor,
    readings: Seq<OdometryReading>,
    n: nat,
    start: int,
    c: int,
    e: int,
    t: int,
)
    requires
        n <= readings.len(),
        slam.ekf.state.z.finite(),
        crate::nearness::magnitude_of(slam.ekf.state.z.value()) <= F64::from_bits(PI).value(),
        same_direction(slam.ekf.state.z.value(), start + c, e),
        forall|k: int|
            0 <= k < n ==> turns_on(readings, #[trigger] readings[k], start, k, t),
    ensures
        ({
            let z = driven(slam, readings, n).ekf.state.z;
            &&& z.finite()
            &&& crate::nearness::magnitude_of(z.value()) <= F64::from_bits(PI).value()
            &&& same_direction(
                z.value(),
                heading_before(readings, start, n as int) + c,
                e + n * (t + 8 * crate::nearness::last_place()),
            )
        }),
    decreases n,
{
    let step = t + 8 * crate::nearness::last_place();
    if n > 0 {
        let m = (n - 1) as nat;
        headings_telescope(slam, readings, m, start, c, e, t);
        let before = driven(slam, readings, m);
        let reading = readings[m as int];
        assert(turns_on(readings, reading, start, m as int, t));
        odometry_moves_the_pose(before, reading, reading.heading);
        lemma_heading_step(
            before.ekf.state.z,
            reading.dtheta,
            heading_before(readings, start, m as int),
            reading.pose.theta.value(),
            c,
            e + m * step,
            t,
        );
        assert(m * step + step == n * step) by (nonlinear_arith)
            requires
                n == m + 1,
        ;
    } else {
        assert(0 * step == 0) by (nonlinear_arith);
    }
}

/// The identity, as numbers.
proof fn lemma_identity(w: int)
    requires
        1 <= w,
    ensures
        crate::nearness::within(Transform2D::identity(), 2, w),
        Transform2D::identity().shift.x.value() == 0,
        Transform2D::identity().shift.y.value() == 0,
        F64::from_bits(0).finite(),
        F64::from_bits(0).value() == 0,
{
    let one = F64::from_bits(crate::linear::ONE);
    crate::float::double::lemma_one();
    crate::float::double::zero_has_no_value(F64::from_bits(0));
    lemma_pow2_pos(1074);
    assert(one.value() == crate::nearness::one_unit());
}

/// A new processor follows odometry: after a series of odometry poses the
/// estimated pose is the last of them, up to rounding and whole turns.
pub proof fn a_new_processor_follows_odometry(
    config: SlamConfig,
    slam: SlamProcessor,
    readings: Seq<OdometryReading>,
    w: int,
    d: int,
    h: int,
    t: int,
)
    requires
        slam.ekf == PoseEkf::new(&config),
        slam.last_odom_pose == Transform2D::identity(),
        readings.len() > 0,
        1 <= w,
        0 <= d,
        0 <= h,
        0 <= t,
        readings.len() * (2801 + 8 * d + 112 * h) <= 0x10_0000_0000_0000,
        driven(slam, readings, readings.len()).ekf.state.x.finite(),
        driven(slam, readings, readings.len()).ekf.state.y.finite(),
        forall|k: int|
            0 <= k < readings.len() ==> is_heard(
                driven(slam, readings, k as nat),
                #[trigger] readings[k],
                Transform2D::identity(),
                w,
                d,
                h,
            ) && turns_on(readings, readings[k], 0, k, t),
    ensures
        ({
            let n = readings.len();
            let state = driven(slam, readings, n).ekf.state;
            let pose = readings.last().pose;
            let bound = (n * (2801 + 8 * d + 112 * h)) * w;
            &&& crate::nearness::magnitude_of(state.x.value() - pose.x.value()) <= bound
            &&& crate::nearness::magnitude_of(state.y.value() - pose.y.value()) <= bound
            &&& same_direction(
                state.z.value(),
                pose.theta.value(),
                n * (t + 8 * crate::nearness::last_place()),
            )
        }),
{
    let n = readings.len();
    let still = Transform2D::identity();
    lemma_identity(w);
    crate::transforms::identity_is_neutral(still);
    crate::transforms::a_full_turn_is_two_halves();
    assert(0 * w == 0) by (nonlinear_arith);
    assert(is_placed(slam, still, 0));
    assert forall|k: int| 0 <= k < n implies is_heard(
        driven(slam, readings, k as nat),
        #[trigger] readings[k],
        still,
        w,
        d,
        h,
    ) by {}
    assert forall|k: nat| k <= n implies crate::nearness::has_finite_shift(
        still.compose(&(#[trigger] driven(slam, readings, k)).last_odom_pose),
    ) by {
        if k > 0 {
            let reading = readings[k - 1];
            assert(is_heard(driven(slam, readings, (k - 1) as nat), reading, still, w, d, h));
            crate::transforms::identity_is_neutral(reading.place());
        }
    }
    odometry_telescopes(slam, readings, n, still, w, d, h, 0);
    let last = readings[n - 1];
    assert(is_heard(driven(slam, readings, (n - 1) as nat), last, still, w, d, h));
    crate::transforms::identity_is_neutral(last.place());
    assert(is_turned(0, 0, 0, 0)) by {
        assert(0 * F64::from_bits(TAU).value() == 0) by (nonlinear_arith);
    }
    assert(same_direction(slam.ekf.state.z.value(), 0, 0));
    headings_telescope(slam, readings, n, 0, 0, 0, t);
}

} // verus!
