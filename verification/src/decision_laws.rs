//! What the decisions of the processor mean for places and angles.
use vstd::prelude::*;

use crate::float::double::F64;
use crate::processor::SlamProcessor;
use crate::transforms::{Rotation2, Transform2D};

verus! {

/// The square of the distance between two places.
pub open spec fn squared_distance(a: Transform2D, b: Transform2D) -> int {
    let (dx, dy) = (
        a.shift.x.value() - b.shift.x.value(),
        a.shift.y.value() - b.shift.y.value(),
    );
    dx * dx + dy * dy
}

/// Turning to the left and turning to the right count alike, and a turn by the
/// least rotation or more, either way, has the scan matched.
pub proof fn turns_count_either_way(slam: SlamProcessor, angle: F64)
    ensures
        slam.begun(angle).has_moved == slam.begun(angle.negated()).has_moved,
        ({
            let least = slam.config.min_scan_match_rotation;
            &&& least.finite()
            &&& angle.finite()
            &&& crate::nearness::magnitude_of(angle.value()) >= least.value()
        }) ==> slam.begun(angle).has_moved,
{
    crate::values::absolute_values(angle);
    let least = slam.config.min_scan_match_rotation;
    if least.finite() && angle.finite() {
        crate::values::order_is_by_value(least, angle.abs());
    }
}

/// A scan is matched exactly where the odometry since the last one turned by
/// the least rotation or more, or went as far as the least distance.
pub proof fn scans_are_matched_after_motion(slam: SlamProcessor, angle: F64)
    requires
        angle.finite(),
        slam.config.min_scan_match_rotation.finite(),
        slam.config.min_scan_match_distance.finite(),
        slam.odometry_since_scan().shift.norm().finite(),
    ensures
        ({
            let way = slam.odometry_since_scan().shift;
            let turned = crate::nearness::magnitude_of(angle.value())
                >= slam.config.min_scan_match_rotation.value();
            let least = slam.config.min_scan_match_distance.value();
            let square = way.x.value() * way.x.value() + way.y.value() * way.y.value();
            let rest = 0x1000_0000_0000 * crate::nearness::one_unit();
            &&& slam.begun(angle).has_moved == (turned || way.norm().value() >= least)
            &&& slam.begun(angle).has_moved && !turned && least >= 0 ==> 0x80_0000_0000 * (least
                * least) <= square * 0x80_0000_0001 + rest
            &&& !slam.begun(angle).has_moved ==> !turned && least > 0 && square
                * 0x7f_ffff_ffff <= 0x80_0000_0000 * (least * least) + rest
        }),
{
    let way = slam.odometry_since_scan().shift;
    let least = slam.config.min_scan_match_distance;
    crate::values::absolute_values(angle);
    crate::values::order_is_by_value(slam.config.min_scan_match_rotation, angle.abs());
    crate::values::order_is_by_value(least, way.norm());
    lemma_reached(way, least.value());
}

/// What reaching a bound, or not, says of a vector.
proof fn lemma_reached(v: crate::linear::Vec2, r: int)
    requires
        v.norm().finite(),
    ensures
        ({
            let square = v.x.value() * v.x.value() + v.y.value() * v.y.value();
            let rest = 0x1000_0000_0000 * crate::nearness::one_unit();
            &&& v.norm().value() >= 0
            &&& 0 <= r <= v.norm().value() ==> 0x80_0000_0000 * (r * r) <= square * 0x80_0000_0001
                + rest
            &&& v.norm().value() < r ==> square * 0x7f_ffff_ffff <= 0x80_0000_0000 * (r * r) + rest
        }),
{
    crate::values::plane_lengths(v);
    crate::values::lemma_square(v.x.value());
    crate::values::lemma_square(v.y.value());
    vstd::arithmetic::power2::lemma_pow2_pos(1074);
    let square = v.x.value() * v.x.value() + v.y.value() * v.y.value();
    let n = v.norm().value();
    assert(crate::values::spans(n, square));
    crate::values::lemma_bounded_span(n, square, r);
    if 0 <= r <= n {
        assert(r * r <= n * n) by (nonlinear_arith)
            requires
                0 <= r <= n,
        ;
    }
}

/// A keyframe is added exactly after a turn, either way, by the rotation between
/// keyframes, or after a way as long as the distance between them.
pub proof fn keyframes_are_added_after_motion(
    slam: SlamProcessor,
    heading: Rotation2,
    angle: F64,
)
    requires
        slam.keyframes@.len() > 0,
        angle.finite(),
        slam.config.keyframe_rotation.finite(),
        slam.config.keyframe_distance.finite(),
        slam.keyframe_motion(heading).shift.norm().finite(),
    ensures
        ({
            let way = slam.keyframe_motion(heading).shift;
            let turned = crate::nearness::magnitude_of(angle.value())
                >= slam.config.keyframe_rotation.value();
            let least = slam.config.keyframe_distance.value();
            let square = way.x.value() * way.x.value() + way.y.value() * way.y.value();
            let rest = 0x1000_0000_0000 * crate::nearness::one_unit();
            let adds = slam.should_add_keyframe(heading, angle);
            &&& adds == (turned || way.norm().value() >= least)
            &&& adds && !turned && least >= 0 ==> 0x80_0000_0000 * (least * least) <= square
                * 0x80_0000_0001 + rest
            &&& !adds ==> !turned && least > 0 && square * 0x7f_ffff_ffff <= 0x80_0000_0000 * (least
                * least) + rest
            &&& adds == slam.should_add_keyframe(heading, angle.negated())
        }),
{
    let way = slam.keyframe_motion(heading).shift;
    let least = slam.config.keyframe_distance;
    crate::values::absolute_values(angle);
    crate::values::order_is_by_value(slam.config.keyframe_rotation, angle.abs());
    crate::values::order_is_by_value(least, way.norm());
    lemma_reached(way, least.value());
}

/// A keyframe with which a loop may be closed lies within the search radius of
/// the last one.
pub proof fn closures_lie_within_the_radius(slam: SlamProcessor, id: usize)
    requires
        slam.keyframes@.len() > 0,
        slam.may_close(id),
        slam.config.loop_closure_search_radius.finite(),
        ({
            let (last, own) = (slam.keyframes@.last().pose, slam.keyframes@[id as int].pose);
            crate::nearness::has_finite_shift(last) && crate::nearness::has_finite_shift(own)
        }),
    ensures
        ({
            let r = slam.config.loop_closure_search_radius.value();
            let (last, own) = (slam.keyframes@.last().pose, slam.keyframes@[id as int].pose);
            &&& r >= 0
            &&& squared_distance(last, own) * 0x7f_ffff_ffff <= 0x80_0000_0000 * (r * r)
                + 0x1000_0000_0000 * crate::nearness::one_unit()
        }),
{
    let radius = slam.config.loop_closure_search_radius;
    let (last, own) = (slam.keyframes@.last().pose, slam.keyframes@[id as int].pose);
    let gap = last.shift.minus(own.shift);
    lemma_difference_has_value(last.shift.x, own.shift.x);
    lemma_difference_has_value(last.shift.y, own.shift.y);
    crate::values::lengths_have_values(gap);
    reveal(F64::spec_less);
    crate::values::infinities_exceed(gap.norm(), radius);
    crate::values::distances_between_places(last.shift, own.shift);
    lemma_squared_distance(last, own);
    crate::values::lemma_bounded_span(
        gap.norm().value(),
        squared_distance(last, own),
        radius.value(),
    );
}

proof fn lemma_squared_distance(a: Transform2D, b: Transform2D)
    ensures
        squared_distance(a, b) >= 0,
{
    crate::values::lemma_square(a.shift.x.value() - b.shift.x.value());
    crate::values::lemma_square(a.shift.y.value() - b.shift.y.value());
}

/// The difference of finite numbers has a value.
proof fn lemma_difference_has_value(a: F64, b: F64)
    requires
        a.finite(),
        b.finite(),
    ensures
        !a.minus(b).nan(),
{
    let f = crate::float::rounding::Format::double();
    let n = crate::nearness::magnitude_of(a.value() - b.value()) as nat;
    reveal(F64::spec_plus);
    crate::nearness::lemma_negated(b);
    f.lemma_rounded_bound(n, 1);
    f.lemma_signed(true, f.rounded(n, 1));
    f.lemma_signed(false, f.rounded(n, 1));
    f.lemma_signed(true, 0);
    f.lemma_signed(false, 0);
}

/// A keyframe that is far enough back and lies within the search radius of the
/// last one may close a loop.
pub proof fn near_keyframes_may_close(slam: SlamProcessor, id: usize)
    requires
        slam.keyframes@.len() > 0,
        id + slam.config.loop_closure_min_nodes < slam.keyframes@.len() - 1,
        slam.config.loop_closure_search_radius.finite(),
        slam.config.loop_closure_search_radius.value() >= 0,
        ({
            let (last, own) = (slam.keyframes@.last().pose, slam.keyframes@[id as int].pose);
            let r = slam.config.loop_closure_search_radius.value();
            &&& last.shift.minus(own.shift).norm().finite()
            &&& squared_distance(last, own) * 0x80_0000_0001 + 0x1000_0000_0000
                * crate::nearness::one_unit() <= 0x80_0000_0000 * (r * r)
        }),
    ensures
        slam.may_close(id),
{
    let radius = slam.config.loop_closure_search_radius;
    let (last, own) = (slam.keyframes@.last().pose, slam.keyframes@[id as int].pose);
    let gap = last.shift.minus(own.shift);
    crate::values::distances_between_places(last.shift, own.shift);
    crate::values::order_is_by_value(radius, gap.norm());
    lemma_squared_distance(last, own);
    crate::values::lemma_bounded_span(
        gap.norm().value(),
        squared_distance(last, own),
        radius.value(),
    );
}

/// A keyframe may close a loop up to the very radius, and not beyond.
pub proof fn the_radius_is_included(slam: SlamProcessor, id: usize)
    requires
        slam.keyframes@.len() > 0,
        id < slam.keyframes@.len(),
        slam.config.loop_closure_search_radius.finite(),
        slam.keyframes@.last().pose.shift.minus(
            slam.keyframes@[id as int].pose.shift,
        ).norm().finite(),
    ensures
        ({
            let gap = slam.keyframes@.last().pose.shift.minus(
                slam.keyframes@[id as int].pose.shift,
            );
            slam.may_close(id) == (slam.keyframes@.len() - 1 - id
                > slam.config.loop_closure_min_nodes && gap.norm().value()
                <= slam.config.loop_closure_search_radius.value())
        }),
{
    crate::values::order_is_by_value(
        slam.config.loop_closure_search_radius,
        slam.keyframes@.last().pose.shift.minus(slam.keyframes@[id as int].pose.shift).norm(),
    );
}

/// The pose with its coordinates exchanged.
pub open spec fn with_axes_exchanged(pose: Transform2D) -> crate::linear::Vec2 {
    crate::linear::Vec2 { x: pose.shift.y, y: pose.shift.x }
}

/// Whether a loop may be closed does not depend on which axis is called x.
pub proof fn closures_have_no_axis(slam: SlamProcessor, other: SlamProcessor, id: usize)
    requires
        slam.keyframes@.len() > 0,
        other.keyframes@.len() == slam.keyframes@.len(),
        other.config == slam.config,
        forall|i: int|
            0 <= i < slam.keyframes@.len() ==> (#[trigger] other.keyframes@[i]).pose.shift
                == with_axes_exchanged(slam.keyframes@[i].pose),
    ensures
        slam.may_close(id) == other.may_close(id),
{
    let last = slam.keyframes@.len() - 1;
    if id + slam.config.loop_closure_min_nodes < last {
        assert(other.keyframes@[last].pose.shift == with_axes_exchanged(
            slam.keyframes@[last].pose,
        ));
        assert(other.keyframes@[id as int].pose.shift == with_axes_exchanged(
            slam.keyframes@[id as int].pose,
        ));
        crate::values::lengths_have_no_axis(
            slam.keyframes@[last].pose.shift.minus(slam.keyframes@[id as int].pose.shift),
        );
    }
}

/// Following the odometry since the last scan from where it was then leads to
/// where it is now.
pub proof fn odometry_since_the_scan_leads_here(slam: SlamProcessor, w: int, d: int)
    requires
        crate::nearness::within(slam.last_scan_odom_pose, 2, w),
        crate::nearness::within(slam.last_odom_pose, 2, w),
        1 <= w,
        crate::nearness::unit_within(slam.last_scan_odom_pose.turn, d),
        crate::nearness::has_finite_shift(
            slam.last_scan_odom_pose.compose(&slam.odometry_since_scan()),
        ),
    ensures
        crate::nearness::agree(
            slam.last_scan_odom_pose.compose(&slam.odometry_since_scan()),
            slam.last_odom_pose,
            200 + 2 * d,
            513 * w + 2 * (d * w),
        ),
{
    crate::nearness::relative_transforms_lead_to_their_target(
        slam.last_scan_odom_pose,
        slam.last_odom_pose,
        w,
        d,
    );
}

/// Following the motion since the last keyframe from its pose leads to where
/// the filter is.
pub proof fn keyframe_motions_lead_here(
    slam: SlamProcessor,
    heading: Rotation2,
    w: int,
    d: int,
)
    requires
        crate::nearness::within(slam.last_keyframe_pose, 2, w),
        crate::nearness::within(slam.ekf.pose(heading), 2, w),
        1 <= w,
        crate::nearness::unit_within(slam.last_keyframe_pose.turn, d),
        crate::nearness::has_finite_shift(
            slam.last_keyframe_pose.compose(&slam.keyframe_motion(heading)),
        ),
    ensures
        crate::nearness::agree(
            slam.last_keyframe_pose.compose(&slam.keyframe_motion(heading)),
            Transform2D::new(slam.ekf.state.x, slam.ekf.state.y, heading),
            200 + 2 * d,
            513 * w + 2 * (d * w),
        ),
{
    crate::nearness::relative_transforms_lead_to_their_target(
        slam.last_keyframe_pose,
        slam.ekf.pose(heading),
        w,
        d,
    );
}

/// The guess for a closure leads from the earlier keyframe to the last one.
pub proof fn closure_guesses_lead_to_the_last_keyframe(
    slam: SlamProcessor,
    id: usize,
    w: int,
    d: int,
)
    requires
        id < slam.keyframes@.len(),
        crate::nearness::within(slam.keyframes@[id as int].pose, 2, w),
        crate::nearness::within(slam.keyframes@.last().pose, 2, w),
        1 <= w,
        crate::nearness::unit_within(slam.keyframes@[id as int].pose.turn, d),
        crate::nearness::has_finite_shift(
            slam.keyframes@[id as int].pose.compose(&slam.closure_guess(id)),
        ),
    ensures
        crate::nearness::agree(
            slam.keyframes@[id as int].pose.compose(&slam.closure_guess(id)),
            slam.keyframes@.last().pose,
            200 + 2 * d,
            513 * w + 2 * (d * w),
        ),
{
    crate::nearness::relative_transforms_lead_to_their_target(
        slam.keyframes@[id as int].pose,
        slam.keyframes@.last().pose,
        w,
        d,
    );
}

/// The guess for a scan leads from its reference to where the filter is; the
/// gyro, where it saw something, replaces the rotation and nothing else.
pub proof fn scan_guesses_lead_to_the_filter(
    slam: SlamProcessor,
    work: crate::processor::ScanWork,
    heading: Rotation2,
    yaw: Rotation2,
    w: int,
    d: int,
)
    requires
        slam.accepts(work),
        work.has_moved,
        work.reference is Some,
        ({
            let own = slam.keyframes@[work.reference->0 as int].pose;
            &&& crate::nearness::within(own, 2, w)
            &&& crate::nearness::within(slam.ekf.pose(heading), 2, w)
            &&& crate::nearness::unit_within(own.turn, d)
            &&& crate::nearness::has_finite_shift(
                own.compose(&slam.guess(work, heading, yaw)->0),
            )
        }),
        1 <= w,
    ensures
        ({
            let own = slam.keyframes@[work.reference->0 as int].pose;
            let guess = slam.guess(work, heading, yaw)->0;
            let here = Transform2D::new(slam.ekf.state.x, slam.ekf.state.y, heading);
            let placed = own.compose(&guess);
            let seen = work.imu_delta matches Some(delta) && delta.sample_count > 0;
            &&& slam.guess(work, heading, yaw) is Some
            &&& seen ==> guess.turn == yaw
            &&& !seen ==> crate::nearness::agree(
                placed,
                here,
                200 + 2 * d,
                513 * w + 2 * (d * w),
            )
            &&& crate::nearness::magnitude_of(placed.shift.x.value() - here.shift.x.value()) <= 513
                * w + 2 * (d * w)
            &&& crate::nearness::magnitude_of(placed.shift.y.value() - here.shift.y.value()) <= 513
                * w + 2 * (d * w)
        }),
{
    let own = slam.keyframes@[work.reference->0 as int].pose;
    crate::nearness::relative_transforms_lead_to_their_target(
        own,
        slam.ekf.pose(heading),
        w,
        d,
    );
}

/// A new keyframe lies where the step to it leads from the one before it, and
/// all steps weigh the same in every direction: a hundred, and nothing across.
pub proof fn steps_lead_to_the_new_keyframe(
    slam: SlamProcessor,
    pose: Transform2D,
    w: int,
    d: int,
)
    requires
        slam.keyframes@.len() > 0,
        crate::nearness::within(slam.keyframes@.last().pose, 2, w),
        crate::nearness::within(pose, 2, w),
        1 <= w,
        crate::nearness::unit_within(slam.keyframes@.last().pose.turn, d),
        crate::nearness::has_finite_shift(
            slam.keyframes@.last().pose.compose(&slam.sequential_edge(pose).measurement),
        ),
    ensures
        ({
            let edge = slam.sequential_edge(pose);
            let m = edge.information;
            let full = 100 * crate::nearness::one_unit();
            &&& crate::nearness::agree(
                slam.keyframes@.last().pose.compose(&edge.measurement),
                pose,
                200 + 2 * d,
                513 * w + 2 * (d * w),
            )
            &&& m.r0.x.value() == full && m.r0.y.value() == 0 && m.r0.z.value() == 0
            &&& m.r1.x.value() == 0 && m.r1.y.value() == full && m.r1.z.value() == 0
            &&& m.r2.x.value() == 0 && m.r2.y.value() == 0 && m.r2.z.value() == full
        }),
{
    crate::nearness::relative_transforms_lead_to_their_target(
        slam.keyframes@.last().pose,
        pose,
        w,
        d,
    );
    let k = F64::from_bits(crate::processor::SEQUENTIAL_WEIGHT);
    let zero = F64::from_bits(0);
    crate::values::lemma_hundred();
    crate::float::double::one_is_neutral(k);
    crate::float::double::zero_absorbs(k, zero);
    crate::float::double::zero_has_no_value(zero.times(k));
}

/// A match corrects the filter exactly where its score exceeds one half. The
/// position that the filter hears of is that of the match, seen from the
/// reference; a success forgets the failures, and anything else is one more.
pub proof fn good_matches_correct_the_filter(
    slam: SlamProcessor,
    work: crate::processor::ScanWork,
    m: crate::scan_matcher::ScanMatchResult,
    angle: F64,
)
    requires
        work.reference is Some,
        m.score.finite(),
        slam.consecutive_match_failures < u32::MAX,
    ensures
        ({
            let after = slam.corrected(work, Some(m), angle);
            let good = 2 * m.score.value() > crate::nearness::one_unit();
            let q = slam.keyframes@[work.reference->0 as int].pose.transform_point(
                m.transform.shift,
            );
            &&& work.with_match(Some(m)).matched == good
            &&& work.with_match(Some(m)).score == m.score
            &&& good ==> after.ekf == slam.ekf.updated(
                crate::linear::Vec3 { x: q.x, y: q.y, z: angle },
                m.covariance,
            ) && after.consecutive_match_failures == 0
            &&& !good ==> after.ekf == slam.ekf && after.consecutive_match_failures
                == slam.consecutive_match_failures + 1
            &&& after.keyframes == slam.keyframes
            &&& after.edges == slam.edges
            &&& slam.corrected(work, None, angle).ekf == slam.ekf
            &&& slam.corrected(work, None, angle).consecutive_match_failures
                == slam.consecutive_match_failures + 1
            &&& !work.with_match(None).matched
        }),
{
    let own = slam.keyframes@[work.reference->0 as int].pose;
    crate::values::lemma_half();
    crate::values::order_is_by_value(
        F64::from_bits(crate::processor::TRUSTED_SCORE),
        m.score,
    );
    let turned = own.turn.rotate(m.transform.shift);
    crate::float::double::sums_commute(turned.x, own.shift.x);
    crate::float::double::sums_commute(turned.y, own.shift.y);
}

/// A match closes a loop only where its score reaches the threshold and the
/// length of its way agrees with the odometry between the keyframes: the two
/// differ by no more than the allowed number of standard deviations, be the way
/// too long or too short. The deviation, `s`, is the root of the variances
/// along both axes; where it is nothing, nothing disagrees.
pub proof fn closures_agree_with_odometry(
    slam: SlamProcessor,
    id: usize,
    result: crate::scan_matcher::ScanMatchResult,
) -> (s: int)
    requires
        ({
            let driven = slam.accumulated_odom_distance(
                id,
                (slam.keyframes@.len() - 1) as usize,
            );
            let sigma = result.covariance.r0.x.plus(result.covariance.r1.y).sqrt();
            let most = slam.config.loop_closure_max_disagreement_sigma;
            &&& result.score.finite()
            &&& slam.config.loop_closure_threshold.finite()
            &&& result.transform.shift.norm().minus(driven).finite()
            &&& sigma.finite()
            &&& most.times(sigma).finite()
        }),
    ensures
        ({
            let (u, e) = (crate::nearness::one_unit(), 0x10_0000_0000_0000int);
            let driven = slam.accumulated_odom_distance(
                id,
                (slam.keyframes@.len() - 1) as usize,
            ).value();
            let way = result.transform.shift;
            let gap = crate::nearness::magnitude_of(way.norm().value() - driven);
            let variance = result.covariance.r0.x.value() + result.covariance.r1.y.value();
            let most = slam.config.loop_closure_max_disagreement_sigma.value();
            let good = slam.config.loop_closure_threshold.value() <= result.score.value();
            let m = crate::nearness::magnitude_of(most * s);
            let closes = slam.closure(id, result) is Some;
            &&& s >= 0
            &&& crate::nearness::magnitude_of(s * s - variance * u) * e <= 8 * (s * s)
                + crate::nearness::magnitude_of(variance) * u + 2 * (e * u)
            &&& crate::values::is_length(
                way.norm().value(),
                way.x.value() * way.x.value() + way.y.value() * way.y.value(),
            )
            &&& closes ==> good
            &&& closes && s > 0 ==> (gap * 0xf_ffff_ffff_ffff) * u <= (most * s) * e + m + 2 * (e
                * u)
            &&& good && !closes ==> s > 0 && (most * s) * e <= (gap * 0x10_0000_0000_0001) * u + m
                + 2 * (e * u)
        }),
{
    let (u, e) = (crate::nearness::one_unit(), 0x10_0000_0000_0000int);
    vstd::arithmetic::power2::lemma_pow2_pos(1074);
    let driven = slam.accumulated_odom_distance(id, (slam.keyframes@.len() - 1) as usize);
    let (c, d) = (result.covariance.r0.x, result.covariance.r1.y);
    let sigma = c.plus(d).sqrt();
    let most = slam.config.loop_closure_max_disagreement_sigma;
    let length = result.transform.shift.norm();
    let zero = F64::from_bits(0);
    crate::values::order_is_by_value(slam.config.loop_closure_threshold, result.score);
    crate::values::roots_are_about_exact(c.plus(d));
    crate::values::sums_are_about_exact(c, d);
    let s = sigma.value();
    let variance = c.value() + d.value();
    crate::values::lemma_scaled_error(c.plus(d).value(), variance, u);
    assert(crate::nearness::magnitude_of(variance * u) == crate::nearness::magnitude_of(variance)
        * u) by {
        let k = crate::nearness::magnitude_of(variance);
        assert(variance * u == k * u || variance * u == -(k * u)) by (nonlinear_arith)
            requires
                variance == k || variance == -k,
        ;
        assert(k * u >= 0) by (nonlinear_arith)
            requires
                k >= 0,
                u > 0,
        ;
    }
    crate::values::differences_are_about_exact(length, driven);
    crate::values::plane_lengths(result.transform.shift);
    crate::values::products_are_about_exact(most, sigma);
    crate::float::double::zero_has_no_value(zero);
    crate::values::order_is_by_value(zero, sigma);
    let difference = length.minus(driven);
    crate::values::absolute_values(difference);
    crate::values::order_is_by_value(most.times(sigma), difference.abs());
    let (g, v) = (difference.abs().value(), most.times(sigma).value());
    let gap = crate::nearness::magnitude_of(length.value() - driven.value());
    assert(g < v ==> g * u < v * u) by (nonlinear_arith)
        requires
            u > 0,
    ;
    assert(v <= g ==> v * u <= g * u) by (nonlinear_arith)
        requires
            u > 0,
    ;
    assert((gap * 0xf_ffff_ffff_ffff) * u <= (g * u) * e + e * u) by (nonlinear_arith)
        requires
            gap * e <= g * e + gap + e,
            e == 0x10_0000_0000_0000,
            u > 0,
    ;
    assert((g * u) * e <= (gap * 0x10_0000_0000_0001) * u + e * u) by (nonlinear_arith)
        requires
            g * e <= gap * e + gap + e,
            e == 0x10_0000_0000_0000,
            u > 0,
    ;
    s
}

/// The information of a match is the inverse of its covariance; without one it
/// grows with the square of the score, the same along every axis.
pub proof fn information_comes_from_the_covariance(result: crate::scan_matcher::ScanMatchResult)
    ensures
        ({
            let m = crate::processor::compute_information(&result);
            match result.covariance.try_inverse() {
                Some(inverse) => m == inverse,
                None => {
                    let weight = result.score.times(result.score).times(
                        F64::from_bits(crate::processor::SCORE_WEIGHT),
                    );
                    weight.finite() ==> {
                        &&& m.r0.x == weight && m.r1.y == weight && m.r2.z == weight
                        &&& m.r0.y.value() == 0 && m.r0.z.value() == 0 && m.r1.x.value() == 0
                        &&& m.r1.z.value() == 0 && m.r2.x.value() == 0 && m.r2.y.value() == 0
                    }
                },
            }
        }),
{
    let weight = result.score.times(result.score).times(
        F64::from_bits(crate::processor::SCORE_WEIGHT),
    );
    let zero = F64::from_bits(0);
    if weight.finite() {
        crate::float::double::one_is_neutral(weight);
        crate::float::double::zero_absorbs(weight, zero);
        crate::float::double::zero_has_no_value(zero.times(weight));
    }
}

/// A closure joins the earlier keyframe to the last one by the way that was
/// matched, with the information of the match.
pub proof fn closures_join_what_was_matched(
    slam: SlamProcessor,
    id: usize,
    result: crate::scan_matcher::ScanMatchResult,
)
    requires
        slam.keyframes@.len() > 0,
        slam.closure(id, result) is Some,
    ensures
        ({
            let edge = slam.closure(id, result)->0;
            &&& edge.from_id == id
            &&& edge.to_id == slam.keyframes@.len() - 1
            &&& edge.is_loop_closure
            &&& edge.measurement.shift.x == result.transform.shift.x
            &&& edge.measurement.shift.y == result.transform.shift.y
            &&& edge.measurement.turn.cos == result.transform.turn.cos
            &&& edge.measurement.turn.sin == result.transform.turn.sin
            &&& result.covariance.try_inverse() matches Some(m) ==> edge.information == m
        }),
{
    information_comes_from_the_covariance(result);
    assert(slam.keyframes.len() <= usize::MAX);
}

/// A robot is looked for after ten failures in a row on a map of two keyframes
/// or more, while it moves, and two seconds after the last attempt; the attempt
/// is remembered, and nothing else changes.
pub proof fn lost_robots_are_looked_for(
    slam: SlamProcessor,
    work: crate::processor::ScanWork,
    now: u64,
)
    ensures
        ({
            let after = slam.searching(work, now);
            let rested = match slam.last_relocalization_attempt {
                Some(t) => t + 2_000_000_000 <= now,
                None => true,
            };
            let lost = slam.consecutive_match_failures > 9 && slam.keyframes@.len() > 1
                && work.has_moved && !work.matched;
            &&& slam.is_lost(work, now) == (lost && rested)
            &&& lost && rested ==> after.last_relocalization_attempt == Some(now)
            &&& !(lost && rested) ==> after == slam
            &&& after.keyframes == slam.keyframes
            &&& after.ekf == slam.ekf
            &&& after.consecutive_match_failures == slam.consecutive_match_failures
        }),
{
}

/// A robot that is found goes on from where it was found: the filter stands at
/// the place, as certain as before, the next scan is matched against the
/// keyframe, and the failures are forgotten.
pub proof fn found_robots_go_on(
    slam: SlamProcessor,
    id: usize,
    place: Transform2D,
    angle: F64,
    rotation: F64,
    turn: Rotation2,
    work: crate::processor::ScanWork,
    now: u64,
)
    ensures
        ({
            let after = slam.resumed(id, place, angle);
            &&& after.ekf.pose(turn).shift == place.shift
            &&& after.ekf.state.z == angle
            &&& after.ekf.covariance == slam.ekf.covariance
            &&& after.begun(rotation).reference == Some(id)
            &&& after.last_keyframe_pose == place
            &&& !after.is_lost(work, now)
            &&& after.keyframes == slam.keyframes
            &&& after.edges == slam.edges
        }),
{
}

/// A scan is matched against the chosen keyframe, or else against the last.
pub proof fn references_are_chosen_or_last(slam: SlamProcessor, rotation: F64)
    ensures
        match slam.reference_keyframe_idx {
            Some(i) => slam.begun(rotation).reference == Some(i),
            None => if slam.keyframes@.len() > 0 {
                slam.begun(rotation).reference matches Some(i) && i == slam.keyframes@.len() - 1
            } else {
                slam.begun(rotation).reference is None
            },
        },
        slam.begun(rotation).imu_delta == slam.pending_imu_delta,
        slam.scanning().last_scan_odom_pose == slam.last_odom_pose,
{
    assert(slam.keyframes.len() <= usize::MAX);
}

/// After a keyframe was added, it is what later scans are matched against and
/// what motion is measured from.
pub proof fn new_keyframes_become_the_reference(slam: SlamProcessor, rotation: F64)
    requires
        slam.keyframes@.len() > 0,
    ensures
        ({
            let after = slam.settled();
            let last = slam.keyframes@.len() - 1;
            &&& after.begun(rotation).reference matches Some(i) && i == last
            &&& after.last_keyframe_pose == slam.keyframes@[last].pose
            &&& after.ekf == slam.ekf
            &&& after.keyframes == slam.keyframes
            &&& after.edges == slam.edges
        }),
{
    assert(slam.keyframes.len() <= usize::MAX);
}

/// A scan that did not correct the filter extends no map that has a keyframe,
/// and one that did extends it where the robot moved on.
pub proof fn unmatched_scans_extend_no_map(
    slam: SlamProcessor,
    work: crate::processor::ScanWork,
    heading: Rotation2,
    angle: F64,
)
    requires
        slam.keyframes@.len() > 0,
    ensures
        !work.matched ==> !slam.wants_keyframe(&work, heading, angle),
        work.matched ==> slam.wants_keyframe(&work, heading, angle) == slam.should_add_keyframe(
            heading,
            angle,
        ),
{
}

/// The filter of a new processor stands at the origin and grows uncertain as
/// the settings say.
pub proof fn filters_follow_the_settings(config: crate::config::SlamConfig, turn: Rotation2)
    ensures
        ({
            let ekf = crate::ekf::PoseEkf::new(&config);
            &&& ekf.noise.linear_noise == config.odom_linear_noise
            &&& ekf.noise.angular_noise == config.odom_angular_noise
            &&& ekf.noise.linear_to_angular_noise == config.odom_linear_to_angular_noise
            &&& ekf.noise.angular_to_linear_noise == config.odom_angular_to_linear_noise
            &&& ekf.state.x.zero() && ekf.state.y.zero() && ekf.state.z.zero()
        }),
{
}

/// A new keyframe stands where the filter does, holds the scan, and is joined
/// to the one before it by the way between the two.
pub proof fn new_keyframes_stand_at_the_filter(
    slam: SlamProcessor,
    after: SlamProcessor,
    scan: std::sync::Arc<crate::types::PointCloud>,
    descriptor: crate::scan_context::ScanContextDescriptor,
    heading: Rotation2,
    now: u64,
    w: int,
    d: int,
)
    requires
        slam.gains_keyframe(&after, scan, descriptor, heading, now),
        slam.keyframes@.len() > 0,
        1 <= w,
        ({
            let (last, own) = (slam.keyframes@.last().pose, after.keyframes@.last().pose);
            &&& crate::nearness::within(last, 2, w)
            &&& crate::nearness::within(own, 2, w)
            &&& crate::nearness::unit_within(last.turn, d)
            &&& crate::nearness::has_finite_shift(
                last.compose(&after.edges@.last().measurement),
            )
        }),
    ensures
        ({
            let (last, own) = (slam.keyframes@.last(), after.keyframes@.last());
            let edge = after.edges@.last();
            &&& own.pose.shift.x == slam.ekf.state.x
            &&& own.pose.shift.y == slam.ekf.state.y
            &&& own.pose.turn == heading
            &&& own.scan == scan
            &&& own.timestamp == now
            &&& own.id == slam.keyframes@.len()
            &&& after.edges@.len() == slam.edges@.len() + 1
            &&& edge.from_id == last.id
            &&& edge.to_id == own.id
            &&& !edge.is_loop_closure
            &&& crate::nearness::agree(
                last.pose.compose(&edge.measurement),
                own.pose,
                200 + 2 * d,
                513 * w + 2 * (d * w),
            )
            &&& after.scan_context_db@.last().0 == own.id
            &&& after.scan_context_db@.last().1 == descriptor
        }),
{
    assert(slam.keyframes.len() <= usize::MAX);
    let pose = slam.ekf.pose(heading);
    assert(after.edges@.last() == slam.sequential_edge(pose));
    crate::nearness::relative_transforms_lead_to_their_target(
        slam.keyframes@.last().pose,
        pose,
        w,
        d,
    );
}

/// The matchers of a processor follow its settings; a lost robot is looked for
/// with the same voxels and precision, but more patiently and from farther off.
pub proof fn matchers_follow_the_settings(config: crate::config::SlamConfig)
    ensures
        ({
            let own = SlamProcessor::matching(config);
            let lost = SlamProcessor::relocating(config);
            &&& own.resolution == config.voxel_size
            &&& own.max_iterations == config.max_iterations
            &&& own.convergence_threshold == config.convergence_threshold
            &&& own.max_correspondence_dist == config.max_correspondence_dist
            &&& own.min_overlap == config.min_overlap
            &&& lost.resolution == config.voxel_size
            &&& lost.convergence_threshold == config.convergence_threshold
            &&& lost.max_iterations == 50
            &&& crate::constant_laws::is_ratio(lost.max_correspondence_dist.bits, 5, 1)
            &&& crate::constant_laws::is_ratio(lost.min_overlap.bits, 1, 10)
        }),
{
    crate::constant_laws::constants_are_what_they_are_called();
}

/// Poses are told as they are: that of the filter, the same as in the update
/// of a scan, and those of the keyframes.
pub proof fn poses_are_told_as_they_are(
    slam: SlamProcessor,
    work: crate::processor::ScanWork,
    added: bool,
    closed: bool,
    heading: Rotation2,
    angle: F64,
    i: int,
)
    ensures
        slam.current_pose(angle).x == slam.ekf.state.x,
        slam.current_pose(angle).y == slam.ekf.state.y,
        slam.current_pose(angle).theta == angle,
        slam.report(work, added, closed, heading, angle) matches Some(u) ==> u.world_pose
            == slam.finished(heading).current_pose(angle),
        slam.keyframe_place(i, angle).0 == slam.keyframes@[i].pose.shift.x,
        slam.keyframe_place(i, angle).1 == slam.keyframes@[i].pose.shift.y,
        slam.keyframe_place(i, angle).2 == angle,
{
}

/// The covariance of a match times its information is the identity, in every
/// entry, but for rounding against the size of the determinant.
pub proof fn information_undoes_the_covariance(
    result: crate::scan_matcher::ScanMatchResult,
    k: int,
    row: int,
    column: int,
)
    requires
        0 <= row < 3,
        0 <= column < 3,
        1 <= k,
        64 * (k * (k * (k * crate::nearness::last_place())))
            <= vstd::arithmetic::power2::pow2(2044),
        crate::graph_laws::is_bounded_matrix(
            result.covariance,
            k * crate::nearness::one_unit(),
        ),
        !result.covariance.determinant().zero(),
        crate::graph_laws::is_finite(crate::processor::compute_information(&result)),
    ensures
        ({
            let u = crate::nearness::one_unit();
            let s = k * (k * (k * crate::nearness::last_place()));
            let d = result.covariance.determinant().value();
            let product = crate::graph_laws::exact_dot(
                result.covariance.row(row),
                crate::processor::compute_information(&result).column(column),
            );
            let exact = if row == column {
                u * u
            } else {
                0
            };
            crate::nearness::magnitude_of((product - exact) * d) <= 70 * (s * (u * u)) + 3 * ((k
                * u) * crate::nearness::magnitude_of(d))
        }),
{
    let m = crate::processor::compute_information(&result);
    assert(m.entry(0, column).finite() && m.entry(1, column).finite() && m.entry(
        2,
        column,
    ).finite());
    crate::inverse_laws::inverses_invert(result.covariance, k, row, column);
}

} // verus!
