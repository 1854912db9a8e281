//! What a match means for points and places.
use vstd::arithmetic::power2::*;
use vstd::prelude::*;

use super::normal::{Attitude, Mat6, Nearest, Scans, Vec6};
use super::{planar, CorrelativeScanMatcher, MatchSession, ScanPair};
use crate::float::double::F64;
use crate::float::single::F32;
use crate::linear::{Mat3, Vec3};
use crate::transforms::{Rotation2, Transform2D};

verus! {

/// The squared distance up to which points correspond is the square of the
/// configured distance, in single precision.
pub proof fn the_limit_is_the_squared_distance(
    matcher: CorrelativeScanMatcher,
    pair: ScanPair,
    reference: Seq<Mat3>,
    current: Seq<Mat3>,
    guess: Transform2D,
    yaw: F64,
    session: MatchSession,
)
    requires
        matcher.starts(pair, reference, current, &guess, yaw, session),
        matcher.config.max_correspondence_dist.finite(),
    ensures
        ({
            let d = matcher.config.max_correspondence_dist.value();
            let limit = session.scans.max_dist_sq;
            &&& limit.finite() ==> crate::nearness::magnitude_of(
                limit.value() * pow2(1999) - d * d,
            ) * 0x40_0000 <= d * d + 0x40_0000 * pow2(2001)
            &&& forall|m: F32| #[trigger] m.finite() && m.value() * pow2(1999) == d * d
                ==> limit.finite() && limit.value() == m.value()
        }),
{
    let dist = matcher.config.max_correspondence_dist;
    let limit = session.scans.max_dist_sq;
    let square = dist.times(dist);
    let d = dist.value();
    lemma_pow2_adds(925, 1074);
    lemma_pow2_adds(2, 1999);
    lemma2_to64();
    lemma_pow2_pos(925);
    lemma_pow2_pos(1074);
    crate::values::lemma_square(d);
    if limit.finite() {
        lemma_narrowed_parts(square);
        crate::values::products_are_about_exact(dist, dist);
        crate::values::narrowing_is_about_exact(square);
        let (p, m) = (square.value(), limit.value());
        let (u, h) = (crate::nearness::one_unit(), pow2(925) as int);
        let (pu, mh) = (p * u, (m * h) * u);
        assert(mh == m * pow2(1999)) by (nonlinear_arith)
            requires
                mh == (m * h) * u,
                pow2(1999) == h * u,
        ;
        let gap = m * h - p;
        assert(mh - pu == gap * u) by (nonlinear_arith)
            requires
                mh == (m * h) * u,
                pu == p * u,
                gap == m * h - p,
        ;
        let (k, n) = (crate::nearness::magnitude_of(gap), crate::nearness::magnitude_of(p));
        assert(gap * u == k * u || gap * u == -(k * u)) by (nonlinear_arith)
            requires
                gap == k || gap == -k,
        ;
        assert(pu == n * u || pu == -(n * u)) by (nonlinear_arith)
            requires
                pu == p * u,
                p == n || p == -n,
        ;
        assert((k * u) * 0x80_0000 <= n * u + 0x80_0000 * (h * u) && k * u >= 0 && n * u >= 0)
            by (nonlinear_arith)
            requires
                k * 0x80_0000 <= n + 0x80_0000 * h,
                u > 0,
                k >= 0,
                n >= 0,
        ;
        lemma_pow2_strictly_increases(1074, 1999);
    }
    assert forall|m: F32| #[trigger] m.finite() && m.value() * pow2(1999) == d * d implies
        limit.finite() && limit.value() == m.value() by {
        lemma_exact_square(dist, m);
    }
}

/// A finite number in single precision was made of a finite one.
proof fn lemma_narrowed_parts(a: F64)
    requires
        a.to_single().finite(),
    ensures
        a.finite(),
{
    let g = crate::float::rounding::Format::single();
    reveal(F64::spec_to_single);
    g.lemma_signed(true, g.infinity as nat);
    g.lemma_signed(false, g.infinity as nat);
}

/// A square that single precision can hold is not rounded.
proof fn lemma_exact_square(dist: F64, m: F32)
    requires
        dist.finite(),
        m.finite(),
        m.value() * pow2(1999) == dist.value() * dist.value(),
    ensures
        dist.times(dist).to_single().finite(),
        dist.times(dist).to_single().value() == m.value(),
{
    let g = crate::float::rounding::Format::double();
    let f = crate::float::rounding::Format::single();
    crate::values::widening_is_exact(m);
    crate::values::lemma_square(dist.value());
    lemma_pow2_adds(925, 1074);
    lemma_pow2_pos(925);
    lemma_pow2_pos(1074);
    lemma_pow2_pos(1999);
    let (v, x) = (m.value(), g.size(dist.bits));
    assert(v >= 0) by (nonlinear_arith)
        requires
            v * pow2(1999) >= 0,
            pow2(1999) > 0,
    ;
    let wide = m.to_double();
    let n = g.encoded(wide.bits);
    let size = g.magnitude(n);
    let (u, h) = (pow2(1074), pow2(925));
    assert(size == v * h) by {
        let w = wide.value();
        assert(w == v * h);
        assert(w >= 0) by (nonlinear_arith)
            requires
                w == v * h,
                v >= 0,
                h > 0,
        ;
    }
    assert(x * x == size * u) by (nonlinear_arith)
        requires
            x * x == v * pow2(1999),
            pow2(1999) == h * u,
            size == v * h,
    ;
    reveal(F64::spec_times);
    g.rounding_keeps_numbers(n);
    let q = g.lemma_quantum_exists(size, 1);
    assert(size * u == (x * x) * 1);
    g.lemma_rounded_equal(q, size, 1, x * x, u);
    g.lemma_signed(false, n);
    let square = dist.times(dist);
    assert(square.bits == g.signed(false, n));
    // The two squares can differ in the sign of a zero only.
    reveal(F64::spec_to_single);
    let r = f.rounded(size * pow2(149), u);
    f.lemma_rounded_bound(size * pow2(149), u);
    f.lemma_signed(true, r);
    f.lemma_signed(false, r);
    assert(wide.to_single() == m);
    f.lemma_zero();
}

/// No more points correspond than there are.
pub proof fn lemma_valid(scans: Scans, at: Attitude, trans: Vec3, nearest: Seq<Nearest>, n: nat)
    requires
        n <= scans.current@.len(),
    ensures
        scans.tally(at, trans, nearest, n).valid <= n,
    decreases n,
{
    if n > 0 {
        lemma_valid(scans, at, trans, nearest, (n - 1) as nat);
    }
}

/// A point corresponds exactly where its distance from the nearest reference
/// point is at most the configured one: the answer for it, a squared distance,
/// is counted up to the square and not beyond, and without any rounding where
/// single precision holds the square.
pub proof fn points_within_the_distance_correspond(
    matcher: CorrelativeScanMatcher,
    pair: ScanPair,
    reference: Seq<Mat3>,
    current: Seq<Mat3>,
    guess: Transform2D,
    yaw: F64,
    session: MatchSession,
    at: Attitude,
    trans: Vec3,
    nearest: Seq<Nearest>,
    n: nat,
)
    requires
        matcher.starts(pair, reference, current, &guess, yaw, session),
        matcher.config.max_correspondence_dist.finite(),
        session.scans.max_dist_sq.finite(),
        n < session.scans.current@.len(),
        n < nearest.len(),
        nearest[n as int].distance.finite(),
    ensures
        ({
            let d = matcher.config.max_correspondence_dist.value();
            let q = nearest[n as int].distance.value();
            let before = session.scans.tally(at, trans, nearest, n).valid;
            let after = session.scans.tally(at, trans, nearest, n + 1).valid;
            &&& after == before || after == before + 1
            &&& (q * pow2(1999)) * 0x40_0000 + 0x40_0000 * pow2(2001) <= 0x3f_ffff * (d * d)
                ==> after == before + 1
            &&& (q * pow2(1999)) * 0x40_0000 > 0x40_0001 * (d * d) + 0x40_0000 * pow2(2001)
                ==> after == before
            &&& forall|m: F32| #[trigger] m.finite() && m.value() * pow2(1999) == d * d ==> ((after
                == before + 1) == (q <= m.value()))
        }),
{
    lemma_valid(session.scans, at, trans, nearest, n);
    the_limit_is_the_squared_distance(
        matcher,
        pair,
        reference,
        current,
        guess,
        yaw,
        session,
    );
    let limit = session.scans.max_dist_sq;
    let answer = nearest[n as int].distance;
    crate::values::singles_are_ordered_by_value(limit, answer);
    let (l, q) = (limit.value(), answer.value());
    lemma_pow2_pos(1999);
    let s = pow2(1999) as int;
    assert(q <= l ==> q * s <= l * s) by (nonlinear_arith)
        requires
            s > 0,
    ;
    assert(q > l ==> q * s > l * s) by (nonlinear_arith)
        requires
            s > 0,
    ;
    assert(session.scans.current.len() <= usize::MAX);
    assert((n + 1 - 1) as nat == n);
    assert(session.scans.tally(at, trans, nearest, n + 1).valid == if limit.less(answer) {
        session.scans.tally(at, trans, nearest, n).valid as int
    } else {
        session.scans.tally(at, trans, nearest, n).valid + 1
    });
}

/// A match that takes no step returns its guess: it starts at the guess's place
/// and yaw, level and at no height.
pub proof fn matches_start_at_their_guess(
    matcher: CorrelativeScanMatcher,
    pair: ScanPair,
    reference: Seq<Mat3>,
    current: Seq<Mat3>,
    guess: Transform2D,
    yaw: F64,
    session: MatchSession,
    valid: usize,
    inverse: Option<Mat6>,
    turn: Rotation2,
)
    requires
        matcher.starts(pair, reference, current, &guess, yaw, session),
    ensures
        session.result(valid, inverse, turn).transform.shift == guess.shift,
        session.result(valid, inverse, turn).transform.turn == turn,
        session.pose.turn.z == yaw,
        session.pose.turn.x.zero(),
        session.pose.turn.y.zero(),
        session.pose.shift.z.zero(),
        session.scans.reference@ == pair.reference@,
        session.scans.current@ == pair.current@,
{
}

/// An entry of a matrix over x, y, z, roll, pitch and yaw.
pub open spec fn full_entry(m: Mat6, row: int, column: int) -> F64 {
    if row < 3 && column < 3 {
        m.shift_shift.entry(row, column)
    } else if row < 3 {
        m.shift_turn.entry(row, column - 3)
    } else if column < 3 {
        m.turn_shift.entry(row - 3, column)
    } else {
        m.turn_turn.entry(row - 3, column - 3)
    }
}

/// The covariance of a match is that of x, y and yaw: the first, the second and
/// the last of the six.
pub proof fn covariances_are_those_of_the_plane(
    session: MatchSession,
    valid: usize,
    m: Mat6,
    yaw: Rotation2,
    row: int,
    column: int,
)
    requires
        0 <= row < 3,
        0 <= column < 3,
    ensures
        ({
            let axis = |k: int|
                if k == 2 {
                    5
                } else {
                    k
                };
            session.result(valid, Some(m), yaw).covariance.entry(row, column) == full_entry(
                m,
                axis(row),
                axis(column),
            )
        }),
{
}

/// A match keeps to the settings of its matcher.
pub proof fn matches_keep_to_their_settings(
    matcher: CorrelativeScanMatcher,
    pair: ScanPair,
    reference: Seq<Mat3>,
    current: Seq<Mat3>,
    guess: Transform2D,
    yaw: F64,
    session: MatchSession,
    steps: Seq<Vec6>,
    n: nat,
)
    requires
        matcher.starts(pair, reference, current, &guess, yaw, session),
        n <= steps.len(),
    ensures
        ({
            let last = session.after(steps, n);
            &&& last.min_overlap == matcher.config.min_overlap
            &&& last.max_iterations == matcher.config.max_iterations
            &&& last.convergence_threshold == matcher.config.convergence_threshold
            &&& n > 0 ==> last.converged == steps[n - 1].norm().less(
                matcher.config.convergence_threshold,
            )
            &&& last.wants_step() == (!last.converged && last.iteration
                < matcher.config.max_iterations)
        }),
    decreases n,
{
    if n > 0 {
        matches_keep_to_their_settings(
            matcher,
            pair,
            reference,
            current,
            guess,
            yaw,
            session,
            steps,
            (n - 1) as nat,
        );
    }
}

/// Each step moves each part of the estimate by its own part.
pub proof fn steps_move_every_part(session: MatchSession, dx: Vec6, k: int)
    requires
        0 <= k < 3,
    ensures
        ({
            let (before, after) = (session.pose, session.stepped(dx).pose);
            &&& after.shift.part(k).finite() ==> crate::values::about(
                after.shift.part(k).value(),
                before.shift.part(k).value() + dx.shift.part(k).value(),
                1,
                1,
            )
            &&& after.turn.part(k).finite() ==> crate::values::about(
                after.turn.part(k).value(),
                before.turn.part(k).value() + dx.turn.part(k).value(),
                1,
                1,
            )
        }),
{
    let (before, after) = (session.pose, session.stepped(dx).pose);
    if after.shift.part(k).finite() {
        crate::values::sums_are_about_exact(before.shift.part(k), dx.shift.part(k));
    }
    if after.turn.part(k).finite() {
        crate::values::sums_are_about_exact(before.turn.part(k), dx.turn.part(k));
    }
}

/// The length of a step is that of all its six parts.
pub proof fn step_lengths_count_every_part(dx: Vec6)
    requires
        dx.norm().finite(),
    ensures
        dx.norm().value() >= 0,
        ({
            let (s, t) = (dx.shift, dx.turn);
            crate::values::spans(
                dx.norm().value(),
                s.x.value() * s.x.value() + s.y.value() * s.y.value() + s.z.value() * s.z.value()
                    + t.x.value() * t.x.value() + t.y.value() * t.y.value() + t.z.value()
                    * t.z.value(),
            )
        }),
{
    crate::values::six_squares(
        dx.shift.x,
        dx.shift.y,
        dx.shift.z,
        dx.turn.x,
        dx.turn.y,
        dx.turn.z,
    );
}

/// The points are looked up where the estimate places them: turned by the
/// rotation and moved by the shift, up to rounding.
pub proof fn points_are_looked_up_where_they_lie(
    scans: Scans,
    at: Attitude,
    trans: Vec3,
    c: int,
    g: int,
    j: int,
    k: int,
)
    requires
        0 <= j < scans.current@.len(),
        0 <= k < 3,
        1 <= c,
        1 <= g,
        4 * (c * g) <= pow2(2044),
        crate::graph_laws::is_bounded_vector(at.rot.row(k), c * crate::nearness::one_unit()),
        crate::graph_laws::is_bounded_vector(scans.current@[j], 0x10_0000_0000_0000 * g),
        looked_up(scans, at, trans, j, k).finite(),
    ensures
        ({
            let u = crate::nearness::one_unit();
            let exact = crate::graph_laws::exact_dot(at.rot.row(k), scans.current@[j])
                + trans.part(k).value() * u;
            let place = (looked_up(scans, at, trans, j, k).value() * pow2(925)) * u;
            crate::nearness::magnitude_of(place - exact) * 0x40_0000
                <= crate::nearness::magnitude_of(exact) + 0x40_0000 * (32 * ((c * g) * u) + 2 * (
            pow2(925) * u))
        }),
{
    let u = crate::nearness::one_unit();
    let e = 0x10_0000_0000_0000int;
    lemma_pow2_pos(1074);
    lemma_pow2_pos(925);
    let p = scans.current@[j];
    let row = at.rot.row(k);
    let turned = row.dot(p);
    let sum = turned.plus(trans.part(k));
    assert(looked_up(scans, at, trans, j, k) == sum.to_single());
    lemma_narrowed_parts(sum);
    crate::values::narrowing_is_about_exact(sum);
    crate::values::sums_are_about_exact(turned, trans.part(k));
    crate::graph_laws::lemma_near_dot(row, p, c, g);
    let t = c * g;
    assert(t >= 1) by (nonlinear_arith)
        requires
            t == c * g,
            c >= 1,
            g >= 1,
    ;
    let (x, y) = (turned.value(), trans.part(k).value());
    let (s, q) = (sum.value(), sum.to_single().value());
    crate::values::lemma_scaled_error(s, x + y, u);
    assert((x + y) * u == x * u + y * u) by (nonlinear_arith);
    let h = pow2(925) as int;
    let d = q * h - s;
    let (m, n) = (crate::nearness::magnitude_of(d), crate::nearness::magnitude_of(s));
    assert((q * h) * u - s * u == d * u) by (nonlinear_arith)
        requires
            d == q * h - s,
    ;
    assert(d * u == m * u || d * u == -(m * u)) by (nonlinear_arith)
        requires
            d == m || d == -m,
    ;
    assert(s * u == n * u || s * u == -(n * u)) by (nonlinear_arith)
        requires
            s == n || s == -n,
    ;
    assert((m * u) * 0x80_0000 <= n * u + 0x80_0000 * (h * u) && m * u >= 0 && n * u >= 0)
        by (nonlinear_arith)
        requires
            m * 0x80_0000 <= n + 0x80_0000 * h,
            m >= 0,
            n >= 0,
            u > 0,
    ;
    assert(t * u >= u) by (nonlinear_arith)
        requires
            t >= 1,
            u > 0,
    ;
}

/// A coordinate of the place at which a point is looked up.
pub open spec fn looked_up(scans: Scans, at: Attitude, trans: Vec3, j: int, k: int) -> F32 {
    let place = scans.places(at, trans)[j];
    if k == 0 {
        place.0
    } else if k == 1 {
        place.1
    } else {
        place.2
    }
}

/// A share is the ratio of two counts, up to rounding.
pub proof fn shares_are_ratios(valid: usize, total: usize)
    requires
        0 < total < 0x20_0000_0000_0000,
        valid <= total,
    ensures
        ({
            let v = super::overlap::share(valid, total).value();
            crate::values::about(v * total, valid * crate::nearness::one_unit(), 1, total as int)
        }),
{
    let (a, b) = (F64::from_usize(valid), F64::from_usize(total));
    let (u, e) = (crate::nearness::one_unit(), 0x10_0000_0000_0000int);
    lemma_pow2_pos(1074);
    crate::values::whole_numbers_are_exact(valid);
    crate::values::whole_numbers_are_exact(total);
    super::overlap::shares_are_at_most_one(valid, total);
    crate::float::double::zero_has_no_value(b);
    assert(total * u > 0) by (nonlinear_arith)
        requires
            total > 0,
            u > 0,
    ;
    crate::values::quotients_are_about_exact(a, b);
    let v = super::overlap::share(valid, total).value();
    let d = v * total - valid * u;
    assert(v * (total * u) - (valid * u) * u == d * u) by (nonlinear_arith)
        requires
            d == v * total - valid * u,
    ;
    let k = crate::nearness::magnitude_of(d);
    assert(d * u == k * u || d * u == -(k * u)) by (nonlinear_arith)
        requires
            d == k || d == -k,
    ;
    assert(valid * u >= 0 && k * u >= 0) by (nonlinear_arith)
        requires
            k >= 0,
            u > 0,
            valid >= 0,
    ;
    let x = valid * u;
    assert(k * e <= x + total * e) by (nonlinear_arith)
        requires
            (k * u) * e <= x * u + e * (total * u),
            u > 0,
    ;
}

/// Each scan's covariances come from its own points, in their order.
pub proof fn covariances_belong_to_their_scan(
    pair: ScanPair,
    start: super::MatchStart,
    near_r: Vec<Vec<usize>>,
    near_c: Vec<Vec<usize>>,
    spread_r: Vec<Option<Mat3>>,
    spread_c: Vec<Option<Mat3>>,
    parts_r: Vec<Option<super::covariance::Decomposition>>,
    parts_c: Vec<Option<super::covariance::Decomposition>>,
    cov_r: Vec<Mat3>,
    cov_c: Vec<Mat3>,
    yaw: F64,
    session: MatchSession,
)
    requires
        super::run::MatchStage::Neighbours(pair, start).leads_to(
            super::run::MatchAnswer::Neighbours(near_r, near_c),
            Ok(
                super::run::MatchStep::Ask(
                    super::run::MatchStage::Decompose(pair, start, spread_r, spread_c),
                ),
            ),
        ),
        super::run::MatchStage::Decompose(pair, start, spread_r, spread_c).leads_to(
            super::run::MatchAnswer::Decompositions(parts_r, parts_c),
            Ok(super::run::MatchStep::Ask(super::run::MatchStage::Yaw(pair, start, cov_r, cov_c))),
        ),
        super::run::MatchStage::Yaw(pair, start, cov_r, cov_c).leads_to(
            super::run::MatchAnswer::Angle(yaw),
            Ok(super::run::MatchStep::Ask(super::run::MatchStage::Turn(session))),
        ),
        pair.reference@.len() >= super::NEIGHBOURS,
        pair.current@.len() >= super::NEIGHBOURS,
    ensures
        session.scans.reference@ == pair.reference@,
        session.scans.current@ == pair.current@,
        forall|i: int|
            0 <= i < pair.reference@.len() && super::covariance::spread(
                pair.reference@,
                near_r@[i]@,
            ) is Some && parts_r@[i] is Some ==> #[trigger] session.scans.reference_covariances@[i]
                == parts_r@[i]->0.flattened(),
        forall|i: int|
            0 <= i < pair.current@.len() && super::covariance::spread(
                pair.current@,
                near_c@[i]@,
            ) is Some && parts_c@[i] is Some ==> #[trigger] session.scans.current_covariances@[i]
                == parts_c@[i]->0.flattened(),
        session.pose.shift.x == start.guess.shift.x,
        session.pose.shift.y == start.guess.shift.y,
        session.pose.turn.z == yaw,
{
    assert forall|i: int|
        0 <= i < pair.reference@.len() && super::covariance::spread(
            pair.reference@,
            near_r@[i]@,
        ) is Some && parts_r@[i] is Some implies #[trigger] session.scans.reference_covariances@[i]
        == parts_r@[i]->0.flattened() by {
        assert(spread_r@[i] == super::covariance::spread_at(
            pair.reference@,
            super::NEIGHBOURS,
            near_r@,
            i,
        ));
    }
    assert forall|i: int|
        0 <= i < pair.current@.len() && super::covariance::spread(
            pair.current@,
            near_c@[i]@,
        ) is Some && parts_c@[i] is Some implies #[trigger] session.scans.current_covariances@[i]
        == parts_c@[i]->0.flattened() by {
        assert(spread_c@[i] == super::covariance::spread_at(
            pair.current@,
            super::NEIGHBOURS,
            near_c@,
            i,
        ));
    }
}

/// A match is given up exactly where too few points correspond for another
/// step; its score is the share of points that do so in the end.
pub proof fn matches_need_overlap(
    session: MatchSession,
    turns: super::normal::Turns,
    places: Vec<(F32, F32, F32)>,
    nearest: Vec<Nearest>,
    outcome: Result<super::run::MatchStep, crate::error::SlamError>,
)
    requires
        super::run::MatchStage::Find(session, turns, places).leads_to(
            super::run::MatchAnswer::Nearest(nearest),
            outcome,
        ),
        session.min_overlap.finite(),
        0 < session.scans.current@.len() < 0x20_0000_0000_0000,
    ensures
        ({
            let total = session.scans.current@.len() as int;
            let valid = session.tally(&turns, nearest@).valid;
            let share = super::overlap::share(valid, total as usize);
            &&& valid <= total
            &&& share.finite()
            &&& crate::values::about(
                share.value() * total,
                valid * crate::nearness::one_unit(),
                1,
                total,
            )
            &&& outcome is Err == (session.wants_step() && share.value()
                < session.min_overlap.value())
            &&& outcome matches Ok(
                super::run::MatchStep::Ask(super::run::MatchStage::Invert(s, _, _, count)),
            ) ==> !session.wants_step() && count == valid && s.result(
                count,
                None,
                turns.yaw,
            ).score == share
        }),
{
    let total = session.scans.current@.len() as int;
    let valid = session.tally(&turns, nearest@).valid;
    assert(session.scans.current.len() <= usize::MAX);
    lemma_valid(
        session.scans,
        turns.attitude(),
        session.pose.shift,
        nearest@,
        session.scans.current@.len(),
    );
    shares_are_ratios(valid, total as usize);
    super::overlap::shares_are_at_most_one(valid, total as usize);
    crate::values::order_is_by_value(
        super::overlap::share(valid, total as usize),
        session.min_overlap,
    );
}

/// The combined covariance of two points, in one entry: that of the reference
/// point, that of the current one turned, and a little on the diagonal.
pub open spec fn is_combined(
    sum: F64,
    c_ref: Mat3,
    c_cur: Mat3,
    rot: Mat3,
    c: int,
    g: int,
    row: int,
    column: int,
) -> bool {
    let (u, e) = (crate::nearness::one_unit(), 0x10_0000_0000_0000int);
    let turned = crate::graph_laws::exact_form(rot.row(row), c_cur, rot.row(column));
    let exact = (c_ref.entry(row, column).value() + if row == column {
        F64::from_bits(super::normal::SMALL).value()
    } else {
        0
    }) * (u * u) + turned;
    crate::nearness::magnitude_of(sum.value() * (u * u) - exact) <= (120 * (c * (c * g)) + 8 * g)
        * (u * u)
}

/// The weight of a correspondence is the inverse of the combined covariances of
/// its two points, or one in every direction where there is no inverse. The
/// result is the combined covariance.
pub proof fn weights_invert_the_combined_covariances(
    c_ref: Mat3,
    c_cur: Mat3,
    rot: Mat3,
    c: int,
    g: int,
) -> (m: Mat3)
    requires
        1 <= c,
        1 <= g,
        0x1_0000 * (c * (4 * (c * g))) <= pow2(2044),
        F64::from_bits(super::normal::SMALL).value() <= 0x10_0000_0000_0000 * g,
        crate::graph_laws::is_bounded_matrix(c_ref, 0x10_0000_0000_0000 * g),
        crate::graph_laws::is_bounded_matrix(c_cur, 0x10_0000_0000_0000 * g),
        crate::graph_laws::is_bounded_matrix(rot, c * crate::nearness::one_unit()),
    ensures
        match m.try_inverse() {
            Some(inverse) => super::normal::match_weight(c_ref, c_cur, rot) == inverse,
            None => super::normal::match_weight(c_ref, c_cur, rot) == Mat3::identity(),
        },
        forall|row: int, column: int|
            0 <= row < 3 && 0 <= column < 3 ==> is_combined(
                #[trigger] m.entry(row, column),
                c_ref,
                c_cur,
                rot,
                c,
                g,
                row,
                column,
            ),
{
    reveal(super::normal::spec_match_weight);
    let turned = rot.times(c_cur).times(rot.transpose());
    let small = Mat3::identity().scaled(F64::from_bits(super::normal::SMALL));
    let m = c_ref.plus(turned).plus(small);
    assert forall|row: int, column: int| 0 <= row < 3 && 0 <= column < 3 implies is_combined(
        #[trigger] m.entry(row, column),
        c_ref,
        c_cur,
        rot,
        c,
        g,
        row,
        column,
    ) by {
        let (a, b) = (rot.row(row), rot.row(column));
        let t = Vec3 {
            x: a.dot(c_cur.column(0)),
            y: a.dot(c_cur.column(1)),
            z: a.dot(c_cur.column(2)),
        };
        assert(turned.entry(row, column) == t.dot(b)) by {
            reveal(Mat3::spec_times);
        }
        lemma_combined(c_ref.entry(row, column), a, c_cur, b, c, g, row == column);
        let k = F64::from_bits(super::normal::SMALL);
        let zero = F64::from_bits(0);
        crate::float::double::one_is_neutral(k);
    }
    m
}

/// One entry of a combined covariance.
proof fn lemma_combined(r: F64, a: Vec3, m: Mat3, b: Vec3, c: int, g: int, diagonal: bool)
    requires
        1 <= c,
        1 <= g,
        0x1_0000 * (c * (4 * (c * g))) <= pow2(2044),
        F64::from_bits(super::normal::SMALL).value() <= 0x10_0000_0000_0000 * g,
        crate::graph_laws::is_bounded(r, 0x10_0000_0000_0000 * g),
        crate::graph_laws::is_bounded_matrix(m, 0x10_0000_0000_0000 * g),
        crate::graph_laws::is_bounded_vector(a, c * crate::nearness::one_unit()),
        crate::graph_laws::is_bounded_vector(b, c * crate::nearness::one_unit()),
    ensures
        ({
            let u = crate::nearness::one_unit();
            let t = Vec3 { x: a.dot(m.column(0)), y: a.dot(m.column(1)), z: a.dot(m.column(2)) };
            let k = if diagonal {
                F64::from_bits(super::normal::SMALL)
            } else {
                F64::from_bits(0).times(F64::from_bits(super::normal::SMALL))
            };
            let exact = (r.value() + if diagonal {
                F64::from_bits(super::normal::SMALL).value()
            } else {
                0
            }) * (u * u) + crate::graph_laws::exact_form(a, m, b);
            let sum = r.plus(t.dot(b)).plus(k).value();
            crate::nearness::magnitude_of(sum * (u * u) - exact) <= (120 * (c * (c * g)) + 8 * g)
                * (u * u)
        }),
{
    let u = crate::nearness::one_unit();
    let small = F64::from_bits(super::normal::SMALL);
    let zero = F64::from_bits(0);
    lemma_pow2_pos(1074);
    lemma_pow2_adds(1074, 1074);
    assert(crate::nearness::up(2) == u * u);
    let t = Vec3 { x: a.dot(m.column(0)), y: a.dot(m.column(1)), z: a.dot(m.column(2)) };
    let k = if diagonal {
        small
    } else {
        zero.times(small)
    };
    crate::float::double::zero_absorbs(small, zero);
    crate::float::double::zero_has_no_value(zero.times(small));
    let s = c * (c * g);
    assert(c * (4 * (c * g)) == 4 * s && g <= s && c * g <= s && 1 <= s) by (nonlinear_arith)
        requires
            s == c * (c * g),
            c >= 1,
            g >= 1,
    ;
    crate::graph_laws::lemma_near_form(a, m, b, c, g, c);
    crate::graph_laws::lemma_near_dot(a, m.column(0), c, g);
    crate::graph_laws::lemma_near_dot(a, m.column(1), c, g);
    crate::graph_laws::lemma_near_dot(a, m.column(2), c, g);
    crate::graph_laws::lemma_near_dot(b, t, c, 4 * (c * g));
    let (h, v, w) = (t.dot(b), r.value(), k.value());
    let first = 16 * s + g;
    crate::nearness::lemma_sum_fits(r, h, first);
    crate::nearness::lemma_sum_error(r, h, first);
    let second = 2 * first + g;
    crate::nearness::lemma_sum_fits(r.plus(h), k, second);
    crate::nearness::lemma_sum_error(r.plus(h), k, second);
    let uu = u * u;
    assert(uu > 0) by (nonlinear_arith)
        requires
            uu == u * u,
            u > 0,
    ;
    let (x, y) = (r.plus(h).value(), r.plus(h).plus(k).value());
    let (d, e) = (x - (v + h.value()), y - (x + w));
    crate::nearness::lemma_abs_product(d, uu, first, uu);
    crate::nearness::lemma_abs_product(e, uu, second, uu);
    assert(d * uu + e * uu == y * uu - (v + w) * uu - h.value() * uu) by (nonlinear_arith)
        requires
            d == x - (v + h.value()),
            e == y - (x + w),
    ;
    assert(first * uu == 16 * (s * uu) + g * uu && second * uu == 2 * (first * uu) + g * uu)
        by (nonlinear_arith)
        requires
            first == 16 * s + g,
            second == 2 * first + g,
    ;
    assert((70 * s) * uu == 70 * (s * uu) && (120 * s + 8 * g) * uu == 120 * (s * uu) + 8 * (g
        * uu)) by (nonlinear_arith);
    assert(s * uu >= 0 && g * uu >= 0) by (nonlinear_arith)
        requires
            s >= 1,
            g >= 1,
            uu > 0,
    ;
}

/// What a match hands out: the place and the rotation of its last estimate, and
/// the covariance of its last information.
pub proof fn results_are_of_the_last_estimate(
    session: MatchSession,
    turns: super::normal::Turns,
    m: Mat6,
    valid: usize,
    inverse: Option<Mat6>,
    outcome: Result<super::run::MatchStep, crate::error::SlamError>,
)
    requires
        super::run::MatchStage::Invert(session, turns, m, valid).leads_to(
            super::run::MatchAnswer::Inverse(inverse),
            outcome,
        ),
    ensures
        outcome matches Ok(super::run::MatchStep::Done(r)) && {
            &&& r.transform.shift.x == session.pose.shift.x
            &&& r.transform.shift.y == session.pose.shift.y
            &&& r.transform.turn == turns.yaw
            &&& inverse matches Some(p) ==> r.covariance == planar(p)
        },
{
}

/// A match compares what is left of the two scans at the matcher's resolution,
/// the reference as the reference, and starts from the guess.
pub proof fn matches_compare_the_downsampled_scans(
    matcher: CorrelativeScanMatcher,
    reference: crate::types::PointCloud,
    current: crate::types::PointCloud,
    guess: Transform2D,
    pair: ScanPair,
    start: super::MatchStart,
)
    requires
        matcher.opens(
            &reference,
            &current,
            guess,
            Ok(super::run::MatchStage::Neighbours(pair, start)),
        ),
    ensures
        pair.reference@ == super::voxel::downsampled(
            reference.points@,
            matcher.config.resolution,
        ),
        pair.current@ == super::voxel::downsampled(current.points@, matcher.config.resolution),
        pair.reference@.len() >= 10,
        pair.current@.len() >= 10,
        start.guess == guess,
        start.matcher == matcher,
{
}

/// The systems of a match: whether another step is solved for or the result's
/// covariance is asked for, the matrix is the sum over the corresponding points
/// with a little added to the diagonal, and nothing elsewhere; a step goes
/// against the pull of the points.
pub proof fn systems_are_regularized(
    session: MatchSession,
    turns: super::normal::Turns,
    places: Vec<(F32, F32, F32)>,
    nearest: Vec<Nearest>,
    outcome: Result<super::run::MatchStep, crate::error::SlamError>,
    row: int,
    column: int,
)
    requires
        super::run::MatchStage::Find(session, turns, places).leads_to(
            super::run::MatchAnswer::Nearest(nearest),
            outcome,
        ),
        0 <= row < 6,
        0 <= column < 6,
    ensures
        ({
            let tally = session.tally(&turns, nearest@);
            let own = full_entry(tally.h, row, column);
            let small = if row == column {
                F64::from_bits(super::normal::SMALL).value()
            } else {
                0
            };
            let grown = |m: Mat6|
                {
                    let a = full_entry(m, row, column);
                    a.finite() ==> crate::values::about(a.value(), own.value() + small, 1, 1)
                };
            match outcome {
                Ok(super::run::MatchStep::Ask(super::run::MatchStage::Solve(_, h, b))) => {
                    &&& grown(h)
                    &&& b.shift.x == tally.b.shift.x.negated()
                    &&& b.shift.y == tally.b.shift.y.negated()
                    &&& b.shift.z == tally.b.shift.z.negated()
                    &&& b.turn.x == tally.b.turn.x.negated()
                    &&& b.turn.y == tally.b.turn.y.negated()
                    &&& b.turn.z == tally.b.turn.z.negated()
                },
                Ok(super::run::MatchStep::Ask(super::run::MatchStage::Invert(_, _, m, _))) => grown(
                    m,
                ),
                _ => true,
            }
        }),
{
    let tally = session.tally(&turns, nearest@);
    let own = full_entry(tally.h, row, column);
    let k = F64::from_bits(super::normal::SMALL);
    let (one, zero) = (F64::from_bits(crate::linear::ONE), F64::from_bits(0));
    crate::float::double::one_is_neutral(k);
    crate::float::double::zero_absorbs(k, zero);
    crate::float::double::zero_has_no_value(zero.times(k));
    let added = if row == column {
        k
    } else {
        zero.times(k)
    };
    let sum = full_entry(tally.h.regularized(), row, column);
    assert(sum == own.plus(added));
    if sum.finite() {
        crate::values::sums_are_about_exact(own, added);
    }
}

/// A column of the derivatives: by x, y, z, roll, pitch and yaw.
pub open spec fn derivative(j: super::normal::Jacobian, k: int) -> Vec3 {
    if k < 3 {
        j.shift.column(k)
    } else {
        j.turn.column(k - 3)
    }
}

/// A part of a vector over x, y, z, roll, pitch and yaw.
pub open spec fn full_part(v: Vec6, k: int) -> F64 {
    if k < 3 {
        v.shift.part(k)
    } else {
        v.turn.part(k - 3)
    }
}

/// What a correspondence adds to the system: the derivatives by two unknowns
/// against each other, weighed by the whole weight matrix, and the derivatives
/// against the force, up to rounding.
pub proof fn points_add_weighed_derivatives(
    j: super::normal::Jacobian,
    weight: Mat3,
    force: Vec3,
    c: int,
    g: int,
    row: int,
    column: int,
)
    requires
        0 <= row < 6,
        0 <= column < 6,
        1 <= c,
        1 <= g,
        16 * (c * (4 * (c * g))) <= pow2(2044),
        crate::graph_laws::is_bounded_matrix(j.shift, c * crate::nearness::one_unit()),
        crate::graph_laws::is_bounded_matrix(j.turn, c * crate::nearness::one_unit()),
        crate::graph_laws::is_bounded_matrix(weight, 0x10_0000_0000_0000 * g),
        crate::graph_laws::is_bounded_vector(force, 0x10_0000_0000_0000 * g),
    ensures
        crate::nearness::near(
            full_entry(j.normal(weight), row, column).value(),
            crate::graph_laws::exact_form(derivative(j, row), weight, derivative(j, column)),
            2,
            70 * (c * (c * g)),
        ),
        crate::nearness::near(
            full_part(j.pull(force), row).value(),
            crate::graph_laws::exact_dot(derivative(j, row), force),
            1,
            10 * (c * g),
        ),
{
    reveal(super::normal::Jacobian::spec_normal);
    reveal(super::normal::Jacobian::spec_pull);
    reveal(Mat3::spec_times);
    let (a, b) = (derivative(j, row), derivative(j, column));
    let t = c * g;
    assert(1 <= t && t <= c * t && c * (4 * t) == 4 * (c * t)) by (nonlinear_arith)
        requires
            t == c * g,
            c >= 1,
            g >= 1,
    ;
    crate::graph_laws::lemma_near_form(a, weight, b, c, g, c);
    crate::graph_laws::lemma_near_dot(a, force, c, g);
    let u = crate::nearness::one_unit();
    assert(crate::nearness::up(1) == u);
    assert((10 * t) * u == 10 * (t * u)) by (nonlinear_arith);
    let top = j.shift.transpose().times(weight);
    let low = j.turn.transpose().times(weight);
    let m = j.normal(weight);
    let r = Vec3 {
        x: a.dot(weight.column(0)),
        y: a.dot(weight.column(1)),
        z: a.dot(weight.column(2)),
    };
    assert(full_entry(m, row, column) == r.dot(b));
    assert(full_part(j.pull(force), row) == a.dot(force));
}

/// The derivatives of a residual: against the shift it falls by as much as the
/// point moves; against each angle it falls by what a small turn about that
/// angle moves the point, over the size of that turn.
pub proof fn jacobians_are_difference_quotients(p: Vec3, at: Attitude, k: int, axis: int)
    requires
        0 <= k < 3,
        0 <= axis < 3,
        ({
            let on = if axis == 0 {
                at.on_roll
            } else if axis == 1 {
                at.on_pitch
            } else {
                at.on_yaw
            };
            &&& super::normal::compute_jacobian(p, at).turn.entry(k, axis).finite()
            &&& on.row(k).dot(p).minus(at.rot.row(k).dot(p)).finite()
        }),
    ensures
        ({
            let (u, e) = (crate::nearness::one_unit(), 0x10_0000_0000_0000int);
            let on = if axis == 0 {
                at.on_roll
            } else if axis == 1 {
                at.on_pitch
            } else {
                at.on_yaw
            };
            let j = super::normal::compute_jacobian(p, at);
            let gap = on.row(k).dot(p).minus(at.rot.row(k).dot(p)).value();
            let step = F64::from_bits(super::normal::SMALL).value();
            &&& crate::nearness::magnitude_of(j.turn.entry(k, axis).value() * step + gap * u) * e
                <= crate::nearness::magnitude_of(gap) * u + e * step
            &&& crate::values::about(
                gap,
                on.row(k).dot(p).value() - at.rot.row(k).dot(p).value(),
                1,
                1,
            )
            &&& j.shift.entry(k, axis).value() == if k == axis {
                -u
            } else {
                0
            }
        }),
{
    let on = if axis == 0 {
        at.on_roll
    } else if axis == 1 {
        at.on_pitch
    } else {
        at.on_yaw
    };
    let small = F64::from_bits(super::normal::SMALL);
    let gap = on.row(k).dot(p).minus(at.rot.row(k).dot(p));
    reveal(super::normal::spec_slope);
    crate::values::differences_are_about_exact(on.row(k).dot(p), at.rot.row(k).dot(p));
    crate::nearness::lemma_negated(gap);
    crate::values::quotients_are_about_exact(gap.negated(), small);
    let (v, u) = (gap.value(), crate::nearness::one_unit());
    assert((-v) * u == -(v * u)) by (nonlinear_arith);
    crate::float::double::lemma_one();
    crate::float::double::zero_has_no_value(F64::from_bits(0));
    let j = super::normal::compute_jacobian(p, at);
    assert(j.turn.entry(k, axis) == gap.negated().over(small));
}

/// What a corresponding point adds: its residual leads from the very place at
/// which it was looked up to its reference point, is weighed by the two points'
/// own covariances, and pulls by the point's own derivatives. A point that does
/// not correspond adds nothing. The result is the residual.
pub proof fn points_pull_towards_their_reference(
    scans: Scans,
    at: Attitude,
    trans: Vec3,
    nearest: Seq<Nearest>,
    n: nat,
) -> (residual: Vec3)
    requires
        n < scans.current@.len(),
        n < nearest.len(),
    ensures
        ({
            let answer = nearest[n as int];
            let before = scans.tally(at, trans, nearest, n);
            let after = scans.tally(at, trans, nearest, n + 1);
            let own = scans.current@[n as int];
            let target = scans.reference@[answer.item as int];
            let weight = super::normal::match_weight(
                scans.reference_covariances@[answer.item as int],
                scans.current_covariances@[n as int],
                at.rot,
            );
            let j = super::normal::compute_jacobian(own, at);
            if scans.max_dist_sq.less(answer.distance) {
                after == before
            } else {
                &&& after.valid == before.valid + 1
                &&& after.h == before.h.plus(j.normal(weight))
                &&& after.b == before.b.plus(j.pull(weight.apply(residual)))
                &&& forall|k: int|
                    0 <= k < 3 && (#[trigger] residual.part(k)).finite() ==> pulls_to(
                        residual.part(k),
                        target.part(k),
                        looked_up(scans, at, trans, n as int, k),
                    )
            }
        }),
{
    let answer = nearest[n as int];
    let own = scans.current@[n as int];
    let target = scans.reference@[answer.item as int];
    let place = at.rot.apply(own).plus(trans);
    let residual = target.minus(place);
    lemma_valid(scans, at, trans, nearest, n);
    assert(scans.current.len() <= usize::MAX);
    assert((n + 1 - 1) as nat == n);
    assert forall|k: int| 0 <= k < 3 && (#[trigger] residual.part(k)).finite() implies pulls_to(
        residual.part(k),
        target.part(k),
        looked_up(scans, at, trans, n as int, k),
    ) by {
        crate::values::differences_are_about_exact(target.part(k), place.part(k));
        assert(looked_up(scans, at, trans, n as int, k) == place.part(k).to_single());
        assert(ends_at(residual.part(k), target.part(k), place.part(k)));
    }
    residual
}

/// The number is the way from a place to a target.
pub open spec fn ends_at(way: F64, target: F64, place: F64) -> bool {
    crate::values::about(way.value(), target.value() - place.value(), 1, 1)
}

/// The number is the way to a target from a place that reads `seen` in single
/// precision.
pub open spec fn pulls_to(way: F64, target: F64, seen: F32) -> bool {
    exists|place: F64| #[trigger] ends_at(way, target, place) && place.to_single() == seen
}

} // verus!
