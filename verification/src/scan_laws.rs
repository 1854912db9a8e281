//! What holds of the processing of a scan as a whole.
use std::sync::Arc;

use vstd::prelude::*;

use crate::float::double::F64;
use crate::optimizer::GraphNext;
use crate::processor::{ScanWork, SlamProcessor, SlamUpdate};
use crate::scan_run::{ScanAnswer, ScanNext, ScanStage};
use crate::types::PointCloud;

verus! {

/// What the stages of a scan change: one of them adds a keyframe, one may add
/// a loop closure, an optimization may move the keyframes, and the filter
/// changes only where a pose was measured or found, or at the end of an
/// optimization. What the gyro saw is taken at the beginning, and the
/// correction changes at the end. Settings and odometry stay.
pub proof fn stages_change_little(
    stage: ScanStage,
    before: SlamProcessor,
    scan: Arc<PointCloud>,
    answer: ScanAnswer,
    after: SlamProcessor,
    outcome: ScanNext,
)
    requires
        stage.leads_to(&before, scan, answer, &after, outcome),
    ensures
        after.config == before.config,
        after.scan_matcher == before.scan_matcher,
        after.reloc_scan_matcher == before.reloc_scan_matcher,
        after.last_odom_pose == before.last_odom_pose,
        after.keyframes@.len() == before.keyframes@.len() + if stage is Stamp {
            1nat
        } else {
            0nat
        },
        !(stage is Stamp) && !(stage is Optimize) ==> after.keyframes == before.keyframes,
        !(stage is Stamp) && !(stage is Close) ==> after.edges == before.edges,
        before.edges@.len() <= after.edges@.len() <= before.edges@.len() + 1,
        before.loop_closure_count <= after.loop_closure_count <= before.loop_closure_count
            + if stage is Close {
            1nat
        } else {
            0nat
        },
        !(stage is Stamp) ==> after.scan_context_db == before.scan_context_db,
        !(stage is Measure) && !(stage is Found) && !(stage is Optimize) ==> after.ekf
            == before.ekf,
        after.pending_imu_delta == if stage is Odometry {
            None
        } else {
            before.pending_imu_delta
        },
        !(stage is Report) ==> after.odom_correction == before.odom_correction,
{
    if let (ScanStage::Optimize(_, own), ScanAnswer::Graph(reply)) = (stage, answer) {
        let step = choose|step: Result<GraphNext, crate::error::SlamError>| #[trigger]
            own.leads_to(&before, reply, &after, step);
        assert(own.leads_to(&before, reply, &after, step));
    }
}

/// A stage that adds a keyframe, or a loop closure, is never followed by
/// another one that does: a scan adds at most one of each.
pub proof fn a_scan_adds_one_keyframe_at_most(earlier: ScanStage, later: ScanStage)
    requires
        later.closer_than(earlier),
    ensures
        earlier is Stamp ==> !(later is Stamp),
        earlier is Optimize ==> !(later is Close) && !(later is Stamp),
        earlier is Close ==> !(later is Stamp),
{
}

/// An update is reported of a scan exactly where it became a keyframe or
/// corrected the filter, and it tells the state of the map.
pub proof fn updates_tell_the_state(
    stage: ScanStage,
    before: SlamProcessor,
    scan: Arc<PointCloud>,
    answer: ScanAnswer,
    after: SlamProcessor,
    update: Option<SlamUpdate>,
)
    requires
        stage.leads_to(&before, scan, answer, &after, ScanNext::Done(update)),
        before.keyframes@.len() <= usize::MAX,
    ensures
        stage matches ScanStage::Report(work, added, closed, _) && {
            &&& update is Some == (added || work.matched)
            &&& update matches Some(u) ==> {
                &&& u.keyframe_added == added
                &&& u.loop_closure_detected == closed
                &&& u.keyframe_count == after.keyframes@.len()
                &&& u.loop_closure_count == after.loop_closure_count
                &&& u.odom_correction == after.odom_correction
                &&& u.match_score == work.score
                &&& u.world_pose.x == after.ekf.state.x
                &&& u.world_pose.y == after.ekf.state.y
                &&& answer == ScanAnswer::Angle(u.world_pose.theta)
            }
        },
{
}

/// One step of a scan: an answer leads from one state and stage to the next.
pub open spec fn steps_on(
    states: Seq<SlamProcessor>,
    stages: Seq<ScanStage>,
    answers: Seq<ScanAnswer>,
    scan: Arc<PointCloud>,
    i: int,
) -> bool {
    &&& stages[i].leads_to(
        &states[i],
        scan,
        answers[i],
        &states[i + 1],
        ScanNext::Ask(stages[i + 1]),
    )
    &&& stages[i + 1].closer_than(stages[i])
}

/// A scan from beginning to end: the states of the processor, the stages and
/// the answers to them, and the update at the end.
pub open spec fn is_scan(
    states: Seq<SlamProcessor>,
    stages: Seq<ScanStage>,
    answers: Seq<ScanAnswer>,
    scan: Arc<PointCloud>,
    update: Option<SlamUpdate>,
) -> bool {
    let n = stages.len();
    &&& n > 0
    &&& answers.len() == n
    &&& states.len() == n + 1
    &&& stages[0] is Odometry
    &&& forall|i: int|
        0 <= i < n - 1 ==> #[trigger] steps_on(states, stages, answers, scan, i)
    &&& stages.last().leads_to(
        &states[n - 1],
        scan,
        answers.last(),
        &states[n as int],
        ScanNext::Done(update),
    )
}

impl ScanStage {
    /// The scan has become a keyframe.
    pub open spec fn has_added(self) -> bool {
        match self {
            ScanStage::Close(_, _, _, _) => true,
            ScanStage::Optimize(_, _) => true,
            ScanStage::Settle(_, added, _, _) => added,
            ScanStage::Report(_, added, _, _) => added,
            _ => false,
        }
    }

    /// The scan has closed a loop.
    pub open spec fn has_closed(self) -> bool {
        match self {
            ScanStage::Optimize(_, _) => true,
            ScanStage::Settle(_, _, closed, _) => closed,
            ScanStage::Report(_, _, closed, _) => closed,
            _ => false,
        }
    }

    /// The work on the scan.
    pub open spec fn work(self) -> Option<ScanWork> {
        match self {
            ScanStage::Odometry(_) => None,
            ScanStage::Guess(work, _, _) => Some(work),
            ScanStage::Match(work, _, _) => Some(work),
            ScanStage::Measure(work, _, _) => Some(work),
            ScanStage::Clock(work) => Some(work),
            ScanStage::Search(work) => Some(work),
            ScanStage::Found(work, _, _) => Some(work),
            ScanStage::Heading(work, _) => Some(work),
            ScanStage::Motion(work, _, _) => Some(work),
            ScanStage::Describe(work, _, _) => Some(work),
            ScanStage::Stamp(work, _, _) => Some(work),
            ScanStage::Close(work, _, _, _) => Some(work),
            ScanStage::Optimize(work, _) => Some(work),
            ScanStage::Settle(work, _, _, _) => Some(work),
            ScanStage::Report(work, _, _, _) => Some(work),
        }
    }
}

/// A stage leads to a keyframe added exactly where it adds one or follows one
/// that did.
proof fn lemma_added_step(
    stage: ScanStage,
    before: SlamProcessor,
    scan: Arc<PointCloud>,
    answer: ScanAnswer,
    after: SlamProcessor,
    next: ScanStage,
)
    requires
        stage.leads_to(&before, scan, answer, &after, ScanNext::Ask(next)),
    ensures
        next.has_added() == (stage.has_added() || stage is Stamp),
{
}

/// A stage leads to a loop closed exactly where it closes one or follows one
/// that did.
proof fn lemma_closed_step(
    stage: ScanStage,
    before: SlamProcessor,
    scan: Arc<PointCloud>,
    answer: ScanAnswer,
    after: SlamProcessor,
    next: ScanStage,
)
    requires
        stage.leads_to(&before, scan, answer, &after, ScanNext::Ask(next)),
    ensures
        next.has_closed() == (stage.has_closed() || after.loop_closure_count
            > before.loop_closure_count),
{
    stages_change_little(stage, before, scan, answer, after, ScanNext::Ask(next));
}

/// The work on a scan keeps what the gyro saw.
proof fn lemma_work_step(
    stage: ScanStage,
    before: SlamProcessor,
    scan: Arc<PointCloud>,
    answer: ScanAnswer,
    after: SlamProcessor,
    next: ScanStage,
)
    requires
        stage.leads_to(&before, scan, answer, &after, ScanNext::Ask(next)),
    ensures
        next.work() matches Some(work) && work.imu_delta == match stage.work() {
            Some(own) => own.imu_delta,
            None => before.pending_imu_delta,
        },
{
}

proof fn lemma_counts(
    states: Seq<SlamProcessor>,
    stages: Seq<ScanStage>,
    answers: Seq<ScanAnswer>,
    scan: Arc<PointCloud>,
    update: Option<SlamUpdate>,
    i: int,
)
    requires
        is_scan(states, stages, answers, scan, update),
        0 <= i < stages.len(),
    ensures
        stages[i].has_closed() ==> stages[i].has_added(),
        states[i].keyframes@.len() == states[0].keyframes@.len() + if stages[i].has_added() {
            1int
        } else {
            0int
        },
        states[i].loop_closure_count == states[0].loop_closure_count + if stages[i].has_closed() {
            1int
        } else {
            0int
        },
        i > 0 ==> states[i].pending_imu_delta is None && stages[i].work() is Some
            && stages[i].work()->0.imu_delta == states[0].pending_imu_delta,
        i > 0 ==> !(stages[i] is Odometry),
        stages[i].has_closed() ==> !(stages[i] is Close),
        stages[i].has_added() ==> !(stages[i] is Stamp),
        stages[i] is Close || stages[i].has_closed() ==> states[0].keyframes@.len()
            > states[0].config.loop_closure_min_nodes,
        states[i].odom_correction == states[0].odom_correction,
        states[i].last_odom_pose == states[0].last_odom_pose,
        states[i].config == states[0].config,
    decreases i,
{
    if i > 0 {
        lemma_counts(states, stages, answers, scan, update, i - 1);
        assert(steps_on(states, stages, answers, scan, i - 1));
        let (stage, before) = (stages[i - 1], states[i - 1]);
        let (after, next) = (states[i], stages[i]);
        lemma_added_step(stage, before, scan, answers[i - 1], after, next);
        lemma_closed_step(stage, before, scan, answers[i - 1], after, next);
        lemma_work_step(stage, before, scan, answers[i - 1], after, next);
        stages_change_little(
            stages[i - 1],
            states[i - 1],
            scan,
            answers[i - 1],
            states[i],
            ScanNext::Ask(stages[i]),
        );
    }
}

/// The counts of keyframes and loop closures grow by what the update reports,
/// and by nothing where none is reported. A closed loop comes with an added
/// keyframe, and only where there were enough keyframes before.
pub proof fn counts_grow_as_reported(
    states: Seq<SlamProcessor>,
    stages: Seq<ScanStage>,
    answers: Seq<ScanAnswer>,
    scan: Arc<PointCloud>,
    update: Option<SlamUpdate>,
)
    requires
        is_scan(states, stages, answers, scan, update),
    ensures
        ({
            let (first, last) = (states[0], states.last());
            match update {
                Some(u) => {
                    &&& last.keyframes@.len() == first.keyframes@.len() + if u.keyframe_added {
                        1int
                    } else {
                        0int
                    }
                    &&& last.loop_closure_count == first.loop_closure_count
                        + if u.loop_closure_detected {
                        1int
                    } else {
                        0int
                    }
                    &&& u.loop_closure_detected ==> u.keyframe_added
                    &&& u.loop_closure_detected ==> first.keyframes@.len()
                        > first.config.loop_closure_min_nodes
                    &&& u.odom_correction == last.odom_correction
                },
                None => {
                    &&& last.keyframes@.len() == first.keyframes@.len()
                    &&& last.loop_closure_count == first.loop_closure_count
                },
            }
        }),
{
    lemma_counts(states, stages, answers, scan, update, stages.len() - 1);
}

/// What the gyro saw serves one scan: it is the guess of this one, and is gone
/// afterwards.
pub proof fn an_imu_delta_serves_one_scan(
    states: Seq<SlamProcessor>,
    stages: Seq<ScanStage>,
    answers: Seq<ScanAnswer>,
    scan: Arc<PointCloud>,
    update: Option<SlamUpdate>,
)
    requires
        is_scan(states, stages, answers, scan, update),
    ensures
        states.last().pending_imu_delta is None,
        forall|i: int|
            0 < i < stages.len() ==> (#[trigger] stages[i]).work() is Some
                && stages[i].work()->0.imu_delta == states[0].pending_imu_delta,
{
    assert forall|i: int| 0 < i < stages.len() implies (#[trigger] stages[i]).work() is Some
        && stages[i].work()->0.imu_delta == states[0].pending_imu_delta by {
        lemma_counts(states, stages, answers, scan, update, i);
    }
    lemma_counts(states, stages, answers, scan, update, stages.len() - 1);
}

/// A scan keeps the settings and the odometry, and leaves the correction from
/// the odometry to the filter's pose.
pub proof fn a_scan_ends_with_the_correction(
    states: Seq<SlamProcessor>,
    stages: Seq<ScanStage>,
    answers: Seq<ScanAnswer>,
    scan: Arc<PointCloud>,
    update: Option<SlamUpdate>,
)
    requires
        is_scan(states, stages, answers, scan, update),
    ensures
        states.last().config == states[0].config,
        states.last().last_odom_pose == states[0].last_odom_pose,
        stages.last() matches ScanStage::Report(_, _, _, heading) && states.last().odom_correction
            == states.last().correction(heading),
{
    lemma_counts(states, stages, answers, scan, update, stages.len() - 1);
}

/// The stages of a scan that changes nothing.
pub open spec fn rests(stage: ScanStage, work: ScanWork) -> bool {
    match stage {
        ScanStage::Clock(w) => w == work,
        ScanStage::Heading(w, _) => w == work,
        ScanStage::Motion(w, _, _) => w == work,
        ScanStage::Settle(w, added, closed, _) => w == work && !added && !closed,
        ScanStage::Report(w, added, closed, _) => w == work && !added && !closed,
        _ => false,
    }
}

proof fn lemma_rests(
    states: Seq<SlamProcessor>,
    stages: Seq<ScanStage>,
    answers: Seq<ScanAnswer>,
    scan: Arc<PointCloud>,
    update: Option<SlamUpdate>,
    rotation: F64,
    i: int,
)
    requires
        is_scan(states, stages, answers, scan, update),
        answers[0] == ScanAnswer::Angle(rotation),
        !states[0].has_moved(rotation),
        states[0].keyframes@.len() > 0,
        0 < i < stages.len(),
    ensures
        rests(stages[i], states[0].begun(rotation)),
        states[i] == states[0].scanning(),
    decreases i,
{
    assert(steps_on(states, stages, answers, scan, i - 1));
    if i > 1 {
        lemma_rests(states, stages, answers, scan, update, rotation, i - 1);
    }
}

/// A scan taken while the robot stands still changes nothing but what the next
/// scan starts from and the correction, and reports nothing.
pub proof fn a_resting_scan_changes_nothing(
    states: Seq<SlamProcessor>,
    stages: Seq<ScanStage>,
    answers: Seq<ScanAnswer>,
    scan: Arc<PointCloud>,
    update: Option<SlamUpdate>,
    rotation: F64,
)
    requires
        is_scan(states, stages, answers, scan, update),
        answers[0] == ScanAnswer::Angle(rotation),
        !states[0].has_moved(rotation),
        states[0].keyframes@.len() > 0,
    ensures
        update is None,
        states.last() == (SlamProcessor {
            last_scan_odom_pose: states[0].last_odom_pose,
            pending_imu_delta: None,
            odom_correction: states.last().odom_correction,
            ..states[0]
        }),
{
    let n = stages.len() - 1;
    if n > 0 {
        lemma_rests(states, stages, answers, scan, update, rotation, n);
    }
}

/// What the stages ask for: the filter's own heading and the gyro's own yaw,
/// the pose that the match says the robot is at, the motion since the last
/// keyframe, the way from the candidate to the last keyframe, and the place at
/// which the robot was found.
pub proof fn stages_ask_for_what_they_name(
    stage: ScanStage,
    before: SlamProcessor,
    scan: Arc<PointCloud>,
    answer: ScanAnswer,
    after: SlamProcessor,
    next: ScanStage,
)
    requires
        stage.fits(&before, scan.points@),
        stage.leads_to(&before, scan, answer, &after, ScanNext::Ask(next)),
        !(stage is Optimize),
    ensures
        match next {
            ScanStage::Guess(work, heading, yaw) => {
                &&& heading == after.ekf.state.z
                &&& work.has_moved
                &&& work.reference is Some
                &&& before.pending_imu_delta matches Some(delta) ==> yaw == delta.delta_yaw
                &&& before.pending_imu_delta is None ==> yaw.zero()
            },
            ScanStage::Match(work, id, guess) => {
                &&& work.reference == Some(id)
                &&& answer matches ScanAnswer::Rotations(heading, yaw) && before.guess(
                    work,
                    heading,
                    yaw,
                ) == Some(guess)
            },
            ScanStage::Measure(_, m, place) => {
                &&& answer == ScanAnswer::Matched(Some(m))
                &&& stage matches ScanStage::Match(_, id, _) && {
                    let own = before.keyframes@[id as int].pose;
                    &&& place.shift == own.transform_point(m.transform.shift)
                    &&& place.turn == own.turn.compose(m.transform.turn)
                }
            },
            ScanStage::Found(_, id, place) => answer == ScanAnswer::Place(Some((id, place))),
            ScanStage::Heading(_, heading) => heading == after.ekf.state.z,
            ScanStage::Motion(_, heading, motion) => {
                &&& answer == ScanAnswer::Rotation(heading)
                &&& motion == after.last_keyframe_pose.relative_to(
                    &crate::transforms::Transform2D::new(
                        after.ekf.state.x,
                        after.ekf.state.y,
                        heading,
                    ),
                )
            },
            ScanStage::Close(_, candidates, at, guess) => {
                let id = candidates@[at as int].keyframe_id as int;
                &&& at < candidates@.len()
                &&& id < after.keyframes@.len() - 1
                &&& guess == after.keyframes@[id].pose.relative_to(&after.keyframes@.last().pose)
            },
            ScanStage::Settle(_, _, _, heading) => heading == after.ekf.state.z,
            ScanStage::Report(_, _, _, heading) => answer == ScanAnswer::Rotation(heading),
            _ => true,
        },
{
    if let ScanStage::Measure(_, m, _) = next {
        if let ScanStage::Match(_, id, _) = stage {
            let own = before.keyframes@[id as int].pose;
            let turned = own.turn.rotate(m.transform.shift);
            crate::float::double::sums_commute(turned.x, own.shift.x);
            crate::float::double::sums_commute(turned.y, own.shift.y);
        }
    }
}

/// Loops are looked for among all candidates: after a keyframe was added to a
/// map with enough of them, or a candidate was tried in vain, the next one that
/// may close a loop is tried, and only where there is none does the scan go on
/// without a closure.
pub proof fn every_candidate_is_tried(
    stage: ScanStage,
    before: SlamProcessor,
    scan: Arc<PointCloud>,
    answer: ScanAnswer,
    after: SlamProcessor,
    next: ScanStage,
    candidates: Seq<crate::scan_context::ScanContextCandidate>,
    from: int,
    k: int,
)
    requires
        stage.leads_to(&before, scan, answer, &after, ScanNext::Ask(next)),
        ({
            ||| {
                &&& stage is Stamp
                &&& from == 0
                &&& after.keyframes@.len() > after.config.loop_closure_min_nodes
                &&& after.keyframes@.last().descriptor matches Some(d) && candidates
                    == after.scan_context_db.candidates(d)
            }
            ||| stage matches ScanStage::Close(_, own, at, _) && own@ == candidates && from == at
                + 1 && after.loop_closure_count == before.loop_closure_count
        }),
        0 <= from <= k < candidates.len(),
        after.may_close(candidates[k].keyframe_id),
    ensures
        next matches ScanStage::Close(_, own, at, _) && {
            &&& own@ == candidates
            &&& from <= at <= k
            &&& after.may_close(candidates[at as int].keyframe_id)
        },
{
}

/// A match that agrees closes the loop, and the map is then optimized; the
/// scan is reported with a closure in the end.
pub proof fn agreeing_matches_close_the_loop(
    stage: ScanStage,
    before: SlamProcessor,
    scan: Arc<PointCloud>,
    answer: ScanAnswer,
    after: SlamProcessor,
    next: ScanStage,
)
    requires
        stage.leads_to(&before, scan, answer, &after, ScanNext::Ask(next)),
        stage is Close,
    ensures
        stage matches ScanStage::Close(work, candidates, at, _) && {
            let id = candidates@[at as int].keyframe_id;
            let closes = answer matches ScanAnswer::Matched(Some(m)) && before.closure(
                id,
                m,
            ) is Some;
            &&& closes ==> after.edges@.len() == before.edges@.len() + 1
                && after.edges@.last().from_id == id && after.edges@.last().is_loop_closure
                && after.loop_closure_count == before.loop_closure_count + 1
                && next.has_closed()
            &&& !closes ==> after == before && !next.has_closed()
        },
{
}

/// What is known of a scan is handed on: it starts without a score, takes that
/// of its match, counts as matched exactly where the score exceeds one half, and
/// nothing else changes it up to the report.
pub proof fn work_is_handed_on(
    stage: ScanStage,
    before: SlamProcessor,
    scan: Arc<PointCloud>,
    answer: ScanAnswer,
    after: SlamProcessor,
    next: ScanStage,
)
    requires
        stage.leads_to(&before, scan, answer, &after, ScanNext::Ask(next)),
        stage matches ScanStage::Measure(_, m, _) ==> m.score.finite(),
    ensures
        next.work() matches Some(work) && match stage {
            ScanStage::Odometry(_) => {
                &&& work.score.zero()
                &&& !work.matched
                &&& answer matches ScanAnswer::Angle(a) && work.has_moved == before.begun(
                    a,
                ).has_moved
            },
            ScanStage::Measure(own, m, _) => {
                &&& work.score == m.score
                &&& work.matched == (2 * m.score.value() > crate::nearness::one_unit())
                &&& work.has_moved == own.has_moved
                &&& work.reference == own.reference
                &&& work.imu_delta == own.imu_delta
            },
            ScanStage::Match(own, _, _) => {
                &&& work.score == own.score
                &&& work.has_moved == own.has_moved
                &&& work.reference == own.reference
                &&& answer == ScanAnswer::Matched(None) ==> !work.matched
            },
            _ => Some(work) == stage.work(),
        },
{
    if let ScanStage::Measure(_, m, _) = stage {
        crate::values::lemma_half();
        crate::values::order_is_by_value(
            F64::from_bits(crate::processor::TRUSTED_SCORE),
            m.score,
        );
    }
}

/// A closed loop ends in a report of it: the optimization that follows leads to
/// further stages of itself and then to the end, whether it succeeds or not.
pub proof fn optimizations_lead_to_the_end(
    stage: ScanStage,
    before: SlamProcessor,
    scan: Arc<PointCloud>,
    answer: ScanAnswer,
    after: SlamProcessor,
    next: ScanStage,
)
    requires
        stage.leads_to(&before, scan, answer, &after, ScanNext::Ask(next)),
    ensures
        stage is Optimize ==> match next {
            ScanStage::Optimize(_, _) => true,
            ScanStage::Settle(_, added, closed, heading) => added && closed && heading
                == after.ekf.state.z,
            _ => false,
        },
        stage matches ScanStage::Settle(work, added, closed, _) ==> {
            &&& next matches ScanStage::Report(w, a, c, _) && w == work && a == added && c == closed
            &&& added ==> after.begun(F64::from_bits(0)).reference == Some(
                (after.keyframes@.len() - 1) as usize,
            )
            &&& after.ekf == before.ekf
        },
{
}

} // verus!
