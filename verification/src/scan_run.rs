//! The processing of a scan from beginning to end, as a dialogue.
//!
//! Each stage holds what it asks for, and `resume` takes the answer to the
//! next stage, or to the update that is reported of the scan. At most one
//! thing happens to the processor between two stages.
use std::sync::Arc;

use vstd::prelude::*;

use crate::float::double::F64;
use crate::graph::PoseGraphEdge;
use crate::linear::Vec3;
use crate::optimizer::{GraphAnswer, GraphNext, GraphStage};
use crate::processor::{descriptor_points, ScanWork, SlamProcessor, SlamUpdate};
use crate::scan_context::{ScanContextCandidate, ScanContextDescriptor};
use crate::scan_matcher::ScanMatchResult;
use crate::transforms::{Rotation2, Transform2D};
use crate::types::PointCloud;

verus! {

/// How far the processing of a scan has come.
#[derive(Debug)]
pub enum ScanStage {
    /// Asks for the angle of the odometry motion since the last scan
    Odometry(Transform2D),
    /// Asks for the rotations by the filter's heading and by the gyro's yaw
    Guess(ScanWork, F64, F64),
    /// Asks for a match of the scan against a keyframe, from a guess
    Match(ScanWork, usize, Transform2D),
    /// Asks for the angle of the pose that was measured
    Measure(ScanWork, ScanMatchResult, Transform2D),
    /// Asks for the time
    Clock(ScanWork),
    /// Asks for a keyframe and a pose at which the robot is found
    Search(ScanWork),
    /// Asks for the angle of the pose at which the robot was found
    Found(ScanWork, usize, Transform2D),
    /// Asks for the rotation by the filter's heading
    Heading(ScanWork, F64),
    /// Asks for the angle of the motion since the last keyframe
    Motion(ScanWork, Rotation2, Transform2D),
    /// Asks for the azimuths of the scan's points
    Describe(ScanWork, Rotation2, Vec<Vec3>),
    /// Asks for the time at which the keyframe is added
    Stamp(ScanWork, Rotation2, ScanContextDescriptor),
    /// Asks for a match of the last keyframe against the candidate at a
    /// position, from a guess
    Close(ScanWork, Vec<ScanContextCandidate>, usize, Transform2D),
    /// Asks what a stage of an optimization asks
    Optimize(ScanWork, GraphStage),
    /// Asks for the rotation by the filter's heading; a keyframe was added,
    /// and a loop closed
    Settle(ScanWork, bool, bool, F64),
    /// Asks for the angle of that rotation
    Report(ScanWork, bool, bool, Rotation2),
}

/// What a stage is answered.
#[derive(Debug)]
pub enum ScanAnswer {
    Angle(F64),
    Rotation(Rotation2),
    Rotations(Rotation2, Rotation2),
    Matched(Option<ScanMatchResult>),
    Time(u64),
    Place(Option<(usize, Transform2D)>),
    Azimuths(Vec<F64>),
    Graph(GraphAnswer),
}

/// What an answer leads to.
#[derive(Debug)]
pub enum ScanNext {
    Ask(ScanStage),
    Done(Option<SlamUpdate>),
}

impl SlamProcessor {
    /// Begin to process a scan.
    pub fn first_stage(&self) -> (r: ScanStage)
        ensures
            r == ScanStage::Odometry(self.odometry_since_scan()),
    {
        ScanStage::Odometry(self.odometry_since_scan())
    }

    /// The yaw that the gyro saw.
    pub open spec fn gyro_yaw(work: ScanWork) -> F64 {
        match work.imu_delta {
            Some(delta) => delta.delta_yaw,
            None => F64::from_bits(0),
        }
    }

    /// After the beginning: a match where the robot moved and is on the map.
    pub open spec fn after_begin(&self, work: ScanWork) -> ScanStage {
        if work.has_moved && work.reference is Some {
            ScanStage::Guess(work, self.ekf.state.z, Self::gyro_yaw(work))
        } else {
            ScanStage::Clock(work)
        }
    }

    /// After the last keyframe was added or tried in vain on the candidates
    /// before `from`: the next candidate, or the end.
    pub open spec fn seeks(
        &self,
        work: ScanWork,
        candidates: Seq<ScanContextCandidate>,
        from: int,
        next: ScanStage,
    ) -> bool {
        match next {
            ScanStage::Close(w, c, at, guess) => {
                &&& w == work
                &&& c@ == candidates
                &&& from <= at < candidates.len()
                &&& self.may_close(candidates[at as int].keyframe_id)
                &&& forall|k: int|
                    from <= k < at ==> !self.may_close((#[trigger] candidates[k]).keyframe_id)
                &&& guess == self.closure_guess(candidates[at as int].keyframe_id)
            },
            ScanStage::Settle(w, added, closed, heading) => {
                &&& w == work
                &&& added
                &&& !closed
                &&& heading == self.ekf.state.z
                &&& forall|k: int|
                    from <= k < candidates.len() ==> !self.may_close(
                        (#[trigger] candidates[k]).keyframe_id,
                    )
            },
            _ => false,
        }
    }

    /// After a keyframe was added: the search for a loop, or the end.
    pub open spec fn after_keyframe(&self, work: ScanWork, next: ScanStage) -> bool {
        if self.wants_closure() {
            match self.keyframes@.last().descriptor {
                Some(d) => self.seeks(work, self.scan_context_db.candidates(d), 0, next),
                None => next == ScanStage::Settle(work, true, false, self.ekf.state.z),
            }
        } else {
            next == ScanStage::Settle(work, true, false, self.ekf.state.z)
        }
    }

    /// Go on to the next candidate for a loop, or to the end.
    fn seek(&self, work: ScanWork, candidates: Vec<ScanContextCandidate>, from: usize) -> (r:
        ScanStage)
        requires
            self.keyframes@.len() > 0,
            from <= candidates@.len(),
        ensures
            self.seeks(work, candidates@, from as int, r),
            r matches ScanStage::Close(_, c, at, _) ==> c@ == candidates@ && at >= from,
    {
        match self.next_candidate(&candidates, from) {
            Some(at) => {
                let guess = self.closure_guess(candidates[at].keyframe_id);
                ScanStage::Close(work, candidates, at, guess)
            },
            None => ScanStage::Settle(work, true, false, self.ekf.state.z),
        }
    }
}

impl ScanStage {
    /// The stage belongs to the processing of a scan with the given points.
    pub open spec fn fits(self, slam: &SlamProcessor, points: Seq<crate::types::Point3D>) -> bool {
        match self {
            ScanStage::Odometry(_) => true,
            ScanStage::Guess(work, _, _) => {
                &&& slam.accepts(work)
                &&& work.has_moved
                &&& work.reference is Some
            },
            ScanStage::Match(work, reference, _) => {
                &&& slam.accepts(work)
                &&& work.reference == Some(reference)
            },
            ScanStage::Measure(work, _, _) => slam.accepts(work) && work.reference is Some,
            ScanStage::Clock(_) => true,
            ScanStage::Search(_) => true,
            ScanStage::Found(_, id, _) => id < slam.keyframes@.len(),
            ScanStage::Heading(_, _) => true,
            ScanStage::Motion(_, _, _) => true,
            ScanStage::Describe(_, _, own) => own@ == crate::processor::described(
                points,
                points.len(),
            ),
            ScanStage::Stamp(_, _, descriptor) => slam.sized(descriptor),
            ScanStage::Close(_, candidates, at, _) => {
                &&& at < candidates@.len()
                &&& slam.keyframes@.len() > 0
                &&& slam.may_close(candidates@[at as int].keyframe_id)
            },
            ScanStage::Optimize(_, stage) => stage.fits(slam),
            ScanStage::Settle(_, added, _, _) => added ==> slam.keyframes@.len() > 0,
            ScanStage::Report(_, _, _, _) => true,
        }
    }

    /// The answer is one to the stage's question, and where it makes the
    /// processor count, the count has room.
    pub open spec fn takes(
        self,
        slam: &SlamProcessor,
        points: Seq<crate::types::Point3D>,
        answer: ScanAnswer,
    ) -> bool {
        match (self, answer) {
            (ScanStage::Odometry(_), ScanAnswer::Angle(_)) => true,
            (ScanStage::Guess(_, _, _), ScanAnswer::Rotations(_, _)) => true,
            (ScanStage::Match(_, _, _), ScanAnswer::Matched(result)) => {
                result is Some || slam.consecutive_match_failures < u32::MAX
            },
            (ScanStage::Measure(_, m, _), ScanAnswer::Angle(_)) => {
                crate::processor::trusted(Some(m)) || slam.consecutive_match_failures < u32::MAX
            },
            (ScanStage::Clock(_), ScanAnswer::Time(_)) => true,
            (ScanStage::Search(_), ScanAnswer::Place(place)) => match place {
                Some((id, _)) => id < slam.keyframes@.len(),
                None => true,
            },
            (ScanStage::Found(_, _, _), ScanAnswer::Angle(_)) => true,
            (ScanStage::Heading(_, _), ScanAnswer::Rotation(_)) => true,
            (ScanStage::Motion(_, _, _), ScanAnswer::Angle(_)) => true,
            (ScanStage::Describe(_, _, own), ScanAnswer::Azimuths(azimuths)) => {
                &&& azimuths@.len() == own@.len()
                &&& slam.config.scan_context.covers(own@)
            },
            (ScanStage::Stamp(_, _, _), ScanAnswer::Time(_)) => true,
            (ScanStage::Close(_, candidates, at, _), ScanAnswer::Matched(result)) => {
                ({
                    &&& result matches Some(m)
                    &&& slam.closure(candidates@[at as int].keyframe_id, m) is Some
                }) ==> slam.loop_closure_count < usize::MAX
            },
            (ScanStage::Optimize(_, stage), ScanAnswer::Graph(own)) => stage.takes(slam, own),
            (ScanStage::Settle(_, _, _, _), ScanAnswer::Rotation(_)) => true,
            (ScanStage::Report(_, _, _, _), ScanAnswer::Angle(_)) => true,
            _ => false,
        }
    }

    /// What is still to come: the part of the processing, and the place within
    /// it.
    pub open spec fn remaining(self) -> (nat, nat) {
        match self {
            ScanStage::Odometry(_) => (14, 0),
            ScanStage::Guess(_, _, _) => (13, 0),
            ScanStage::Match(_, _, _) => (12, 0),
            ScanStage::Measure(_, _, _) => (11, 0),
            ScanStage::Clock(_) => (10, 0),
            ScanStage::Search(_) => (9, 0),
            ScanStage::Found(_, _, _) => (8, 0),
            ScanStage::Heading(_, _) => (7, 0),
            ScanStage::Motion(_, _, _) => (6, 0),
            ScanStage::Describe(_, _, _) => (5, 0),
            ScanStage::Stamp(_, _, _) => (4, 0),
            ScanStage::Close(_, candidates, at, _) => (3, (candidates@.len() - at) as nat),
            ScanStage::Optimize(_, stage) => (2, stage.remaining()),
            ScanStage::Settle(_, _, _, _) => (1, 0),
            ScanStage::Report(_, _, _, _) => (0, 0),
        }
    }

    /// Less is to come than before.
    pub open spec fn closer_than(self, before: ScanStage) -> bool {
        let (a, b) = (self.remaining(), before.remaining());
        a.0 < b.0 || a.0 == b.0 && a.1 < b.1
    }

    /// What an answer leads to, and what becomes of the processor.
    pub open spec fn leads_to(
        self,
        before: &SlamProcessor,
        scan: Arc<PointCloud>,
        answer: ScanAnswer,
        after: &SlamProcessor,
        outcome: ScanNext,
    ) -> bool {
        match (self, answer) {
            (ScanStage::Odometry(_), ScanAnswer::Angle(rotation)) => {
                &&& *after == before.scanning()
                &&& outcome == ScanNext::Ask(after.after_begin(before.begun(rotation)))
            },
            (ScanStage::Guess(work, _, _), ScanAnswer::Rotations(heading, yaw)) => {
                &&& *after == *before
                &&& outcome == ScanNext::Ask(
                    ScanStage::Match(
                        work,
                        work.reference->0,
                        before.guess(work, heading, yaw)->0,
                    ),
                )
            },
            (ScanStage::Match(work, reference, _), ScanAnswer::Matched(result)) => match result {
                Some(m) => {
                    &&& *after == *before
                    &&& outcome == ScanNext::Ask(
                        ScanStage::Measure(work, m, before.measured_pose(reference, &m)),
                    )
                },
                None => {
                    &&& *after == before.corrected(work, None, F64::from_bits(0))
                    &&& outcome == ScanNext::Ask(ScanStage::Clock(work.with_match(None)))
                },
            },
            (ScanStage::Measure(work, m, _), ScanAnswer::Angle(angle)) => {
                &&& *after == before.corrected(work, Some(m), angle)
                &&& outcome == ScanNext::Ask(ScanStage::Clock(work.with_match(Some(m))))
            },
            (ScanStage::Clock(work), ScanAnswer::Time(now)) => {
                &&& *after == before.searching(work, now)
                &&& outcome == ScanNext::Ask(
                    if before.is_lost(work, now) {
                        ScanStage::Search(work)
                    } else {
                        ScanStage::Heading(work, before.ekf.state.z)
                    },
                )
            },
            (ScanStage::Search(work), ScanAnswer::Place(place)) => {
                &&& *after == *before
                &&& outcome == ScanNext::Ask(
                    match place {
                        Some((id, pose)) => ScanStage::Found(work, id, pose),
                        None => ScanStage::Heading(work, before.ekf.state.z),
                    },
                )
            },
            (ScanStage::Found(work, id, pose), ScanAnswer::Angle(angle)) => {
                &&& *after == before.resumed(id, pose, angle)
                &&& outcome == ScanNext::Ask(ScanStage::Heading(work, after.ekf.state.z))
            },
            (ScanStage::Heading(work, _), ScanAnswer::Rotation(heading)) => {
                &&& *after == *before
                &&& outcome == ScanNext::Ask(
                    ScanStage::Motion(work, heading, before.keyframe_motion(heading)),
                )
            },
            (ScanStage::Motion(work, heading, _), ScanAnswer::Angle(angle)) => {
                &&& *after == *before
                &&& if before.wants_keyframe(&work, heading, angle) {
                    outcome matches ScanNext::Ask(ScanStage::Describe(w, h, points)) && w == work
                        && h == heading && points@ == crate::processor::described(
                        scan.points@,
                        scan.points@.len(),
                    )
                } else {
                    outcome == ScanNext::Ask(
                        ScanStage::Settle(work, false, false, before.ekf.state.z),
                    )
                }
            },
            (ScanStage::Describe(work, heading, points), ScanAnswer::Azimuths(azimuths)) => {
                &&& *after == *before
                &&& outcome matches ScanNext::Ask(ScanStage::Stamp(w, h, descriptor)) && w == work
                    && h == heading && before.config.scan_context.describes(
                    points@,
                    azimuths@,
                    descriptor,
                )
            },
            (ScanStage::Stamp(work, heading, descriptor), ScanAnswer::Time(now)) => {
                &&& before.gains_keyframe(after, scan, descriptor, heading, now)
                &&& outcome matches ScanNext::Ask(next) && after.after_keyframe(work, next)
            },
            (ScanStage::Close(work, candidates, at, _), ScanAnswer::Matched(result)) => {
                let id = candidates@[at as int].keyframe_id;
                let closure = match result {
                    Some(m) => before.closure(id, m),
                    None => None,
                };
                match closure {
                    Some(edge) => {
                        &&& before.gains_closure(after, edge)
                        &&& outcome == ScanNext::Ask(
                            ScanStage::Optimize(
                                work,
                                GraphStage::Nudge(F64::from_bits(crate::graph::EPSILON)),
                            ),
                        )
                    },
                    None => {
                        &&& *after == *before
                        &&& outcome matches ScanNext::Ask(next) && before.seeks(
                            work,
                            candidates@,
                            at + 1,
                            next,
                        )
                    },
                }
            },
            (ScanStage::Optimize(work, stage), ScanAnswer::Graph(own)) => {
                exists|step: Result<GraphNext, crate::error::SlamError>| #[trigger]
                    stage.leads_to(before, own, after, step) && outcome == ScanNext::Ask(
                        match step {
                            Ok(GraphNext::Ask(next)) => ScanStage::Optimize(work, next),
                            _ => ScanStage::Settle(work, true, true, after.ekf.state.z),
                        },
                    )
            },
            (ScanStage::Settle(work, added, closed, _), ScanAnswer::Rotation(heading)) => {
                &&& *after == if added {
                    before.settled()
                } else {
                    *before
                }
                &&& outcome == ScanNext::Ask(ScanStage::Report(work, added, closed, heading))
            },
            (ScanStage::Report(work, added, closed, heading), ScanAnswer::Angle(angle)) => {
                &&& *after == before.finished(heading)
                &&& outcome == ScanNext::Done(
                    before.report(work, added, closed, heading, angle),
                )
            },
            _ => false,
        }
    }

    /// Take in an answer.
    #[verifier::rlimit(50)]
    #[verifier::spinoff_prover]
    pub fn resume(self, slam: &mut SlamProcessor, scan: &Arc<PointCloud>, answer: ScanAnswer) -> (r:
        ScanNext)
        requires
            old(slam).well_formed(),
            self.fits(old(slam), scan.points@),
            self.takes(old(slam), scan.points@, answer),
        ensures
            self.leads_to(old(slam), *scan, answer, final(slam), r),
            r matches ScanNext::Ask(next) ==> next.fits(final(slam), scan.points@)
                && next.closer_than(self),
            final(slam).well_formed(),
    {
        match (self, answer) {
            (ScanStage::Odometry(_), ScanAnswer::Angle(rotation)) => {
                let work = slam.process_scan(rotation);
                if work.has_moved && work.reference.is_some() {
                    let yaw = match &work.imu_delta {
                        Some(delta) => delta.delta_yaw,
                        None => F64::from_bits(0),
                    };
                    ScanNext::Ask(ScanStage::Guess(work, slam.ekf.state.z, yaw))
                } else {
                    ScanNext::Ask(ScanStage::Clock(work))
                }
            },
            (ScanStage::Guess(work, _, _), ScanAnswer::Rotations(heading, yaw)) => {
                match (work.reference, slam.match_guess(&work, heading, yaw)) {
                    (Some(reference), Some(guess)) => {
                        ScanNext::Ask(ScanStage::Match(work, reference, guess))
                    },
                    _ => vstd::pervasive::unreached(),
                }
            },
            (ScanStage::Match(work, reference, _), ScanAnswer::Matched(result)) => match result {
                Some(m) => {
                    let place = slam.measured_pose(reference, &m);
                    ScanNext::Ask(ScanStage::Measure(work, m, place))
                },
                None => {
                    let work = slam.absorb_match(work, None, F64::from_bits(0));
                    ScanNext::Ask(ScanStage::Clock(work))
                },
            },
            (ScanStage::Measure(work, m, _), ScanAnswer::Angle(angle)) => {
                let work = slam.absorb_match(work, Some(m), angle);
                ScanNext::Ask(ScanStage::Clock(work))
            },
            (ScanStage::Clock(work), ScanAnswer::Time(now)) => {
                if slam.try_relocalization(&work, now) {
                    ScanNext::Ask(ScanStage::Search(work))
                } else {
                    ScanNext::Ask(ScanStage::Heading(work, slam.ekf.state.z))
                }
            },
            (ScanStage::Search(work), ScanAnswer::Place(place)) => match place {
                Some((id, pose)) => ScanNext::Ask(ScanStage::Found(work, id, pose)),
                None => ScanNext::Ask(ScanStage::Heading(work, slam.ekf.state.z)),
            },
            (ScanStage::Found(work, id, pose), ScanAnswer::Angle(angle)) => {
                slam.relocalized(id, pose, angle);
                ScanNext::Ask(ScanStage::Heading(work, slam.ekf.state.z))
            },
            (ScanStage::Heading(work, _), ScanAnswer::Rotation(heading)) => {
                let motion = slam.keyframe_motion(heading);
                ScanNext::Ask(ScanStage::Motion(work, heading, motion))
            },
            (ScanStage::Motion(work, heading, _), ScanAnswer::Angle(angle)) => {
                if slam.wants_keyframe(&work, heading, angle) {
                    let points = descriptor_points(scan);
                    ScanNext::Ask(ScanStage::Describe(work, heading, points))
                } else {
                    ScanNext::Ask(ScanStage::Settle(work, false, false, slam.ekf.state.z))
                }
            },
            (ScanStage::Describe(work, heading, _), ScanAnswer::Azimuths(azimuths)) => {
                let descriptor = slam.compute_descriptor(scan, &azimuths);
                ScanNext::Ask(ScanStage::Stamp(work, heading, descriptor))
            },
            (ScanStage::Stamp(work, heading, descriptor), ScanAnswer::Time(now)) => {
                slam.add_keyframe(scan.clone(), descriptor, heading, now);
                if slam.wants_closure() {
                    let candidates = slam.closure_candidates();
                    ScanNext::Ask(slam.seek(work, candidates, 0))
                } else {
                    ScanNext::Ask(ScanStage::Settle(work, true, false, slam.ekf.state.z))
                }
            },
            (ScanStage::Close(work, candidates, at, _), ScanAnswer::Matched(result)) => {
                let id: usize = candidates[at].keyframe_id;
                assert(at < candidates.len());
                let closure: Option<PoseGraphEdge> = match &result {
                    Some(m) => slam.judge_closure(id, m),
                    None => None,
                };
                match closure {
                    Some(edge) => {
                        slam.close_loop(edge);
                        match slam.optimize() {
                            GraphNext::Ask(stage) => ScanNext::Ask(
                                ScanStage::Optimize(work, stage),
                            ),
                            GraphNext::Done => vstd::pervasive::unreached(),
                        }
                    },
                    None => ScanNext::Ask(slam.seek(work, candidates, at + 1)),
                }
            },
            (ScanStage::Optimize(work, stage), ScanAnswer::Graph(own)) => {
                match stage.resume(slam, own) {
                    Ok(GraphNext::Ask(next)) => ScanNext::Ask(ScanStage::Optimize(work, next)),
                    Ok(GraphNext::Done) => ScanNext::Ask(
                        ScanStage::Settle(work, true, true, slam.ekf.state.z),
                    ),
                    Err(_) => ScanNext::Ask(
                        ScanStage::Settle(work, true, true, slam.ekf.state.z),
                    ),
                }
            },
            (ScanStage::Settle(work, added, closed, _), ScanAnswer::Rotation(heading)) => {
                if added {
                    slam.settle_keyframe();
                }
                ScanNext::Ask(ScanStage::Report(work, added, closed, heading))
            },
            (ScanStage::Report(work, added, closed, heading), ScanAnswer::Angle(angle)) => {
                ScanNext::Done(slam.finish_scan(&work, added, closed, heading, angle))
            },
            _ => vstd::pervasive::unreached(),
        }
    }
}

} // verus!
