//! A match from beginning to end, as a dialogue.
//!
//! Each stage holds what it asks for, and `resume` takes the answer to the
//! next stage, to the result, or to a failure.
use vstd::prelude::*;

use crate::error::SlamError;
use crate::float::double::F64;
use crate::float::single::F32;
use crate::linear::Mat3;
use crate::transforms::Transform2D;

use super::covariance::{estimate_covariances, neighbour_spreads, Decomposition};
use super::normal::{Mat6, Nearest, Turns, Vec6};
use super::{CorrelativeScanMatcher, MatchSession, ScanMatchResult, ScanPair, NEIGHBOURS};

verus! {

/// What a match starts from.
#[derive(Clone, Copy, Debug)]
pub struct MatchStart {
    pub matcher: CorrelativeScanMatcher,
    pub guess: Transform2D,
}

/// How far a match has come.
#[derive(Debug)]
pub enum MatchStage {
    /// Asks for the nearest neighbours of the points of each scan
    Neighbours(ScanPair, MatchStart),
    /// Asks for the decompositions of the spreads of each scan
    Decompose(ScanPair, MatchStart, Vec<Option<Mat3>>, Vec<Option<Mat3>>),
    /// Asks for the angle of the guess, with the covariances of each scan
    Yaw(ScanPair, MatchStart, Vec<Mat3>, Vec<Mat3>),
    /// Asks for the rotations by the session's angles
    Turn(MatchSession),
    /// Asks for the reference points nearest to some places
    Find(MatchSession, Turns, Vec<(F32, F32, F32)>),
    /// Asks for the solution of a linear system
    Solve(MatchSession, Mat6, Vec6),
    /// Asks for the inverse of a matrix, with the number of points that
    /// correspond
    Invert(MatchSession, Turns, Mat6, usize),
}

/// What a stage is answered.
#[derive(Debug)]
pub enum MatchAnswer {
    Neighbours(Vec<Vec<usize>>, Vec<Vec<usize>>),
    Decompositions(Vec<Option<Decomposition>>, Vec<Option<Decomposition>>),
    Angle(F64),
    Turns(Turns),
    Nearest(Vec<Nearest>),
    Solution(Option<Vec6>),
    Inverse(Option<Mat6>),
}

/// What an answer leads to.
#[derive(Debug)]
pub enum MatchStep {
    Ask(MatchStage),
    Done(ScanMatchResult),
}

impl MatchStage {
    pub open spec fn well_formed(self) -> bool {
        match self {
            MatchStage::Neighbours(pair, _) => pair.current@.len() > 0,
            MatchStage::Decompose(pair, _, reference, current) => {
                &&& pair.current@.len() > 0
                &&& reference@.len() == pair.reference@.len()
                &&& current@.len() == pair.current@.len()
            },
            MatchStage::Yaw(pair, _, reference, current) => {
                &&& pair.current@.len() > 0
                &&& reference@.len() == pair.reference@.len()
                &&& current@.len() == pair.current@.len()
            },
            MatchStage::Turn(session) => session.well_formed(),
            MatchStage::Find(session, _, _) => session.well_formed(),
            MatchStage::Solve(session, _, _) => session.well_formed() && session.wants_step(),
            MatchStage::Invert(session, _, _, valid) => {
                &&& session.well_formed()
                &&& valid <= session.scans.current@.len()
            },
        }
    }

    /// The answer is one to the stage's question.
    pub open spec fn takes(self, answer: MatchAnswer) -> bool {
        match (self, answer) {
            (MatchStage::Neighbours(pair, _), MatchAnswer::Neighbours(reference, current)) => {
                &&& super::covariance::fits_points(pair.reference@, NEIGHBOURS, reference@)
                &&& super::covariance::fits_points(pair.current@, NEIGHBOURS, current@)
            },
            (
                MatchStage::Decompose(_, _, reference, current),
                MatchAnswer::Decompositions(of_reference, of_current),
            ) => {
                &&& super::covariance::decomposed(reference@, of_reference@)
                &&& super::covariance::decomposed(current@, of_current@)
            },
            (MatchStage::Yaw(_, _, _, _), MatchAnswer::Angle(_)) => true,
            (MatchStage::Turn(_), MatchAnswer::Turns(_)) => true,
            (MatchStage::Find(session, _, _), MatchAnswer::Nearest(nearest)) => {
                session.scans.answered(nearest@)
            },
            (MatchStage::Solve(_, _, _), MatchAnswer::Solution(_)) => true,
            (MatchStage::Invert(_, _, _, _), MatchAnswer::Inverse(_)) => true,
            _ => false,
        }
    }

    /// What is still to come: the part of the match, and the place within it.
    pub open spec fn remaining(self) -> (nat, nat) {
        match self {
            MatchStage::Neighbours(_, _) => (5, 0),
            MatchStage::Decompose(_, _, _, _) => (4, 0),
            MatchStage::Yaw(_, _, _, _) => (3, 0),
            MatchStage::Turn(session) => (
                2,
                (3 * (session.max_iterations - session.iteration) + 2) as nat,
            ),
            MatchStage::Find(session, _, _) => (
                2,
                (3 * (session.max_iterations - session.iteration) + 1) as nat,
            ),
            MatchStage::Solve(session, _, _) => (
                2,
                (3 * (session.max_iterations - session.iteration)) as nat,
            ),
            MatchStage::Invert(_, _, _, _) => (1, 0),
        }
    }

    /// Less is to come than before.
    pub open spec fn closer_than(self, before: MatchStage) -> bool {
        let (a, b) = (self.remaining(), before.remaining());
        a.0 < b.0 || a.0 == b.0 && a.1 < b.1
    }

    /// The next stage, the result or the failure that an answer leads to.
    pub open spec fn leads_to(
        self,
        answer: MatchAnswer,
        outcome: Result<MatchStep, SlamError>,
    ) -> bool {
        match (self, answer) {
            (MatchStage::Neighbours(pair, start), MatchAnswer::Neighbours(near_r, near_c)) => {
                outcome matches Ok(MatchStep::Ask(MatchStage::Decompose(p, s, reference, current)))
                    && {
                    &&& p == pair
                    &&& s == start
                    &&& reference@ =~= Seq::new(
                        pair.reference@.len(),
                        |i: int|
                            super::covariance::spread_at(pair.reference@, NEIGHBOURS, near_r@, i),
                    )
                    &&& current@ =~= Seq::new(
                        pair.current@.len(),
                        |i: int|
                            super::covariance::spread_at(pair.current@, NEIGHBOURS, near_c@, i),
                    )
                }
            },
            (
                MatchStage::Decompose(pair, start, of_r, of_c),
                MatchAnswer::Decompositions(parts_r, parts_c),
            ) => {
                outcome matches Ok(MatchStep::Ask(MatchStage::Yaw(p, s, reference, current))) && {
                    &&& p == pair
                    &&& s == start
                    &&& reference@ =~= Seq::new(
                        of_r@.len(),
                        |i: int| super::covariance::covariance_of(of_r@[i], parts_r@[i]),
                    )
                    &&& current@ =~= Seq::new(
                        of_c@.len(),
                        |i: int| super::covariance::covariance_of(of_c@[i], parts_c@[i]),
                    )
                }
            },
            (MatchStage::Yaw(pair, start, reference, current), MatchAnswer::Angle(yaw)) => {
                outcome matches Ok(MatchStep::Ask(MatchStage::Turn(session)))
                    && start.matcher.starts(
                    pair,
                    reference@,
                    current@,
                    &start.guess,
                    yaw,
                    session,
                )
            },
            (MatchStage::Turn(session), MatchAnswer::Turns(turns)) => {
                outcome matches Ok(MatchStep::Ask(MatchStage::Find(s, t, places))) && {
                    &&& s == session
                    &&& t == turns
                    &&& places@ =~= session.scans.places(turns.attitude(), session.pose.shift)
                }
            },
            (MatchStage::Find(session, turns, _), MatchAnswer::Nearest(nearest)) => {
                let tally = session.tally(&turns, nearest@);
                let overlap = session.overlap(&turns, nearest@);
                if !session.wants_step() {
                    outcome matches Ok(MatchStep::Ask(MatchStage::Invert(s, t, m, valid))) && {
                        &&& s == session
                        &&& t == turns
                        &&& m == tally.h.regularized()
                        &&& valid == tally.valid
                    }
                } else if overlap.less(session.min_overlap) {
                    outcome matches Err(e) && e.is_match_failure(
                        super::overlap::overlap_text(overlap),
                    )
                } else {
                    outcome matches Ok(MatchStep::Ask(MatchStage::Solve(s, h, b))) && {
                        &&& s == session
                        &&& h == tally.h.regularized()
                        &&& b == tally.b.negated()
                    }
                }
            },
            (MatchStage::Solve(session, _, _), MatchAnswer::Solution(solution)) => {
                match solution {
                    Some(dx) => outcome matches Ok(MatchStep::Ask(MatchStage::Turn(s))) && s
                        == session.stepped(dx),
                    None => outcome matches Err(e) && e.is_match_failure(
                        "Linear system solve failed"@,
                    ),
                }
            },
            (MatchStage::Invert(session, turns, _, valid), MatchAnswer::Inverse(inverse)) => {
                outcome matches Ok(MatchStep::Done(r)) && r == session.result(
                    valid,
                    inverse,
                    turns.yaw,
                )
            },
            _ => false,
        }
    }

    /// Take in an answer.
    pub fn resume(self, answer: MatchAnswer) -> (r: Result<MatchStep, SlamError>)
        requires
            self.well_formed(),
            self.takes(answer),
        ensures
            self.leads_to(answer, r),
            r matches Ok(MatchStep::Ask(next)) ==> next.well_formed() && next.closer_than(self),
    {
        match (self, answer) {
            (MatchStage::Neighbours(pair, start), MatchAnswer::Neighbours(near_r, near_c)) => {
                let reference = neighbour_spreads(&pair.reference, NEIGHBOURS, &near_r);
                let current = neighbour_spreads(&pair.current, NEIGHBOURS, &near_c);
                Ok(MatchStep::Ask(MatchStage::Decompose(pair, start, reference, current)))
            },
            (
                MatchStage::Decompose(pair, start, of_r, of_c),
                MatchAnswer::Decompositions(parts_r, parts_c),
            ) => {
                let reference = estimate_covariances(&of_r, &parts_r);
                let current = estimate_covariances(&of_c, &parts_c);
                Ok(MatchStep::Ask(MatchStage::Yaw(pair, start, reference, current)))
            },
            (MatchStage::Yaw(pair, start, reference, current), MatchAnswer::Angle(yaw)) => {
                let session = start.matcher.start(pair, reference, current, &start.guess, yaw);
                Ok(MatchStep::Ask(MatchStage::Turn(session)))
            },
            (MatchStage::Turn(session), MatchAnswer::Turns(turns)) => {
                let places = session.scans.queries(&turns.attitude(), session.pose.shift);
                Ok(MatchStep::Ask(MatchStage::Find(session, turns, places)))
            },
            (MatchStage::Find(session, turns, _), MatchAnswer::Nearest(nearest)) => {
                if session.wants_step() {
                    match session.equations(&turns, &nearest) {
                        Ok((h, b)) => Ok(MatchStep::Ask(MatchStage::Solve(session, h, b))),
                        Err(e) => Err(e),
                    }
                } else {
                    let (information, valid) = session.information(&turns, &nearest);
                    Ok(MatchStep::Ask(MatchStage::Invert(session, turns, information, valid)))
                }
            },
            (MatchStage::Solve(session, _, _), MatchAnswer::Solution(solution)) => {
                let mut session = session;
                match session.advance(solution) {
                    Ok(_) => Ok(MatchStep::Ask(MatchStage::Turn(session))),
                    Err(e) => Err(e),
                }
            },
            (MatchStage::Invert(session, turns, _, valid), MatchAnswer::Inverse(inverse)) => {
                Ok(MatchStep::Done(session.finish(valid, inverse, turns.yaw)))
            },
            _ => vstd::pervasive::unreached(),
        }
    }
}

/// The score of every match is a share of its points, between nothing and
/// one.
pub proof fn scores_are_at_most_one(
    stage: MatchStage,
    answer: MatchAnswer,
    result: ScanMatchResult,
)
    requires
        stage.well_formed(),
        stage.leads_to(answer, Ok(MatchStep::Done(result))),
        stage matches MatchStage::Invert(session, _, _, _) ==> session.scans.current@.len()
            <= usize::MAX,
    ensures
        result.score.bits <= crate::linear::ONE,
{
    if let MatchStage::Invert(session, _, _, valid) = stage {
        super::overlap::shares_are_at_most_one(valid, session.scans.current@.len() as usize);
    }
}

} // verus!
