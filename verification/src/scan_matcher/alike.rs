//! Matches that go alike: what a match does not depend on.
use vstd::prelude::*;

use crate::error::SlamError;
use crate::linear::Vec3;
use crate::transforms::Transform2D;
use crate::types::PointCloud;

use super::normal::{Attitude, Nearest, Scans};
use super::run::{MatchAnswer, MatchStage, MatchStart, MatchStep};
use super::{CorrelativeScanMatcher, MatchSession, ScanPair};

verus! {

/// The settings of two matchers differ at most in the search ranges.
pub open spec fn same_but_ranges(a: CorrelativeScanMatcher, b: CorrelativeScanMatcher) -> bool {
    &&& a.config.resolution == b.config.resolution
    &&& a.config.max_iterations == b.config.max_iterations
    &&& a.config.convergence_threshold == b.config.convergence_threshold
    &&& a.config.max_correspondence_dist == b.config.max_correspondence_dist
    &&& a.config.min_overlap == b.config.min_overlap
}

pub open spec fn alike_pairs(a: ScanPair, b: ScanPair) -> bool {
    a.reference@ == b.reference@ && a.current@ == b.current@
}

pub open spec fn alike_starts(a: MatchStart, b: MatchStart) -> bool {
    same_but_ranges(a.matcher, b.matcher) && a.guess == b.guess
}

pub open spec fn alike_scans(a: Scans, b: Scans) -> bool {
    &&& a.reference@ == b.reference@
    &&& a.current@ == b.current@
    &&& a.reference_covariances@ == b.reference_covariances@
    &&& a.current_covariances@ == b.current_covariances@
    &&& a.max_dist_sq == b.max_dist_sq
}

pub open spec fn alike_sessions(a: MatchSession, b: MatchSession) -> bool {
    &&& alike_scans(a.scans, b.scans)
    &&& a.min_overlap == b.min_overlap
    &&& a.convergence_threshold == b.convergence_threshold
    &&& a.max_iterations == b.max_iterations
    &&& a.pose == b.pose
    &&& a.iteration == b.iteration
    &&& a.converged == b.converged
}

/// Two stages that ask the same, of matches that differ at most in the search
/// ranges.
pub open spec fn alike(a: MatchStage, b: MatchStage) -> bool {
    match (a, b) {
        (MatchStage::Neighbours(p, s), MatchStage::Neighbours(q, t)) => {
            alike_pairs(p, q) && alike_starts(s, t)
        },
        (MatchStage::Decompose(p, s, r, c), MatchStage::Decompose(q, t, v, w)) => {
            alike_pairs(p, q) && alike_starts(s, t) && r@ == v@ && c@ == w@
        },
        (MatchStage::Yaw(p, s, r, c), MatchStage::Yaw(q, t, v, w)) => {
            alike_pairs(p, q) && alike_starts(s, t) && r@ == v@ && c@ == w@
        },
        (MatchStage::Turn(x), MatchStage::Turn(y)) => alike_sessions(x, y),
        (MatchStage::Find(x, s, p), MatchStage::Find(y, t, q)) => {
            alike_sessions(x, y) && s == t && p@ == q@
        },
        (MatchStage::Solve(x, h, b), MatchStage::Solve(y, g, d)) => {
            alike_sessions(x, y) && h == g && b == d
        },
        (MatchStage::Invert(x, s, m, n), MatchStage::Invert(y, t, k, l)) => {
            alike_sessions(x, y) && s == t && m == k && n == l
        },
        _ => false,
    }
}

/// Two outcomes with the same question, the same result, or failures for the
/// same reason.
pub open spec fn alike_outcomes(
    a: Result<MatchStep, SlamError>,
    b: Result<MatchStep, SlamError>,
) -> bool {
    match (a, b) {
        (Ok(MatchStep::Ask(x)), Ok(MatchStep::Ask(y))) => alike(x, y),
        (Ok(MatchStep::Done(x)), Ok(MatchStep::Done(y))) => x == y,
        (Err(x), Err(y)) => x.text() == y.text(),
        _ => false,
    }
}

proof fn lemma_tally(
    a: Scans,
    b: Scans,
    at: Attitude,
    trans: Vec3,
    nearest: Seq<Nearest>,
    n: nat,
)
    requires
        alike_scans(a, b),
    ensures
        a.tally(at, trans, nearest, n) == b.tally(at, trans, nearest, n),
    decreases n,
{
    if n > 0 {
        lemma_tally(a, b, at, trans, nearest, (n - 1) as nat);
    }
}

/// The same answer leads alike stages to alike outcomes.
pub proof fn alike_stages_go_on_alike(
    a: MatchStage,
    b: MatchStage,
    answer: MatchAnswer,
    of_a: Result<MatchStep, SlamError>,
    of_b: Result<MatchStep, SlamError>,
)
    requires
        alike(a, b),
        a.leads_to(answer, of_a),
        b.leads_to(answer, of_b),
    ensures
        alike_outcomes(of_a, of_b),
{
    match (a, b, answer) {
        (
            MatchStage::Find(x, turns, _),
            MatchStage::Find(y, _, _),
            MatchAnswer::Nearest(nearest),
        ) => {
            lemma_tally(
                x.scans,
                y.scans,
                turns.attitude(),
                x.pose.shift,
                nearest@,
                x.scans.current@.len(),
            );
        },
        (MatchStage::Turn(x), MatchStage::Turn(y), MatchAnswer::Turns(turns)) => {
            assert(x.scans.places(turns.attitude(), x.pose.shift) =~= y.scans.places(
                turns.attitude(),
                y.pose.shift,
            ));
        },
        _ => {},
    }
}

/// A match from its first stage to its end: the stages, the answers to them,
/// and the outcome.
pub open spec fn is_match(
    stages: Seq<MatchStage>,
    answers: Seq<MatchAnswer>,
    outcome: Result<MatchStep, SlamError>,
) -> bool {
    &&& stages.len() > 0
    &&& answers.len() == stages.len()
    &&& forall|i: int| 0 <= i < stages.len() - 1 ==> #[trigger] goes_on(stages, answers, i)
    &&& stages.last().leads_to(answers.last(), outcome)
}

/// An answer leads from one stage to the next.
pub open spec fn goes_on(stages: Seq<MatchStage>, answers: Seq<MatchAnswer>, i: int) -> bool {
    stages[i].leads_to(answers[i], Ok(MatchStep::Ask(stages[i + 1])))
}

proof fn lemma_alike_at(
    a: Seq<MatchStage>,
    b: Seq<MatchStage>,
    answers: Seq<MatchAnswer>,
    of_a: Result<MatchStep, SlamError>,
    of_b: Result<MatchStep, SlamError>,
    i: int,
)
    requires
        is_match(a, answers, of_a),
        is_match(b, answers, of_b),
        alike(a[0], b[0]),
        0 <= i < a.len(),
    ensures
        alike(a[i], b[i]),
    decreases i,
{
    if i > 0 {
        lemma_alike_at(a, b, answers, of_a, of_b, i - 1);
        assert(goes_on(a, answers, i - 1));
        assert(goes_on(b, answers, i - 1));
        alike_stages_go_on_alike(
            a[i - 1],
            b[i - 1],
            answers[i - 1],
            Ok(MatchStep::Ask(a[i])),
            Ok(MatchStep::Ask(b[i])),
        );
    }
}

/// The search ranges do not matter. Matchers that differ only in them open a
/// match of the same scans alike, or refuse it for the same reason; and
/// matches that opened alike and were answered alike end with the same result,
/// or fail for the same reason.
pub proof fn search_ranges_do_not_matter(
    one: CorrelativeScanMatcher,
    two: CorrelativeScanMatcher,
    reference: &PointCloud,
    current: &PointCloud,
    guess: Transform2D,
    first: Result<MatchStage, SlamError>,
    second: Result<MatchStage, SlamError>,
)
    requires
        same_but_ranges(one, two),
        one.opens(reference, current, guess, first),
        two.opens(reference, current, guess, second),
    ensures
        match (first, second) {
            (Ok(a), Ok(b)) => {
                &&& alike(a, b)
                &&& forall|
                    of_one: Seq<MatchStage>,
                    of_two: Seq<MatchStage>,
                    answers: Seq<MatchAnswer>,
                    end: Result<MatchStep, SlamError>,
                    other_end: Result<MatchStep, SlamError>,
                | #[trigger] is_match(of_one, answers, end) && #[trigger] is_match(
                    of_two,
                    answers,
                    other_end,
                ) && of_one[0] == a && of_two[0] == b ==> alike_outcomes(end, other_end)
            },
            (Err(e), Err(f)) => e.text() == f.text(),
            _ => false,
        },
{
    if let (Ok(a), Ok(b)) = (first, second) {
        assert forall|
            of_one: Seq<MatchStage>,
            of_two: Seq<MatchStage>,
            answers: Seq<MatchAnswer>,
            end: Result<MatchStep, SlamError>,
            other_end: Result<MatchStep, SlamError>,
        | #[trigger] is_match(of_one, answers, end) && #[trigger] is_match(
            of_two,
            answers,
            other_end,
        ) && of_one[0] == a && of_two[0] == b implies alike_outcomes(end, other_end) by {
            lemma_alike_at(of_one, of_two, answers, end, other_end, of_one.len() - 1);
            alike_stages_go_on_alike(
                of_one.last(),
                of_two.last(),
                answers.last(),
                end,
                other_end,
            );
        }
    }
}

} // verus!
