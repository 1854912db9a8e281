//! Pose graph optimization: steps towards poses that fit all constraints.
//!
//! An optimization is a dialogue: each stage holds what it asks for, and
//! `resume` takes the answer to the next stage or to the end.
use vstd::prelude::*;
use vstd::string::*;

use crate::error::SlamError;
use crate::float::double::F64;
use crate::float::rounding::Format;
use crate::graph::{
    apply_update, build_linear_system, edge_probes, GraphSystem, Keyframe, Nudges, EPSILON,
};
use crate::linear::{Mat3, Vec3};
use crate::processor::SlamProcessor;
use crate::transforms::{Rotation2, Transform2D};

verus! {

/// The most steps that an optimization takes.
pub const MAX_GRAPH_STEPS: usize = 10;

/// The pattern of 1e-4: a smaller step ends the optimization.
pub const GRAPH_CONVERGENCE: u64 = 0x3f1a_36e2_eb1c_432d;

/// The solution of the linear system.
#[derive(Debug)]
pub struct GraphStep {
    pub dx: Vec<Vec3>,
}

/// How far an optimization has come; each stage counts the steps taken.
#[derive(Debug)]
pub enum GraphStage {
    /// Asks for the rotations by a small angle and back
    Nudge(F64),
    /// Asks for the angles of the differences of all edges
    Probe(usize, Nudges, Vec<Vec<Transform2D>>),
    /// Asks for the solution of a linear system
    Solve(usize, Nudges, GraphSystem, Vec<Vec3>),
    /// Asks for the rotations by the angles in a solution
    Turn(usize, Nudges, GraphStep),
    /// Asks for the angle of the last keyframe's pose
    Last(Transform2D),
}

/// What a stage is answered.
#[derive(Debug)]
pub enum GraphAnswer {
    Nudges(Nudges),
    Angles(Vec<Vec<F64>>),
    Solution(Option<GraphStep>),
    Turns(Vec<Rotation2>),
    Angle(F64),
}

/// What an answer leads to.
#[derive(Debug)]
pub enum GraphNext {
    Ask(GraphStage),
    Done,
}

/// A component of a vector of blocks, counted through.
pub open spec fn component(dx: Seq<Vec3>, k: int) -> F64 {
    let block = dx[k / 3];
    if k % 3 == 0 {
        block.x
    } else if k % 3 == 1 {
        block.y
    } else {
        block.z
    }
}

/// The squares of the components.
pub open spec fn squares(dx: Seq<Vec3>) -> Seq<F64> {
    Seq::new(3 * dx.len(), |k: int| component(dx, k).times(component(dx, k)))
}

/// The sum of every eighth term from `at` on, of the first `rows` rows of
/// eight.
pub open spec fn lane(terms: Seq<F64>, at: int, rows: nat) -> F64
    decreases rows,
{
    if rows == 0 {
        F64::from_bits(0)
    } else {
        lane(terms, at, (rows - 1) as nat).plus(terms[8 * (rows - 1) + at])
    }
}

/// Two lanes, four apart.
pub open spec fn two_lanes(terms: Seq<F64>, at: int) -> F64 {
    lane(terms, at, terms.len() / 8).plus(lane(terms, at + 4, terms.len() / 8))
}

/// The sum of whole rows of eight, and then of the first terms behind them.
pub open spec fn sum_of_rows(terms: Seq<F64>, n: nat) -> F64
    decreases n,
{
    if n <= 8 * (terms.len() / 8) {
        F64::from_bits(0).plus(two_lanes(terms, 0)).plus(two_lanes(terms, 1)).plus(
            two_lanes(terms, 2),
        ).plus(two_lanes(terms, 3))
    } else {
        sum_of_rows(terms, (n - 1) as nat).plus(terms[n - 1])
    }
}

fn lane_sum(terms: &Vec<F64>, at: usize) -> (r: F64)
    requires
        at < 8,
    ensures
        r == lane(terms@, at as int, terms@.len() / 8),
{
    let rows: usize = terms.len() / 8;
    let mut r = F64::from_bits(0);
    let mut n: usize = 0;
    while n < rows
        invariant
            n <= rows,
            rows == terms@.len() / 8,
            at < 8,
            r == lane(terms@, at as int, n as nat),
        decreases rows - n,
    {
        assert(8 * n + at < terms.len());
        r = r.plus(terms[8 * n + at]);
        n = n + 1;
    }
    r
}

impl GraphStep {
    pub open spec fn spec_norm(&self) -> F64 {
        let terms = squares(self.dx@);
        sum_of_rows(terms, terms.len()).sqrt()
    }

    /// The length: the squares are summed in eight lanes, then the rest.
    #[verifier::when_used_as_spec(spec_norm)]
    pub fn norm(&self) -> (r: F64)
        ensures
            r == self.norm(),
    {
        let mut terms: Vec<F64> = Vec::new();
        let mut i: usize = 0;
        while i < self.dx.len()
            invariant
                i <= self.dx.len(),
                terms@ == squares(self.dx@).take(3 * i),
            decreases self.dx.len() - i,
        {
            let block = self.dx[i];
            terms.push(block.x.times(block.x));
            terms.push(block.y.times(block.y));
            terms.push(block.z.times(block.z));
            i = i + 1;
            assert(terms@ =~= squares(self.dx@).take(3 * i));
        }
        assert(terms@ =~= squares(self.dx@));
        let mut r = F64::from_bits(0);
        r = r.plus(lane_sum(&terms, 0).plus(lane_sum(&terms, 4)));
        r = r.plus(lane_sum(&terms, 1).plus(lane_sum(&terms, 5)));
        r = r.plus(lane_sum(&terms, 2).plus(lane_sum(&terms, 6)));
        r = r.plus(lane_sum(&terms, 3).plus(lane_sum(&terms, 7)));
        let mut n: usize = 8 * (terms.len() / 8);
        while n < terms.len()
            invariant
                8 * (terms@.len() / 8) <= n <= terms@.len(),
                r == sum_of_rows(terms@, n as nat),
            decreases terms.len() - n,
        {
            r = r.plus(terms[n]);
            n = n + 1;
        }
        r.sqrt()
    }

    /// The step is too small to be taken.
    pub open spec fn spec_is_small(&self) -> bool {
        self.norm().less(F64::from_bits(GRAPH_CONVERGENCE))
    }

    /// The step is too small to be taken.
    #[verifier::when_used_as_spec(spec_is_small)]
    pub fn is_small(&self) -> (r: bool)
        ensures
            r == self.is_small(),
    {
        self.norm().less(F64::from_bits(GRAPH_CONVERGENCE))
    }

    /// The step moves nothing.
    pub open spec fn stays(&self) -> bool {
        forall|i: int| 0 <= i < self.dx@.len() ==> is_nothing(#[trigger] self.dx@[i])
    }
}

impl SlamProcessor {
    /// The keyframes and edges form a graph.
    pub open spec fn can_optimize(&self) -> bool {
        crate::graph::is_graph(self.keyframes@, self.edges@)
    }

    /// Begin to optimize the pose graph; there is nothing to do for fewer than
    /// two keyframes.
    pub fn optimize(&self) -> (r: GraphNext)
        ensures
            r == (if self.keyframes@.len() < 2 {
                GraphNext::Done
            } else {
                GraphNext::Ask(GraphStage::Nudge(F64::from_bits(EPSILON)))
            }),
    {
        if self.keyframes.len() < 2 {
            GraphNext::Done
        } else {
            GraphNext::Ask(GraphStage::Nudge(F64::from_bits(EPSILON)))
        }
    }

    /// The differences of all edges.
    pub open spec fn is_probed(&self, nudges: &Nudges, probes: Seq<Vec<Transform2D>>) -> bool {
        &&& probes.len() == self.edges@.len()
        &&& forall|e: int|
            0 <= e < probes.len() ==> (#[trigger] probes[e])@.len() == crate::graph::PROBES
        &&& forall|e: int, slot: usize|
            0 <= e < probes.len() && slot < crate::graph::PROBES ==> (
            #[trigger] probes[e]@[slot as int]) == self.edges@[e].probe_at(
                self.keyframes@,
                nudges,
                slot,
            )
    }

    /// The linear system of the pose graph.
    pub open spec fn is_system(
        &self,
        nudges: &Nudges,
        angles: Seq<Vec<F64>>,
        system: GraphSystem,
    ) -> bool {
        &&& system.well_formed()
        &&& system.size == self.keyframes@.len()
        &&& system.holds(
            self.edges@,
            crate::graph::all_terms(
                self.keyframes@,
                self.edges@,
                nudges,
                angles,
                self.config.huber_threshold,
            ),
            self.edges@.len(),
        )
    }

    /// The linear system of the pose graph.
    pub fn build_linear_system(&self, nudges: &Nudges, angles: &Vec<Vec<F64>>) -> (r: GraphSystem)
        requires
            self.can_optimize(),
            crate::graph::has_angles(self.edges@, angles@),
        ensures
            self.is_system(nudges, angles@, r),
    {
        build_linear_system(
            &self.keyframes,
            &self.edges,
            nudges,
            angles,
            self.config.huber_threshold,
        )
    }

    /// `after` has its keyframes moved by a solution.
    pub open spec fn is_moved(
        &self,
        after: &SlamProcessor,
        dx: Seq<Vec3>,
        turns: Seq<Rotation2>,
    ) -> bool {
        &&& *after == SlamProcessor { keyframes: after.keyframes, ..*self }
        &&& after.keyframes@.len() == self.keyframes@.len()
        &&& forall|i: int|
            0 <= i < self.keyframes@.len() ==> #[trigger] after.keyframes@[i]
                == crate::graph::moved(self.keyframes@[i], dx[i], turns[i])
    }

    /// The processor with the filter at the last keyframe's pose.
    pub open spec fn at_last_keyframe(&self, angle: F64) -> SlamProcessor {
        SlamProcessor {
            ekf: self.ekf.moved_to(&self.keyframes@.last().pose, angle),
            ..*self
        }
    }

    /// The stage that follows after `taken` steps.
    fn next_graph_stage(&self, taken: usize, nudges: Nudges) -> (r: GraphStage)
        requires
            self.can_optimize(),
            self.keyframes@.len() > 0,
        ensures
            self.continues(taken, nudges, r),
    {
        if taken < MAX_GRAPH_STEPS {
            GraphStage::Probe(taken, nudges, edge_probes(&self.keyframes, &self.edges, &nudges))
        } else {
            GraphStage::Last(self.keyframes[self.keyframes.len() - 1].pose)
        }
    }

    /// After `taken` steps: another one, or the end where enough were taken.
    pub open spec fn continues(&self, taken: usize, nudges: Nudges, next: GraphStage) -> bool {
        if taken < MAX_GRAPH_STEPS {
            next matches GraphStage::Probe(t, n, probes) && t == taken && n == nudges
                && self.is_probed(&nudges, probes@)
        } else {
            next == GraphStage::Last(self.keyframes@.last().pose)
        }
    }
}

/// The system that is solved for a step: damped, with the vector negated.
pub open spec fn is_prepared(system: GraphSystem, damped: GraphSystem, right: Seq<Vec3>) -> bool {
    &&& damped.well_formed()
    &&& damped.size == system.size
    &&& forall|row: int, column: int|
        0 <= row < system.size && 0 <= column < system.size ==> #[trigger] damped.block(row, column)
            == system.damped_block(row, column)
    &&& right =~= Seq::new(system.b@.len(), |i: int| system.b@[i].negated())
}

impl GraphStage {
    /// The stage belongs to a run over the processor's graph.
    pub open spec fn fits(self, slam: &SlamProcessor) -> bool {
        &&& slam.can_optimize()
        &&& slam.keyframes@.len() > 0
        &&& match self {
            GraphStage::Nudge(_) => true,
            GraphStage::Probe(taken, _, _) => taken < MAX_GRAPH_STEPS,
            GraphStage::Solve(taken, _, _, _) => taken < MAX_GRAPH_STEPS,
            GraphStage::Turn(taken, _, step) => taken < MAX_GRAPH_STEPS && step.dx@.len()
                == slam.keyframes@.len(),
            GraphStage::Last(_) => true,
        }
    }

    /// The answer is one to the stage's question.
    pub open spec fn takes(self, slam: &SlamProcessor, answer: GraphAnswer) -> bool {
        match (self, answer) {
            (GraphStage::Nudge(_), GraphAnswer::Nudges(_)) => true,
            (GraphStage::Probe(_, _, _), GraphAnswer::Angles(angles)) => {
                crate::graph::has_angles(slam.edges@, angles@)
            },
            (GraphStage::Solve(_, _, _, _), GraphAnswer::Solution(solution)) => match solution {
                Some(step) => step.dx@.len() == slam.keyframes@.len(),
                None => true,
            },
            (GraphStage::Turn(_, _, _), GraphAnswer::Turns(turns)) => {
                turns@.len() == slam.keyframes@.len()
            },
            (GraphStage::Last(_), GraphAnswer::Angle(_)) => true,
            _ => false,
        }
    }

    /// The number of answers still to come, at most.
    pub open spec fn remaining(self) -> nat {
        match self {
            GraphStage::Nudge(_) => (3 * MAX_GRAPH_STEPS + 2) as nat,
            GraphStage::Probe(taken, _, _) => (3 * (MAX_GRAPH_STEPS - taken) + 1) as nat,
            GraphStage::Solve(taken, _, _, _) => (3 * (MAX_GRAPH_STEPS - taken)) as nat,
            GraphStage::Turn(taken, _, _) => (3 * (MAX_GRAPH_STEPS - taken) - 1) as nat,
            GraphStage::Last(_) => 1,
        }
    }

    /// What an answer leads to, and what becomes of the processor.
    pub open spec fn leads_to(
        self,
        before: &SlamProcessor,
        answer: GraphAnswer,
        after: &SlamProcessor,
        outcome: Result<GraphNext, SlamError>,
    ) -> bool {
        match (self, answer) {
            (GraphStage::Nudge(_), GraphAnswer::Nudges(nudges)) => {
                &&& *after == *before
                &&& outcome matches Ok(GraphNext::Ask(next)) && before.continues(0, nudges, next)
            },
            (GraphStage::Probe(taken, nudges, _), GraphAnswer::Angles(angles)) => {
                &&& *after == *before
                &&& outcome matches Ok(
                    GraphNext::Ask(GraphStage::Solve(t, n, damped, right)),
                ) && t == taken && n == nudges && exists|system: GraphSystem| #[trigger]
                    before.is_system(&nudges, angles@, system) && is_prepared(
                        system,
                        damped,
                        right@,
                    )
            },
            (GraphStage::Solve(taken, nudges, _, _), GraphAnswer::Solution(solution)) => {
                &&& *after == *before
                &&& match solution {
                    None => outcome matches Err(e) && e.is_optimization_failure(
                        "LU decomposition failed"@,
                    ),
                    Some(step) => if step.is_small() {
                        outcome == Ok::<GraphNext, SlamError>(
                            GraphNext::Ask(GraphStage::Last(before.keyframes@.last().pose)),
                        )
                    } else {
                        outcome == Ok::<GraphNext, SlamError>(
                            GraphNext::Ask(GraphStage::Turn(taken, nudges, step)),
                        )
                    },
                }
            },
            (GraphStage::Turn(taken, nudges, step), GraphAnswer::Turns(turns)) => {
                &&& before.is_moved(after, step.dx@, turns@)
                &&& outcome matches Ok(GraphNext::Ask(next)) && after.continues(
                    (taken + 1) as usize,
                    nudges,
                    next,
                )
            },
            (GraphStage::Last(_), GraphAnswer::Angle(angle)) => {
                &&& *after == before.at_last_keyframe(angle)
                &&& outcome == Ok::<GraphNext, SlamError>(GraphNext::Done)
            },
            _ => false,
        }
    }

    /// Take in an answer.
    pub fn resume(self, slam: &mut SlamProcessor, answer: GraphAnswer) -> (r: Result<
        GraphNext,
        SlamError,
    >)
        requires
            self.fits(old(slam)),
            self.takes(old(slam), answer),
        ensures
            self.leads_to(old(slam), answer, final(slam), r),
            r matches Ok(GraphNext::Ask(next)) ==> next.fits(final(slam)) && next.remaining()
                < self.remaining(),
            final(slam).can_optimize(),
            final(slam).keyframes@.len() == old(slam).keyframes@.len(),
            old(slam).well_formed() ==> final(slam).well_formed(),
    {
        match (self, answer) {
            (GraphStage::Nudge(_), GraphAnswer::Nudges(nudges)) => {
                Ok(GraphNext::Ask(slam.next_graph_stage(0, nudges)))
            },
            (GraphStage::Probe(taken, nudges, _), GraphAnswer::Angles(angles)) => {
                let system = slam.build_linear_system(&nudges, &angles);
                let right = system.right_hand_side();
                let ghost undamped = system;
                let damped = system.damped();
                proof {
                    assert(slam.is_system(&nudges, angles@, undamped));
                    assert(is_prepared(undamped, damped, right@));
                }
                Ok(GraphNext::Ask(GraphStage::Solve(taken, nudges, damped, right)))
            },
            (GraphStage::Solve(taken, nudges, _, _), GraphAnswer::Solution(solution)) => {
                match solution {
                    None => Err(
                        SlamError::OptimizationFailed(
                            String::from_str("LU decomposition failed"),
                        ),
                    ),
                    Some(step) => if step.is_small() {
                        let last = slam.keyframes[slam.keyframes.len() - 1].pose;
                        Ok(GraphNext::Ask(GraphStage::Last(last)))
                    } else {
                        Ok(GraphNext::Ask(GraphStage::Turn(taken, nudges, step)))
                    },
                }
            },
            (GraphStage::Turn(taken, nudges, step), GraphAnswer::Turns(turns)) => {
                apply_update(&mut slam.keyframes, &step.dx, &turns);
                Ok(GraphNext::Ask(slam.next_graph_stage(taken + 1, nudges)))
            },
            (GraphStage::Last(_), GraphAnswer::Angle(angle)) => {
                let last: usize = slam.keyframes.len() - 1;
                slam.ekf.reset_pose(&slam.keyframes[last].pose, angle);
                Ok(GraphNext::Done)
            },
            _ => vstd::pervasive::unreached(),
        }
    }
}

/// However an optimization goes, it is over after a fixed number of answers.
pub proof fn optimizations_end(stages: Seq<GraphStage>)
    requires
        stages.len() > 0,
        stages[0] is Nudge,
        forall|i: int, j: int|
            0 <= i && j == i + 1 && j < stages.len() ==> (#[trigger] stages[j]).remaining() < (
            #[trigger] stages[i]).remaining(),
    ensures
        stages.len() <= 3 * MAX_GRAPH_STEPS + 3,
{
    lemma_fewer(stages, stages.len() - 1);
}

proof fn lemma_fewer(stages: Seq<GraphStage>, n: int)
    requires
        0 <= n < stages.len(),
        forall|i: int, j: int|
            0 <= i && j == i + 1 && j < stages.len() ==> (#[trigger] stages[j]).remaining() < (
            #[trigger] stages[i]).remaining(),
    ensures
        stages[n].remaining() + n <= stages[0].remaining(),
    decreases n,
{
    if n > 0 {
        lemma_fewer(stages, n - 1);
        assert(stages[n].remaining() < stages[n - 1].remaining());
    }
}

/// No more than ten steps of an optimization move the keyframes, and the last
/// keyframe's pose is what the filter ends up with.
pub proof fn optimizations_take_ten_steps_at_most(
    stage: GraphStage,
    before: SlamProcessor,
    answer: GraphAnswer,
    after: SlamProcessor,
    outcome: Result<GraphNext, SlamError>,
)
    requires
        stage.fits(&before),
        stage.leads_to(&before, answer, &after, outcome),
    ensures
        stage matches GraphStage::Turn(taken, _, _) ==> taken < MAX_GRAPH_STEPS && (
        outcome matches Ok(GraphNext::Ask(GraphStage::Probe(next, _, _))) ==> next == taken + 1),
        !(stage is Turn) ==> after.keyframes == before.keyframes,
        outcome == Ok::<GraphNext, SlamError>(GraphNext::Done) ==> ({
            let last = after.keyframes@.last().pose;
            &&& after.ekf.state.x == last.shift.x
            &&& after.ekf.state.y == last.shift.y
            &&& answer == GraphAnswer::Angle(after.ekf.state.z)
            &&& after.ekf.covariance == before.ekf.covariance
        }),
        after.edges == before.edges,
        after.odom_correction == before.odom_correction,
        after.config == before.config,
        outcome is Err ==> after == before,
{
}

/// The vector has no length.
pub open spec fn is_nothing(v: Vec3) -> bool {
    v.x.zero() && v.y.zero() && v.z.zero()
}

/// All entries are finite.
pub open spec fn is_finite_matrix(m: Mat3) -> bool {
    &&& m.r0.x.finite() && m.r0.y.finite() && m.r0.z.finite()
    &&& m.r1.x.finite() && m.r1.y.finite() && m.r1.z.finite()
    &&& m.r2.x.finite() && m.r2.y.finite() && m.r2.z.finite()
}

impl SlamProcessor {
    /// Every edge agrees with the poses that it joins: its error is nothing.
    pub open spec fn agrees(&self, nudges: &Nudges, angles: Seq<Vec<F64>>) -> bool {
        forall|e: int|
            0 <= e < self.edges@.len() ==> is_nothing(
                (#[trigger] self.edges@[e]).error_at(self.keyframes@, nudges, angles[e]@, 0),
            )
    }

    /// The weighted derivatives of every edge are finite.
    pub open spec fn has_finite_slopes(&self, nudges: &Nudges, angles: Seq<Vec<F64>>) -> bool {
        forall|e: int|
            0 <= e < self.edges@.len() ==> {
                let edge = #[trigger] self.edges@[e];
                let error = edge.error_at(self.keyframes@, nudges, angles[e]@, 0);
                let omega = edge.omega(error, self.config.huber_threshold);
                let j_i = edge.jacobian(self.keyframes@, nudges, angles[e]@, false);
                let j_j = edge.jacobian(self.keyframes@, nudges, angles[e]@, true);
                &&& is_finite_matrix(j_i.transpose().times(omega))
                &&& is_finite_matrix(j_j.transpose().times(omega))
            }
    }
}

proof fn lemma_sum_of_nothing(a: F64, b: F64)
    requires
        a.zero(),
        b.zero(),
    ensures
        a.plus(b).zero(),
{
    crate::float::double::zero_has_no_value(a);
    crate::float::double::zero_is_neutral(a, b);
    crate::float::double::zero_has_no_value(a.plus(b));
}

proof fn lemma_no_product(row: Vec3, v: Vec3)
    requires
        row.x.finite(),
        row.y.finite(),
        row.z.finite(),
        is_nothing(v),
    ensures
        row.dot(v).zero(),
{
    reveal(Vec3::spec_dot);
    crate::float::double::zero_absorbs(row.x, v.x);
    crate::float::double::zero_absorbs(row.y, v.y);
    crate::float::double::zero_absorbs(row.z, v.z);
    lemma_sum_of_nothing(row.x.times(v.x), row.y.times(v.y));
    lemma_sum_of_nothing(row.x.times(v.x).plus(row.y.times(v.y)), row.z.times(v.z));
}

proof fn lemma_no_pull(m: Mat3, v: Vec3)
    requires
        is_finite_matrix(m),
        is_nothing(v),
    ensures
        is_nothing(m.apply(v)),
{
    lemma_no_product(m.r0, v);
    lemma_no_product(m.r1, v);
    lemma_no_product(m.r2, v);
}

proof fn lemma_no_vector_sum(a: Vec3, b: Vec3)
    requires
        is_nothing(a),
        is_nothing(b),
    ensures
        is_nothing(a.plus(b)),
{
    lemma_sum_of_nothing(a.x, b.x);
    lemma_sum_of_nothing(a.y, b.y);
    lemma_sum_of_nothing(a.z, b.z);
}

proof fn lemma_no_side(
    slam: SlamProcessor,
    nudges: &Nudges,
    angles: Seq<Vec<F64>>,
    row: int,
    n: nat,
)
    requires
        slam.agrees(nudges, angles),
        slam.has_finite_slopes(nudges, angles),
        n <= slam.edges@.len(),
    ensures
        is_nothing(
            crate::graph::side_sum(
                slam.edges@,
                crate::graph::all_terms(
                    slam.keyframes@,
                    slam.edges@,
                    nudges,
                    angles,
                    slam.config.huber_threshold,
                ),
                row,
                n,
            ),
        ),
    decreases n,
{
    if n > 0 {
        lemma_no_side(slam, nudges, angles, row, (n - 1) as nat);
        let edges = slam.edges@;
        let edge = edges[n - 1];
        let own = angles[n - 1]@;
        let terms = crate::graph::all_terms(
            slam.keyframes@,
            edges,
            nudges,
            angles,
            slam.config.huber_threshold,
        );
        let before = crate::graph::side_sum(edges, terms, row, (n - 1) as nat);
        let error = edge.error_at(slam.keyframes@, nudges, own, 0);
        let omega = edge.omega(error, slam.config.huber_threshold);
        let j_i = edge.jacobian(slam.keyframes@, nudges, own, false);
        let j_j = edge.jacobian(slam.keyframes@, nudges, own, true);
        assert(terms[n - 1] == edge.terms(
            slam.keyframes@,
            nudges,
            own,
            slam.config.huber_threshold,
        ));
        reveal(crate::graph::spec_normal_terms);
        assert(is_nothing(error));
        lemma_no_pull(j_i.transpose().times(omega), error);
        lemma_no_pull(j_j.transpose().times(omega), error);
        lemma_no_vector_sum(before, terms[n - 1].b_i);
        lemma_no_vector_sum(before, terms[n - 1].b_j);
    }
}

/// A graph whose edges agree with its poses asks for no step: the right-hand
/// side of its linear system is nothing.
pub proof fn agreeing_graphs_ask_for_no_step(
    slam: SlamProcessor,
    taken: usize,
    nudges: Nudges,
    probes: Vec<Vec<Transform2D>>,
    angles: Vec<Vec<F64>>,
    after: SlamProcessor,
    outcome: Result<GraphNext, SlamError>,
)
    requires
        slam.agrees(&nudges, angles@),
        slam.has_finite_slopes(&nudges, angles@),
        GraphStage::Probe(taken, nudges, probes).leads_to(
            &slam,
            GraphAnswer::Angles(angles),
            &after,
            outcome,
        ),
    ensures
        after == slam,
        outcome matches Ok(GraphNext::Ask(GraphStage::Solve(_, _, _, right))) && {
            &&& right@.len() == slam.keyframes@.len()
            &&& forall|i: int| 0 <= i < right@.len() ==> is_nothing(#[trigger] right@[i])
        },
{
    if let Ok(GraphNext::Ask(GraphStage::Solve(_, _, damped, right))) = outcome {
        let system = choose|system: GraphSystem| #[trigger]
            slam.is_system(&nudges, angles@, system) && is_prepared(system, damped, right@);
        assert forall|i: int| 0 <= i < right@.len() implies is_nothing(#[trigger] right@[i]) by {
            lemma_no_side(slam, &nudges, angles@, i, slam.edges@.len());
            assert(right@[i] == system.b@[i].negated());
        }
    }
}

proof fn lemma_no_lane(terms: Seq<F64>, at: int, rows: nat)
    requires
        0 <= at < 8,
        rows <= terms.len() / 8,
        forall|k: int| 0 <= k < terms.len() ==> (#[trigger] terms[k]).zero(),
    ensures
        lane(terms, at, rows).zero(),
    decreases rows,
{
    Format::double().lemma_zero();
    if rows > 0 {
        lemma_no_lane(terms, at, (rows - 1) as nat);
        lemma_sum_of_nothing(lane(terms, at, (rows - 1) as nat), terms[8 * (rows - 1) + at]);
    }
}

proof fn lemma_no_rows(terms: Seq<F64>, n: nat)
    requires
        n <= terms.len(),
        forall|k: int| 0 <= k < terms.len() ==> (#[trigger] terms[k]).zero(),
    ensures
        sum_of_rows(terms, n).zero(),
    decreases n,
{
    if n <= 8 * (terms.len() / 8) {
        let rows = terms.len() / 8;
        let zero = F64::from_bits(0);
        assert forall|at: int| 0 <= at < 4 implies (#[trigger] two_lanes(terms, at)).zero() by {
            lemma_no_lane(terms, at, rows);
            lemma_no_lane(terms, at + 4, rows);
            lemma_sum_of_nothing(lane(terms, at, rows), lane(terms, at + 4, rows));
        }
        let (a, b) = (two_lanes(terms, 0), two_lanes(terms, 1));
        let c = two_lanes(terms, 2);
        lemma_sum_of_nothing(zero, a);
        lemma_sum_of_nothing(zero.plus(a), b);
        lemma_sum_of_nothing(zero.plus(a).plus(b), c);
        lemma_sum_of_nothing(zero.plus(a).plus(b).plus(c), two_lanes(terms, 3));
    } else {
        lemma_no_rows(terms, (n - 1) as nat);
        lemma_sum_of_nothing(sum_of_rows(terms, (n - 1) as nat), terms[n - 1]);
    }
}

/// A step that moves nothing has no length, and is not taken.
pub proof fn steps_without_motion_are_small(step: GraphStep)
    requires
        step.stays(),
    ensures
        step.norm().zero(),
        step.is_small(),
{
    let f = Format::double();
    let terms = squares(step.dx@);
    assert forall|k: int| 0 <= k < terms.len() implies (#[trigger] terms[k]).zero() by {
        let c = component(step.dx@, k);
        assert(is_nothing(step.dx@[k / 3]));
        crate::float::double::zero_absorbs(c, c);
    }
    lemma_no_rows(terms, terms.len());
    reveal(F64::spec_sqrt);
    reveal(F64::spec_less);
    f.lemma_zero();
    f.lemma_monotone(0, GRAPH_CONVERGENCE as nat);
}

/// A step is small exactly where its length is less than a ten thousandth.
pub proof fn small_steps_are_short(step: GraphStep)
    requires
        step.norm().finite(),
    ensures
        step.is_small() == (step.norm().value() < F64::from_bits(GRAPH_CONVERGENCE).value()),
        crate::constant_laws::is_ratio(GRAPH_CONVERGENCE, 1, 10000),
{
    crate::values::order_is_by_value(step.norm(), F64::from_bits(GRAPH_CONVERGENCE));
    crate::constant_laws::constants_are_what_they_are_called();
}

/// The solution of a system whose right-hand side is nothing has no length, and
/// such a step, like every small one, is not taken: the keyframes stay, and the
/// filter takes up the pose of the last one. Doing so again changes nothing.
pub proof fn small_steps_leave_the_graph(
    slam: SlamProcessor,
    stage: GraphStage,
    step: GraphStep,
    after: SlamProcessor,
    outcome: Result<GraphNext, SlamError>,
    angle: F64,
    end: SlamProcessor,
    last: Result<GraphNext, SlamError>,
)
    requires
        stage is Solve,
        step.stays() || step.is_small(),
        stage.leads_to(&slam, GraphAnswer::Solution(Some(step)), &after, outcome),
        GraphStage::Last(slam.keyframes@.last().pose).leads_to(
            &after,
            GraphAnswer::Angle(angle),
            &end,
            last,
        ),
    ensures
        outcome == Ok::<GraphNext, SlamError>(
            GraphNext::Ask(GraphStage::Last(slam.keyframes@.last().pose)),
        ),
        after == slam,
        last == Ok::<GraphNext, SlamError>(GraphNext::Done),
        end.keyframes == slam.keyframes,
        end == slam.at_last_keyframe(angle),
        end.at_last_keyframe(angle) == end,
{
    if step.stays() {
        steps_without_motion_are_small(step);
    }
}

/// An optimization leaves a graph whose edges agree with its poses as it is:
/// it ends without an error, the keyframes and edges stay, and the filter takes
/// up the pose of the last keyframe. What is asked of the linear system is
/// nothing, so a solution is nothing too, or small.
pub proof fn agreeing_graphs_stay_as_they_are(
    slam: SlamProcessor,
    nudges: Nudges,
    angles: Vec<Vec<F64>>,
    step: GraphStep,
    angle: F64,
    states: Seq<SlamProcessor>,
    stages: Seq<GraphStage>,
    outcomes: Seq<Result<GraphNext, SlamError>>,
)
    requires
        slam.keyframes@.len() >= 2,
        slam.agrees(&nudges, angles@),
        slam.has_finite_slopes(&nudges, angles@),
        step.stays() || step.is_small(),
        states.len() == 5,
        stages.len() == 4,
        outcomes.len() == 4,
        states[0] == slam,
        stages[0] == GraphStage::Nudge(F64::from_bits(EPSILON)),
        forall|k: int|
            0 <= k < 3 ==> #[trigger] outcomes[k] == Ok::<GraphNext, SlamError>(
                GraphNext::Ask(stages[k + 1]),
            ),
        stages[0].leads_to(&states[0], GraphAnswer::Nudges(nudges), &states[1], outcomes[0]),
        stages[1].leads_to(&states[1], GraphAnswer::Angles(angles), &states[2], outcomes[1]),
        stages[2].leads_to(
            &states[2],
            GraphAnswer::Solution(Some(step)),
            &states[3],
            outcomes[2],
        ),
        stages[3].leads_to(&states[3], GraphAnswer::Angle(angle), &states[4], outcomes[3]),
    ensures
        outcomes[3] == Ok::<GraphNext, SlamError>(GraphNext::Done),
        stages[2] matches GraphStage::Solve(_, _, _, right) && forall|i: int|
            0 <= i < right@.len() ==> is_nothing(#[trigger] right@[i]),
        states[4].keyframes == slam.keyframes,
        states[4].edges == slam.edges,
        states[4] == slam.at_last_keyframe(angle),
        states[4].at_last_keyframe(angle) == states[4],
{
    assert(outcomes[0] == Ok::<GraphNext, SlamError>(GraphNext::Ask(stages[1])));
    assert(outcomes[1] == Ok::<GraphNext, SlamError>(GraphNext::Ask(stages[2])));
    assert(outcomes[2] == Ok::<GraphNext, SlamError>(GraphNext::Ask(stages[3])));
    if let GraphStage::Probe(taken, own, probes) = stages[1] {
        agreeing_graphs_ask_for_no_step(
            slam,
            taken,
            own,
            probes,
            angles,
            states[2],
            outcomes[1],
        );
    }
    small_steps_leave_the_graph(
        slam,
        stages[2],
        step,
        states[3],
        outcomes[2],
        angle,
        states[4],
        outcomes[3],
    );
}

} // verus!
