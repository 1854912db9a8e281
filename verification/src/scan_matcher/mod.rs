//! 3D Generalized ICP (GICP) scan matcher.
//!
//! A 3D point-to-plane ICP variant that uses local covariance matrices.
//! The result is projected back to 2D (x, y, yaw) for the pose graph.
//!
//! Matching is a dialogue: `match_scans` prepares the points of both scans and
//! opens the first stage of `run`, and each stage says what it needs next:
//! neighbours, decompositions, rotations, nearest points or linear solutions.
use vstd::prelude::*;
use vstd::string::*;

use crate::error::SlamError;
use crate::float::double::F64;
use crate::linear::{Mat3, Vec3, ONE};
use crate::transforms::{Rotation2, Transform2D};
use crate::types::PointCloud;

use self::normal::{Mat6, Nearest, Scans, Tally, Turns, Vec6, SMALL};
use self::overlap::{overlap_reason, share};
use self::run::{MatchStage, MatchStart};
use self::voxel::voxel_downsample;

pub mod alike;
pub mod covariance;
pub mod laws;
pub mod normal;
pub mod overlap;
pub mod run;
pub mod voxel;

verus! {

/// The pattern of 0.2.
pub const RESOLUTION: u64 = 0x3fc9_9999_9999_999a;

/// The pattern of 0.5.
pub const LINEAR_RANGE: u64 = 0x3fe0_0000_0000_0000;

/// The pattern of 0.26.
pub const ANGULAR_RANGE: u64 = 0x3fd0_a3d7_0a3d_70a4;

/// The pattern of 1e-4.
pub const CONVERGENCE: u64 = 0x3f1a_36e2_eb1c_432d;

/// The pattern of 0.3.
pub const MIN_OVERLAP: u64 = 0x3fd3_3333_3333_3333;

/// The pattern of 0.1: the variance of a match that determines nothing.
pub const UNKNOWN_VARIANCE: u64 = 0x3fb9_9999_9999_999a;

/// The least number of points that can be matched.
pub const MIN_POINTS: usize = 10;

/// The number of neighbours that a covariance is taken from.
pub const NEIGHBOURS: usize = 10;

/// Configuration for GICP scan matching.
#[derive(Clone, Copy, Debug)]
pub struct ScanMatchConfig {
    /// Voxel size for downsampling (meters)
    pub resolution: F64,
    /// Linear search range - unused in GICP, kept for config compat
    pub linear_range: F64,
    /// Angular search range - unused in GICP, kept for config compat
    pub angular_range: F64,
    /// Maximum GICP iterations
    pub max_iterations: usize,
    /// Convergence threshold (pose delta norm)
    pub convergence_threshold: F64,
    /// Maximum correspondence distance for outlier rejection (meters)
    pub max_correspondence_dist: F64,
    /// Minimum fraction of points with valid correspondences
    pub min_overlap: F64,
}

impl Default for ScanMatchConfig {
    fn default() -> (r: ScanMatchConfig)
        ensures
            r.resolution.bits == RESOLUTION,
            r.linear_range.bits == LINEAR_RANGE,
            r.angular_range.bits == ANGULAR_RANGE,
            r.max_iterations == 30,
            r.convergence_threshold.bits == CONVERGENCE,
            r.max_correspondence_dist.bits == ONE,
            r.min_overlap.bits == MIN_OVERLAP,
    {
        ScanMatchConfig {
            resolution: F64::from_bits(RESOLUTION),
            linear_range: F64::from_bits(LINEAR_RANGE),
            angular_range: F64::from_bits(ANGULAR_RANGE),
            max_iterations: 30,
            convergence_threshold: F64::from_bits(CONVERGENCE),
            max_correspondence_dist: F64::from_bits(ONE),
            min_overlap: F64::from_bits(MIN_OVERLAP),
        }
    }
}

/// Result of scan matching.
#[derive(Clone, Copy, Debug)]
pub struct ScanMatchResult {
    /// Estimated relative transform (projected to 2D: x, y, yaw)
    pub transform: Transform2D,
    /// Match quality score (0-1, overlap ratio)
    pub score: F64,
    /// Estimated covariance of the match (3x3: x, y, yaw)
    pub covariance: Mat3,
}

/// The downsampled points of the two scans of a match.
#[derive(Debug)]
pub struct ScanPair {
    pub reference: Vec<Vec3>,
    pub current: Vec<Vec3>,
}

/// 3D GICP scan matcher.
#[derive(Clone, Copy, Debug)]
pub struct CorrelativeScanMatcher {
    pub config: ScanMatchConfig,
}

/// A match under way.
#[derive(Debug)]
pub struct MatchSession {
    /// The points of both scans and their covariances
    pub scans: Scans,
    pub min_overlap: F64,
    pub convergence_threshold: F64,
    pub max_iterations: usize,
    /// The estimate so far
    pub pose: Vec6,
    /// Steps taken
    pub iteration: usize,
    /// The last step was a small one
    pub converged: bool,
}

impl CorrelativeScanMatcher {
    /// Create a new scan matcher.
    pub fn new(config: ScanMatchConfig) -> (r: CorrelativeScanMatcher)
        ensures
            r.config == config,
    {
        CorrelativeScanMatcher { config }
    }

    /// What is left of a scan.
    pub open spec fn points_of(&self, scan: &PointCloud) -> Seq<Vec3> {
        voxel::downsampled(scan.points@, self.config.resolution)
    }

    /// Both scans hold enough points to be matched.
    pub open spec fn can_match(&self, reference: &PointCloud, current: &PointCloud) -> bool {
        &&& self.points_of(reference).len() >= MIN_POINTS
        &&& self.points_of(current).len() >= MIN_POINTS
    }

    /// The first stage of a match, or the failure where there are too few
    /// points for one.
    pub open spec fn opens(
        &self,
        reference: &PointCloud,
        current: &PointCloud,
        initial_guess: Transform2D,
        first: Result<MatchStage, SlamError>,
    ) -> bool {
        &&& first.is_ok() == self.can_match(reference, current)
        &&& match first {
            Ok(stage) => stage matches MatchStage::Neighbours(pair, start) && {
                &&& pair.reference@ == self.points_of(reference)
                &&& pair.current@ == self.points_of(current)
                &&& start.matcher == *self
                &&& start.guess == initial_guess
            },
            Err(e) => e.is_match_failure("Too few points after downsampling"@),
        }
    }

    /// Match current scan to reference scan: the first stage of the match, or
    /// why there is none.
    pub fn match_scans(
        &self,
        reference: &PointCloud,
        current: &PointCloud,
        initial_guess: Transform2D,
    ) -> (r: Result<MatchStage, SlamError>)
        ensures
            self.opens(reference, current, initial_guess, r),
            r matches Ok(stage) ==> stage.well_formed(),
    {
        let ref_points = voxel_downsample(&reference.points, self.config.resolution);
        let cur_points = voxel_downsample(&current.points, self.config.resolution);
        if ref_points.len() < MIN_POINTS || cur_points.len() < MIN_POINTS {
            return Err(
                SlamError::ScanMatchFailed(
                    String::from_str("Too few points after downsampling"),
                ),
            );
        }
        Ok(
            MatchStage::Neighbours(
                ScanPair { reference: ref_points, current: cur_points },
                MatchStart { matcher: *self, guess: initial_guess },
            ),
        )
    }

    /// A session at its start.
    pub open spec fn starts(
        &self,
        pair: ScanPair,
        reference_covariances: Seq<Mat3>,
        current_covariances: Seq<Mat3>,
        initial_guess: &Transform2D,
        yaw: F64,
        session: MatchSession,
    ) -> bool {
        let dist = self.config.max_correspondence_dist;
        let zero = F64::from_bits(0);
        &&& session.scans.reference@ == pair.reference@
        &&& session.scans.current@ == pair.current@
        &&& session.scans.reference_covariances@ == reference_covariances
        &&& session.scans.current_covariances@ == current_covariances
        &&& session.scans.max_dist_sq == dist.times(dist).to_single()
        &&& session.min_overlap == self.config.min_overlap
        &&& session.convergence_threshold == self.config.convergence_threshold
        &&& session.max_iterations == self.config.max_iterations
        &&& session.pose == Vec6 {
            shift: Vec3::new(initial_guess.shift.x, initial_guess.shift.y, zero),
            turn: Vec3::new(zero, zero, yaw),
        }
        &&& session.iteration == 0
        &&& !session.converged
    }

    /// Begin a match at an initial guess with the given angle.
    pub fn start(
        &self,
        pair: ScanPair,
        reference_covariances: Vec<Mat3>,
        current_covariances: Vec<Mat3>,
        initial_guess: &Transform2D,
        yaw: F64,
    ) -> (r: MatchSession)
        requires
            reference_covariances@.len() == pair.reference@.len(),
            current_covariances@.len() == pair.current@.len(),
            pair.current@.len() > 0,
        ensures
            r.well_formed(),
            self.starts(
                pair,
                reference_covariances@,
                current_covariances@,
                initial_guess,
                yaw,
                r,
            ),
    {
        let dist = self.config.max_correspondence_dist;
        let zero = F64::from_bits(0);
        MatchSession {
            scans: Scans {
                reference: pair.reference,
                current: pair.current,
                reference_covariances,
                current_covariances,
                max_dist_sq: dist.times(dist).to_single(),
            },
            min_overlap: self.config.min_overlap,
            convergence_threshold: self.config.convergence_threshold,
            max_iterations: self.config.max_iterations,
            pose: Vec6 {
                shift: Vec3::new(initial_guess.shift.x, initial_guess.shift.y, zero),
                turn: Vec3::new(zero, zero, yaw),
            },
            iteration: 0,
            converged: false,
        }
    }
}

impl MatchSession {
    /// There are points to match, each with a covariance, and no more steps
    /// were taken than are allowed.
    pub open spec fn well_formed(&self) -> bool {
        &&& self.scans.well_formed()
        &&& self.scans.current@.len() > 0
        &&& self.iteration <= self.max_iterations
    }

    pub open spec fn spec_wants_step(&self) -> bool {
        !self.converged && self.iteration < self.max_iterations
    }

    /// Another step is to be taken before the match is finished.
    #[verifier::when_used_as_spec(spec_wants_step)]
    pub fn wants_step(&self) -> (r: bool)
        ensures
            r == self.wants_step(),
    {
        !self.converged && self.iteration < self.max_iterations
    }

    /// Roll, pitch and yaw of the estimate, and each a small step further on:
    /// the angles whose rotations `Turns` holds.
    pub fn angles(&self) -> (r: (Vec3, Vec3))
        ensures
            r.0 == self.pose.turn,
            r.1 == self.pose.turn.plus(
                Vec3::new(F64::from_bits(SMALL), F64::from_bits(SMALL), F64::from_bits(SMALL)),
            ),
    {
        let step = F64::from_bits(SMALL);
        (self.pose.turn, self.pose.turn.plus(Vec3::new(step, step, step)))
    }

    /// What the correspondences of all points add up to.
    pub open spec fn tally(&self, turns: &Turns, nearest: Seq<Nearest>) -> Tally {
        self.scans.tally(
            turns.attitude(),
            self.pose.shift,
            nearest,
            self.scans.current@.len(),
        )
    }

    /// The share of current points that correspond to a reference point.
    pub open spec fn overlap(&self, turns: &Turns, nearest: Seq<Nearest>) -> F64 {
        share(self.tally(turns, nearest).valid, self.scans.current@.len() as usize)
    }

    /// The linear system of the next step, matrix and right-hand side, or the
    /// reason why too few points correspond.
    pub fn equations(&self, turns: &Turns, nearest: &Vec<Nearest>) -> (r: Result<
        (Mat6, Vec6),
        SlamError,
    >)
        requires
            self.well_formed(),
            self.scans.answered(nearest@),
        ensures
            r.is_ok() == !self.overlap(turns, nearest@).less(self.min_overlap),
            match r {
                Ok(system) => {
                    let tally = self.tally(turns, nearest@);
                    system == (tally.h.regularized(), tally.b.negated())
                },
                Err(e) => e.is_match_failure(
                    overlap::overlap_text(self.overlap(turns, nearest@)),
                ),
            },
    {
        let tally = self.scans.tally_all(&turns.attitude(), self.pose.shift, nearest);
        let overlap = share(tally.valid, self.scans.current.len());
        if overlap.less(self.min_overlap) {
            proof {
                overlap::shares_are_at_most_one(tally.valid, self.scans.current@.len() as usize);
            }
            return Err(SlamError::ScanMatchFailed(overlap_reason(overlap)));
        }
        Ok((tally.h.regularized(), tally.b.negated()))
    }

    /// The session one step further on.
    pub open spec fn stepped(&self, dx: Vec6) -> MatchSession {
        MatchSession {
            pose: self.pose.plus(dx),
            iteration: (self.iteration + 1) as usize,
            converged: dx.norm().less(self.convergence_threshold),
            ..*self
        }
    }

    /// The session after the first `n` of some steps.
    pub open spec fn after(&self, steps: Seq<Vec6>, n: nat) -> MatchSession
        decreases n,
    {
        if n == 0 {
            *self
        } else {
            self.after(steps, (n - 1) as nat).stepped(steps[n - 1])
        }
    }

    /// Take the step that solves the linear system.
    pub fn advance(&mut self, solution: Option<Vec6>) -> (r: Result<(), SlamError>)
        requires
            old(self).well_formed(),
            old(self).wants_step(),
        ensures
            final(self).well_formed(),
            r.is_ok() == solution.is_some(),
            r matches Err(e) ==> e.is_match_failure("Linear system solve failed"@)
                && *final(self) == *old(self),
            solution matches Some(dx) ==> *final(self) == old(self).stepped(dx),
    {
        match solution {
            Some(dx) => {
                self.pose = self.pose.plus(dx);
                self.iteration = self.iteration + 1;
                self.converged = dx.norm().less(self.convergence_threshold);
                Ok(())
            },
            None => Err(
                SlamError::ScanMatchFailed(String::from_str("Linear system solve failed")),
            ),
        }
    }

    /// The information matrix of the estimate, and the number of points that
    /// correspond.
    pub fn information(&self, turns: &Turns, nearest: &Vec<Nearest>) -> (r: (Mat6, usize))
        requires
            self.well_formed(),
            self.scans.answered(nearest@),
        ensures
            r.0 == self.tally(turns, nearest@).h.regularized(),
            r.1 == self.tally(turns, nearest@).valid,
            r.1 <= self.scans.current@.len(),
    {
        let tally = self.scans.tally_all(&turns.attitude(), self.pose.shift, nearest);
        (tally.h.regularized(), tally.valid)
    }

    /// The result of the match.
    pub open spec fn result(
        &self,
        valid: usize,
        inverse: Option<Mat6>,
        yaw: Rotation2,
    ) -> ScanMatchResult {
        ScanMatchResult {
            transform: Transform2D::new(self.pose.shift.x, self.pose.shift.y, yaw),
            score: share(valid, self.scans.current@.len() as usize),
            covariance: planar(
                match inverse {
                    Some(m) => m,
                    None => Mat6::uniform(F64::from_bits(UNKNOWN_VARIANCE)),
                },
            ),
        }
    }

    /// The result of the match, from the number of points that correspond,
    /// the inverse of the information matrix, and the rotation by the yaw.
    pub fn finish(&self, valid: usize, inverse: Option<Mat6>, yaw: Rotation2) -> (r:
        ScanMatchResult)
        requires
            self.well_formed(),
            valid <= self.scans.current@.len(),
        ensures
            r == self.result(valid, inverse, yaw),
            r.score.bits <= ONE,
    {
        let total: usize = self.scans.current.len();
        proof {
            overlap::shares_are_at_most_one(valid, total);
        }
        let covariance = match inverse {
            Some(m) => m,
            None => Mat6::uniform(F64::from_bits(UNKNOWN_VARIANCE)),
        };
        ScanMatchResult {
            transform: Transform2D::new(self.pose.shift.x, self.pose.shift.y, yaw),
            score: share(valid, total),
            covariance: planar(covariance),
        }
    }
}

pub open spec fn spec_planar(m: Mat6) -> Mat3 {
    Mat3 {
        r0: Vec3::new(m.shift_shift.r0.x, m.shift_shift.r0.y, m.shift_turn.r0.z),
        r1: Vec3::new(m.shift_shift.r1.x, m.shift_shift.r1.y, m.shift_turn.r1.z),
        r2: Vec3::new(m.turn_shift.r2.x, m.turn_shift.r2.y, m.turn_turn.r2.z),
    }
}

/// The rows and columns of x, y and yaw.
#[verifier::when_used_as_spec(spec_planar)]
pub fn planar(m: Mat6) -> (r: Mat3)
    ensures
        r == planar(m),
{
    Mat3 {
        r0: Vec3::new(m.shift_shift.r0.x, m.shift_shift.r0.y, m.shift_turn.r0.z),
        r1: Vec3::new(m.shift_shift.r1.x, m.shift_shift.r1.y, m.shift_turn.r1.z),
        r2: Vec3::new(m.turn_shift.r2.x, m.turn_shift.r2.y, m.turn_turn.r2.z),
    }
}

/// However the steps turn out, a match takes no more of them than it is
/// allowed, keeps its points and settings, and is over after a small one.
pub proof fn matching_ends(session: MatchSession, steps: Seq<Vec6>, n: nat)
    requires
        session.well_formed(),
        n <= steps.len(),
        forall|k: nat| k < n ==> (#[trigger] session.after(steps, k)).wants_step(),
    ensures
        ({
            let last = session.after(steps, n);
            &&& last.well_formed()
            &&& last.iteration == session.iteration + n
            &&& n <= session.max_iterations - session.iteration
            &&& last.scans == session.scans
            &&& last.max_iterations == session.max_iterations
            &&& last.convergence_threshold == session.convergence_threshold
            &&& last.min_overlap == session.min_overlap
            &&& n > 0 && steps[n - 1].norm().less(session.convergence_threshold)
                ==> !last.wants_step()
        }),
    decreases n,
{
    if n > 0 {
        matching_ends(session, steps, (n - 1) as nat);
        assert(session.after(steps, (n - 1) as nat).wants_step());
    }
}

} // verus!
