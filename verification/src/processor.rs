//! The SLAM processor: odometry and scans in, a corrected pose and a pose
//! graph out.
//!
//! Odometry moves the filter. A scan is matched against a reference keyframe,
//! corrects the filter, and may become a keyframe itself, which is then
//! compared with earlier ones to close loops. Each stage is a method that
//! takes in what the stage before it asked for: rotations by angles, angles of
//! rotations, and matches of scans.
use std::sync::Arc;

use vstd::prelude::*;

use crate::config::SlamConfig;
use crate::ekf::{BodyMotion, PoseEkf};
use crate::float::double::F64;
use crate::float::single::F32;
use crate::graph::{Keyframe, PoseGraphEdge};
use crate::imu_preintegration::{compute_initial_guess, PreintegratedDelta};
use crate::linear::{Mat3, Vec3};
use crate::scan_context::{ScanContextCandidate, ScanContextDatabase, ScanContextDescriptor};
use crate::scan_matcher::{
    CorrelativeScanMatcher, ScanMatchConfig, ScanMatchResult, ANGULAR_RANGE, LINEAR_RANGE,
};
use crate::scan_matcher::voxel::{FAR, NEAR};
use crate::transforms::{Rotation2, Transform2D};
use crate::types::{Point3D, PointCloud, Pose};

verus! {

/// The pattern of 0.5: a better score corrects the filter.
pub const TRUSTED_SCORE: u64 = 0x3fe0_0000_0000_0000;

/// The pattern of 5.0: how far off a lost robot may be.
pub const RELOC_DISTANCE: u64 = 0x4014_0000_0000_0000;

/// The pattern of 0.1: the overlap that is enough for a lost robot.
pub const RELOC_OVERLAP: u64 = 0x3fb9_9999_9999_999a;

/// Steps allowed for finding a lost robot.
pub const RELOC_ITERATIONS: usize = 50;

/// Failed matches in a row after which the robot counts as lost.
pub const RELOC_FAILURE_THRESHOLD: u32 = 10;

/// Nanoseconds between two attempts to find a lost robot.
pub const RELOC_COOLDOWN: u64 = 2_000_000_000;

/// The pattern of 100.0: the weight of an edge between neighbours.
pub const SEQUENTIAL_WEIGHT: u64 = 0x4059_0000_0000_0000;

/// The pattern of 1000.0: the weight of a perfect match without covariance.
pub const SCORE_WEIGHT: u64 = 0x408f_4000_0000_0000;

/// Result from SLAM update.
#[derive(Clone, Copy, Debug)]
pub struct SlamUpdate {
    /// Current pose in world frame
    pub world_pose: Pose,
    /// Correction transform (odom -> world)
    pub odom_correction: Transform2D,
    /// Whether a keyframe was added
    pub keyframe_added: bool,
    /// Whether a loop closure was detected
    pub loop_closure_detected: bool,
    /// Current keyframe count
    pub keyframe_count: usize,
    /// Total loop closures detected
    pub loop_closure_count: usize,
    /// GICP scan match score (0.0 when no match attempted)
    pub match_score: F64,
}

/// A scan being processed.
#[derive(Clone, Copy, Debug)]
pub struct ScanWork {
    /// The robot moved enough since the last scan for this one to be matched
    pub has_moved: bool,
    /// The keyframe to match against
    pub reference: Option<usize>,
    /// What the gyro saw since the last scan
    pub imu_delta: Option<PreintegratedDelta>,
    /// The score of the match
    pub score: F64,
    /// The match corrected the filter
    pub matched: bool,
}

/// A match good enough to correct the filter.
pub open spec fn trusted(result: Option<ScanMatchResult>) -> bool {
    match result {
        Some(m) => F64::from_bits(TRUSTED_SCORE).less(m.score),
        None => false,
    }
}

impl ScanWork {
    /// The work with the outcome of the match.
    pub open spec fn with_match(self, result: Option<ScanMatchResult>) -> ScanWork {
        ScanWork {
            score: match result {
                Some(m) => m.score,
                None => self.score,
            },
            matched: trusted(result),
            ..self
        }
    }
}

/// Main SLAM processor.
pub struct SlamProcessor {
    pub config: SlamConfig,
    pub scan_matcher: CorrelativeScanMatcher,
    pub reloc_scan_matcher: CorrelativeScanMatcher,
    pub keyframes: Vec<Keyframe>,
    pub edges: Vec<PoseGraphEdge>,
    pub ekf: PoseEkf,
    pub odom_correction: Transform2D,
    pub last_odom_pose: Transform2D,
    pub last_keyframe_pose: Transform2D,
    pub last_scan_odom_pose: Transform2D,
    pub loop_closure_count: usize,
    pub pending_imu_delta: Option<PreintegratedDelta>,
    pub scan_context_db: ScanContextDatabase,
    pub reference_keyframe_idx: Option<usize>,
    pub consecutive_match_failures: u32,
    /// Time of the last attempt to find the lost robot, in nanoseconds
    pub last_relocalization_attempt: Option<u64>,
}

/// The number of loop closures among the first `n` edges.
pub open spec fn closures(edges: Seq<PoseGraphEdge>, n: nat) -> nat
    decreases n,
{
    if n == 0 {
        0
    } else {
        closures(edges, (n - 1) as nat) + if edges[n - 1].is_loop_closure {
            1nat
        } else {
            0nat
        }
    }
}

/// The number of edges between neighbours among the first `n` edges.
pub open spec fn steps(edges: Seq<PoseGraphEdge>, n: nat) -> nat
    decreases n,
{
    if n == 0 {
        0
    } else {
        steps(edges, (n - 1) as nat) + if edges[n - 1].is_loop_closure {
            0nat
        } else {
            1nat
        }
    }
}

/// The edges that are no loop closures lead from each keyframe to the next, in
/// the order of the keyframes, and reach the last one.
#[verifier::opaque]
pub open spec fn is_chain(edges: Seq<PoseGraphEdge>, keyframes: nat) -> bool {
    &&& forall|e: int|
        0 <= e < edges.len() && !(#[trigger] edges[e]).is_loop_closure ==> links(
            edges[e],
            steps(edges, e as nat) as int + 1,
        )
    &&& steps(edges, edges.len()) == if keyframes == 0 {
        0
    } else {
        keyframes - 1
    }
}

/// The edge leads from a keyframe's predecessor to it.
pub open spec fn links(edge: PoseGraphEdge, id: int) -> bool {
    !edge.is_loop_closure && edge.from_id == id - 1 && edge.to_id == id
}

/// Some edge leads from a keyframe's predecessor to it.
pub open spec fn linked(edges: Seq<PoseGraphEdge>, id: int) -> bool {
    exists|e: int| 0 <= e < edges.len() && #[trigger] links(edges[e], id)
}

/// A point that a descriptor is made of.
pub open spec fn descriptive(p: Point3D) -> bool {
    let range = p.range_squared();
    range.finite() && F32::from_bits(NEAR).less(range) && range.less(F32::from_bits(FAR))
}

/// The points among the first `n` that a descriptor is made of.
pub open spec fn described(points: Seq<Point3D>, n: nat) -> Seq<Vec3>
    decreases n,
{
    if n == 0 {
        Seq::empty()
    } else {
        let before = described(points, (n - 1) as nat);
        let p = points[n - 1];
        if descriptive(p) {
            before.push(Vec3 { x: p.x.to_double(), y: p.y.to_double(), z: p.z.to_double() })
        } else {
            before
        }
    }
}

/// The points that the descriptor of a scan is made of.
pub fn descriptor_points(scan: &PointCloud) -> (r: Vec<Vec3>)
    ensures
        r@ == described(scan.points@, scan.points@.len()),
{
    let mut r: Vec<Vec3> = Vec::new();
    let mut n: usize = 0;
    while n < scan.points.len()
        invariant
            n <= scan.points.len(),
            r@ == described(scan.points@, n as nat),
        decreases scan.points.len() - n,
    {
        let p = scan.points[n];
        let range = p.range_squared();
        let (near, far) = (F32::from_bits(NEAR), F32::from_bits(FAR));
        if range.is_finite() && near.less(range) && range.less(far) {
            r.push(Vec3::new(p.x.to_double(), p.y.to_double(), p.z.to_double()));
        }
        n = n + 1;
    }
    r
}

pub open spec fn spec_compute_information(result: &ScanMatchResult) -> Mat3 {
    match result.covariance.try_inverse() {
        Some(inverse) => inverse,
        None => Mat3::identity().scaled(
            result.score.times(result.score).times(F64::from_bits(SCORE_WEIGHT)),
        ),
    }
}

/// The information matrix of a match.
#[verifier::when_used_as_spec(spec_compute_information)]
pub fn compute_information(result: &ScanMatchResult) -> (r: Mat3)
    ensures
        r == compute_information(result),
{
    match result.covariance.try_inverse() {
        Some(inverse) => inverse,
        None => Mat3::identity().scaled(
            result.score.times(result.score).times(F64::from_bits(SCORE_WEIGHT)),
        ),
    }
}

/// The lengths of the first `n` edges between neighbours that lie between two
/// keyframes.
pub open spec fn odometry_length(edges: Seq<PoseGraphEdge>, lo: usize, hi: usize, n: nat) -> F64
    decreases n,
{
    if n == 0 {
        F64::from_bits(0)
    } else {
        let before = odometry_length(edges, lo, hi, (n - 1) as nat);
        let edge = edges[n - 1];
        if !edge.is_loop_closure && edge.from_id >= lo && edge.to_id <= hi {
            before.plus(edge.measurement.shift.norm())
        } else {
            before
        }
    }
}

impl SlamProcessor {
    /// The descriptor has the size that the configuration asks for.
    pub open spec fn sized(&self, d: ScanContextDescriptor) -> bool {
        &&& d.well_formed()
        &&& d.num_rings == self.config.scan_context.num_rings
        &&& d.num_sectors == self.config.scan_context.num_sectors
    }

    /// Ids are positions, edges and the reference stay inside the graph, the
    /// keyframes form a chain, the closures are counted, and there is one
    /// descriptor for each keyframe, all of the size that is configured.
    pub open spec fn well_formed(&self) -> bool {
        &&& crate::graph::is_graph(self.keyframes@, self.edges@)
        &&& is_chain(self.edges@, self.keyframes@.len())
        &&& self.reference_keyframe_idx matches Some(i) ==> i < self.keyframes@.len()
        &&& self.loop_closure_count == closures(self.edges@, self.edges@.len())
        &&& self.scan_context_db.settings() == self.config.scan_context
        &&& self.scan_context_db@.len() == self.keyframes@.len()
        &&& forall|i: int|
            0 <= i < self.scan_context_db@.len() ==> (#[trigger] self.scan_context_db@[i]).0 == i
                && self.sized(self.scan_context_db@[i].1)
        &&& forall|i: int|
            0 <= i < self.keyframes@.len() ==> match (#[trigger] self.keyframes@[i]).descriptor {
                Some(d) => self.sized(d),
                None => true,
            }
    }

    /// All but the graph and the descriptors is the same.
    pub open spec fn same_beside_graph(&self, other: &SlamProcessor) -> bool {
        &&& self.config == other.config
        &&& self.scan_matcher == other.scan_matcher
        &&& self.reloc_scan_matcher == other.reloc_scan_matcher
        &&& self.ekf == other.ekf
        &&& self.odom_correction == other.odom_correction
        &&& self.last_odom_pose == other.last_odom_pose
        &&& self.last_keyframe_pose == other.last_keyframe_pose
        &&& self.last_scan_odom_pose == other.last_scan_odom_pose
        &&& self.pending_imu_delta == other.pending_imu_delta
        &&& self.reference_keyframe_idx == other.reference_keyframe_idx
        &&& self.consecutive_match_failures == other.consecutive_match_failures
        &&& self.last_relocalization_attempt == other.last_relocalization_attempt
    }

    /// The settings with which scans are matched.
    pub open spec fn matching(config: SlamConfig) -> ScanMatchConfig {
        ScanMatchConfig {
            resolution: config.voxel_size,
            linear_range: F64::from_bits(LINEAR_RANGE),
            angular_range: F64::from_bits(ANGULAR_RANGE),
            max_iterations: config.max_iterations,
            convergence_threshold: config.convergence_threshold,
            max_correspondence_dist: config.max_correspondence_dist,
            min_overlap: config.min_overlap,
        }
    }

    /// The settings with which a lost robot is looked for.
    pub open spec fn relocating(config: SlamConfig) -> ScanMatchConfig {
        ScanMatchConfig {
            max_iterations: RELOC_ITERATIONS,
            max_correspondence_dist: F64::from_bits(RELOC_DISTANCE),
            min_overlap: F64::from_bits(RELOC_OVERLAP),
            ..Self::matching(config)
        }
    }

    /// Create a new SLAM processor.
    pub fn new(config: SlamConfig) -> (r: SlamProcessor)
        ensures
            r.well_formed(),
            r.config == config,
            r.scan_matcher.config == Self::matching(config),
            r.reloc_scan_matcher.config == Self::relocating(config),
            r.keyframes@.len() == 0,
            r.edges@.len() == 0,
            r.ekf == PoseEkf::new(&config),
            r.odom_correction == Transform2D::identity(),
            r.last_odom_pose == Transform2D::identity(),
            r.last_keyframe_pose == Transform2D::identity(),
            r.last_scan_odom_pose == Transform2D::identity(),
            r.loop_closure_count == 0,
            r.pending_imu_delta is None,
            r.scan_context_db@.len() == 0,
            r.reference_keyframe_idx is None,
            r.consecutive_match_failures == 0,
            r.last_relocalization_attempt is None,
    {
        let scan_config = ScanMatchConfig {
            resolution: config.voxel_size,
            linear_range: F64::from_bits(LINEAR_RANGE),
            angular_range: F64::from_bits(ANGULAR_RANGE),
            max_iterations: config.max_iterations,
            convergence_threshold: config.convergence_threshold,
            max_correspondence_dist: config.max_correspondence_dist,
            min_overlap: config.min_overlap,
        };
        let reloc_scan_config = ScanMatchConfig {
            resolution: config.voxel_size,
            linear_range: F64::from_bits(LINEAR_RANGE),
            angular_range: F64::from_bits(ANGULAR_RANGE),
            max_iterations: RELOC_ITERATIONS,
            convergence_threshold: config.convergence_threshold,
            max_correspondence_dist: F64::from_bits(RELOC_DISTANCE),
            min_overlap: F64::from_bits(RELOC_OVERLAP),
        };
        proof {
            reveal(is_chain);
        }
        SlamProcessor {
            config,
            scan_matcher: CorrelativeScanMatcher::new(scan_config),
            reloc_scan_matcher: CorrelativeScanMatcher::new(reloc_scan_config),
            keyframes: Vec::new(),
            edges: Vec::new(),
            ekf: PoseEkf::new(&config),
            odom_correction: Transform2D::identity(),
            last_odom_pose: Transform2D::identity(),
            last_keyframe_pose: Transform2D::identity(),
            last_scan_odom_pose: Transform2D::identity(),
            loop_closure_count: 0,
            pending_imu_delta: None,
            scan_context_db: ScanContextDatabase::new(config.scan_context),
            reference_keyframe_idx: None,
            consecutive_match_failures: 0,
            last_relocalization_attempt: None,
        }
    }

    pub open spec fn spec_odometry_delta(&self, odom_pose: &Pose, turn: Rotation2) -> Transform2D {
        self.last_odom_pose.relative_to(&Transform2D::new(odom_pose.x, odom_pose.y, turn))
    }

    /// The motion from the last odometry pose to this one; `turn` is the
    /// rotation by its heading.
    #[verifier::when_used_as_spec(spec_odometry_delta)]
    pub fn odometry_delta(&self, odom_pose: &Pose, turn: Rotation2) -> (r: Transform2D)
        ensures
            r == self.odometry_delta(odom_pose, turn),
    {
        self.last_odom_pose.relative_to(&Transform2D::new(odom_pose.x, odom_pose.y, turn))
    }

    /// The processor after an odometry pose: the filter moves by the way from
    /// the last odometry pose to this one, and nothing else changes.
    pub open spec fn after_odometry(
        &self,
        odom_pose: &Pose,
        turn: Rotation2,
        dtheta: F64,
        heading: Rotation2,
    ) -> SlamProcessor {
        let delta = self.odometry_delta(odom_pose, turn);
        SlamProcessor {
            ekf: self.ekf.predicted(
                BodyMotion { dx: delta.shift.x, dy: delta.shift.y, dtheta, heading },
            ),
            last_odom_pose: Transform2D::new(odom_pose.x, odom_pose.y, turn),
            ..*self
        }
    }

    /// Update with new odometry pose (high frequency, ~100Hz).
    ///
    /// `turn` is the rotation by the pose's heading, `dtheta` the angle of
    /// `odometry_delta`, and `heading` the rotation by the filter's heading.
    pub fn update_odometry(
        &mut self,
        odom_pose: &Pose,
        turn: Rotation2,
        dtheta: F64,
        heading: Rotation2,
    )
        ensures
            *final(self) == old(self).after_odometry(odom_pose, turn, dtheta, heading),
            old(self).well_formed() ==> final(self).well_formed(),
    {
        let delta = self.odometry_delta(odom_pose, turn);
        self.ekf.predict(BodyMotion { dx: delta.shift.x, dy: delta.shift.y, dtheta, heading });
        self.last_odom_pose = Transform2D::new(odom_pose.x, odom_pose.y, turn);
    }

    /// Set the pre-integrated IMU delta for the next scan.
    pub fn set_imu_delta(&mut self, delta: Option<PreintegratedDelta>)
        ensures
            *final(self) == (SlamProcessor { pending_imu_delta: delta, ..*old(self) }),
            old(self).well_formed() ==> final(self).well_formed(),
    {
        self.pending_imu_delta = delta;
    }

    pub open spec fn spec_odometry_since_scan(&self) -> Transform2D {
        self.last_scan_odom_pose.relative_to(&self.last_odom_pose)
    }

    /// The odometry motion since the last scan.
    #[verifier::when_used_as_spec(spec_odometry_since_scan)]
    pub fn odometry_since_scan(&self) -> (r: Transform2D)
        ensures
            r == self.odometry_since_scan(),
    {
        self.last_scan_odom_pose.relative_to(&self.last_odom_pose)
    }

    /// The motion since the last scan, whose rotation has the given angle, is
    /// large enough for a match.
    pub open spec fn has_moved(&self, rotation: F64) -> bool {
        ||| self.config.min_scan_match_distance.at_most(self.odometry_since_scan().shift.norm())
        ||| self.config.min_scan_match_rotation.at_most(rotation.abs())
    }

    /// The keyframe that a scan is matched against: the chosen one, else the
    /// last.
    pub open spec fn reference(&self) -> Option<usize> {
        match self.reference_keyframe_idx {
            Some(i) => Some(i),
            None => if self.keyframes@.len() > 0 {
                Some((self.keyframes@.len() - 1) as usize)
            } else {
                None
            },
        }
    }

    /// What the processing of a scan starts with.
    pub open spec fn begun(&self, rotation: F64) -> ScanWork {
        ScanWork {
            has_moved: self.has_moved(rotation),
            reference: self.reference(),
            imu_delta: self.pending_imu_delta,
            score: F64::from_bits(0),
            matched: false,
        }
    }

    /// The processor with a scan begun.
    pub open spec fn scanning(&self) -> SlamProcessor {
        SlamProcessor {
            last_scan_odom_pose: self.last_odom_pose,
            pending_imu_delta: None,
            ..*self
        }
    }

    /// Process a new LiDAR scan (lower frequency, ~10Hz): begin.
    ///
    /// `rotation` is the angle of `odometry_since_scan`.
    pub fn process_scan(&mut self, rotation: F64) -> (r: ScanWork)
        ensures
            r == old(self).begun(rotation),
            *final(self) == old(self).scanning(),
            old(self).well_formed() ==> final(self).well_formed() && final(self).accepts(r),
    {
        let odom_delta = self.odometry_since_scan();
        let odom_distance = odom_delta.shift.norm();
        let odom_rotation = rotation.abs();
        let has_moved = self.config.min_scan_match_distance.at_most(odom_distance)
            || self.config.min_scan_match_rotation.at_most(odom_rotation);
        let reference: Option<usize> = match self.reference_keyframe_idx {
            Some(i) => Some(i),
            None => if self.keyframes.len() > 0 {
                Some(self.keyframes.len() - 1)
            } else {
                None
            },
        };
        let imu_delta = self.pending_imu_delta;
        self.last_scan_odom_pose = self.last_odom_pose;
        self.pending_imu_delta = None;
        ScanWork { has_moved, reference, imu_delta, score: F64::from_bits(0), matched: false }
    }

    /// The scan's reference is a keyframe.
    pub open spec fn accepts(&self, work: ScanWork) -> bool {
        work.reference matches Some(i) ==> i < self.keyframes@.len()
    }

    /// Where the match of a scan starts; `None` where none is to be made.
    pub open spec fn guess(&self, work: ScanWork, heading: Rotation2, yaw: Rotation2) -> Option<
        Transform2D,
    > {
        match work.reference {
            Some(i) => if work.has_moved {
                let expected = self.keyframes@[i as int].pose.relative_to(
                    &self.ekf.pose(heading),
                );
                let delta = match work.imu_delta {
                    Some(d) => Some(&d),
                    None => None,
                };
                Some(compute_initial_guess(&expected, delta, yaw))
            } else {
                None
            },
            None => None,
        }
    }

    /// Where the match of a scan starts; `None` where none is to be made.
    ///
    /// `heading` is the rotation by the filter's heading, and `yaw` that by
    /// the yaw that the gyro saw.
    pub fn match_guess(&self, work: &ScanWork, heading: Rotation2, yaw: Rotation2) -> (r: Option<
        Transform2D,
    >)
        requires
            self.accepts(*work),
        ensures
            r == self.guess(*work, heading, yaw),
    {
        if !work.has_moved {
            return None;
        }
        match work.reference {
            Some(i) => {
                let expected = self.keyframes[i].pose.relative_to(&self.ekf.pose(heading));
                let delta = match &work.imu_delta {
                    Some(d) => Some(d),
                    None => None,
                };
                Some(compute_initial_guess(&expected, delta, yaw))
            },
            None => None,
        }
    }

    pub open spec fn spec_measured_pose(&self, reference: usize, result: &ScanMatchResult) ->
        Transform2D {
        self.keyframes@[reference as int].pose.compose(&result.transform)
    }

    /// The pose that a match against a keyframe says the robot is at.
    #[verifier::when_used_as_spec(spec_measured_pose)]
    pub fn measured_pose(&self, reference: usize, result: &ScanMatchResult) -> (r: Transform2D)
        requires
            reference < self.keyframes@.len(),
        ensures
            r == self.measured_pose(reference, result),
    {
        self.keyframes[reference].pose.compose(&result.transform)
    }

    /// The processor with a match taken in.
    pub open spec fn corrected(
        &self,
        work: ScanWork,
        result: Option<ScanMatchResult>,
        angle: F64,
    ) -> SlamProcessor {
        match (work.reference, result) {
            (Some(i), Some(m)) if F64::from_bits(TRUSTED_SCORE).less(m.score) => {
                let place = self.measured_pose(i, &m);
                SlamProcessor {
                    ekf: self.ekf.updated(
                        Vec3::new(place.shift.x, place.shift.y, angle),
                        m.covariance,
                    ),
                    consecutive_match_failures: 0,
                    ..*self
                }
            },
            _ => SlamProcessor {
                consecutive_match_failures: (self.consecutive_match_failures + 1) as u32,
                ..*self
            },
        }
    }

    /// Take in the result of the match, `None` where it failed; `angle` is the
    /// angle of `measured_pose`.
    pub fn absorb_match(
        &mut self,
        work: ScanWork,
        result: Option<ScanMatchResult>,
        angle: F64,
    ) -> (r: ScanWork)
        requires
            old(self).accepts(work),
            work.reference is Some,
            trusted(result) || old(self).consecutive_match_failures < u32::MAX,
        ensures
            r == work.with_match(result),
            *final(self) == old(self).corrected(work, result, angle),
            old(self).well_formed() ==> final(self).well_formed(),
    {
        match (work.reference, result) {
            (Some(i), Some(m)) => {
                if F64::from_bits(TRUSTED_SCORE).less(m.score) {
                    let place = self.measured_pose(i, &m);
                    self.ekf.update(
                        Vec3::new(place.shift.x, place.shift.y, angle),
                        m.covariance,
                    );
                    self.consecutive_match_failures = 0;
                    ScanWork { score: m.score, matched: true, ..work }
                } else {
                    self.consecutive_match_failures = self.consecutive_match_failures + 1;
                    ScanWork { score: m.score, matched: false, ..work }
                }
            },
            _ => {
                self.consecutive_match_failures = self.consecutive_match_failures + 1;
                ScanWork { matched: false, ..work }
            },
        }
    }

    /// The robot is lost, and it is time to look for it.
    pub open spec fn is_lost(&self, work: ScanWork, now: u64) -> bool {
        &&& !work.matched
        &&& work.has_moved
        &&& self.consecutive_match_failures >= RELOC_FAILURE_THRESHOLD
        &&& self.keyframes@.len() >= 2
        &&& (self.last_relocalization_attempt matches Some(t) ==> now - t >= RELOC_COOLDOWN)
    }

    /// The processor with an attempt to find a lost robot remembered.
    pub open spec fn searching(&self, work: ScanWork, now: u64) -> SlamProcessor {
        if self.is_lost(work, now) {
            SlamProcessor { last_relocalization_attempt: Some(now), ..*self }
        } else {
            *self
        }
    }

    /// Decide whether to look for the robot on the whole map at time `now`,
    /// and remember the attempt.
    pub fn try_relocalization(&mut self, work: &ScanWork, now: u64) -> (r: bool)
        ensures
            r == old(self).is_lost(*work, now),
            *final(self) == old(self).searching(*work, now),
            old(self).well_formed() ==> final(self).well_formed(),
    {
        let rested = match self.last_relocalization_attempt {
            Some(t) => now >= t && now - t >= RELOC_COOLDOWN,
            None => true,
        };
        if !work.matched && work.has_moved && self.consecutive_match_failures
            >= RELOC_FAILURE_THRESHOLD && self.keyframes.len() >= 2 && rested {
            self.last_relocalization_attempt = Some(now);
            true
        } else {
            false
        }
    }

    /// The processor with tracking resumed at a keyframe.
    pub open spec fn resumed(&self, keyframe_id: usize, pose: Transform2D, angle: F64) ->
        SlamProcessor {
        SlamProcessor {
            ekf: self.ekf.moved_to(&pose, angle),
            reference_keyframe_idx: Some(keyframe_id),
            last_keyframe_pose: pose,
            consecutive_match_failures: 0,
            ..*self
        }
    }

    /// Resume tracking at a keyframe, at a pose whose rotation has the given
    /// angle.
    pub fn relocalized(&mut self, keyframe_id: usize, pose: Transform2D, angle: F64)
        requires
            keyframe_id < old(self).keyframes@.len(),
        ensures
            *final(self) == old(self).resumed(keyframe_id, pose, angle),
            old(self).well_formed() ==> final(self).well_formed(),
    {
        self.ekf.reset_pose(&pose, angle);
        self.reference_keyframe_idx = Some(keyframe_id);
        self.last_keyframe_pose = pose;
        self.consecutive_match_failures = 0;
    }

    pub open spec fn spec_keyframe_motion(&self, heading: Rotation2) -> Transform2D {
        self.last_keyframe_pose.relative_to(&self.ekf.pose(heading))
    }

    /// The motion since the last keyframe; `heading` is the rotation by the
    /// filter's heading.
    #[verifier::when_used_as_spec(spec_keyframe_motion)]
    pub fn keyframe_motion(&self, heading: Rotation2) -> (r: Transform2D)
        ensures
            r == self.keyframe_motion(heading),
    {
        self.last_keyframe_pose.relative_to(&self.ekf.pose(heading))
    }

    pub open spec fn spec_should_add_keyframe(&self, heading: Rotation2, angle: F64) -> bool {
        ||| self.keyframes@.len() == 0
        ||| self.config.keyframe_distance.at_most(self.keyframe_motion(heading).shift.norm())
        ||| self.config.keyframe_rotation.at_most(angle.abs())
    }

    /// The robot has moved on far enough for another keyframe; `angle` is the
    /// angle of `keyframe_motion`.
    #[verifier::when_used_as_spec(spec_should_add_keyframe)]
    pub fn should_add_keyframe(&self, heading: Rotation2, angle: F64) -> (r: bool)
        ensures
            r == self.should_add_keyframe(heading, angle),
    {
        if self.keyframes.len() == 0 {
            return true;
        }
        let distance = self.keyframe_motion(heading).shift.norm();
        let rotation = angle.abs();
        self.config.keyframe_distance.at_most(distance) || self.config.keyframe_rotation.at_most(
            rotation,
        )
    }

    pub open spec fn spec_wants_keyframe(
        &self,
        work: &ScanWork,
        heading: Rotation2,
        angle: F64,
    ) -> bool {
        self.keyframes@.len() == 0 || (work.matched && self.should_add_keyframe(heading, angle))
    }

    /// The scan becomes a keyframe: the first one does, and later ones where
    /// they matched and the robot has moved on.
    #[verifier::when_used_as_spec(spec_wants_keyframe)]
    pub fn wants_keyframe(&self, work: &ScanWork, heading: Rotation2, angle: F64) -> (r: bool)
        ensures
            r == self.wants_keyframe(work, heading, angle),
    {
        if self.keyframes.len() == 0 {
            true
        } else if work.matched {
            self.should_add_keyframe(heading, angle)
        } else {
            false
        }
    }

    /// The descriptor of a scan; `azimuths` holds the angles of the points
    /// that `descriptor_points` names.
    pub fn compute_descriptor(&self, scan: &PointCloud, azimuths: &Vec<F64>) -> (r:
        ScanContextDescriptor)
        requires
            ({
                let points = described(scan.points@, scan.points@.len());
                &&& azimuths@.len() == points.len()
                &&& self.config.scan_context.covers(points)
            }),
        ensures
            self.config.scan_context.describes(
                described(scan.points@, scan.points@.len()),
                azimuths@,
                r,
            ),
            self.sized(r),
    {
        let points = descriptor_points(scan);
        ScanContextDescriptor::from_points(&points, azimuths, &self.config.scan_context)
    }

    /// The edge from the last keyframe to a new one.
    pub open spec fn sequential_edge(&self, pose: Transform2D) -> PoseGraphEdge {
        let last = self.keyframes@.last();
        PoseGraphEdge {
            from_id: last.id,
            to_id: self.keyframes@.len() as usize,
            measurement: last.pose.relative_to(&pose),
            information: Mat3::identity().scaled(F64::from_bits(SEQUENTIAL_WEIGHT)),
            is_loop_closure: false,
        }
    }

    /// `after` has one more keyframe, at the filter's pose, with an edge from
    /// the one before it.
    pub open spec fn gains_keyframe(
        &self,
        after: &SlamProcessor,
        scan: Arc<PointCloud>,
        descriptor: ScanContextDescriptor,
        heading: Rotation2,
        now: u64,
    ) -> bool {
        let pose = self.ekf.pose(heading);
        let id = self.keyframes@.len();
        let added = after.keyframes@.last();
        &&& after.same_beside_graph(self)
        &&& after.loop_closure_count == self.loop_closure_count
        &&& after.keyframes@.len() == id + 1
        &&& after.keyframes@.drop_last() == self.keyframes@
        &&& added.id == id
        &&& added.pose == pose
        &&& added.scan == scan
        &&& added.timestamp == now
        &&& added.descriptor matches Some(d) && d.same_as(descriptor)
        &&& after.scan_context_db@ == self.scan_context_db@.push((id as usize, descriptor))
        &&& after.edges@ == if id == 0 {
            self.edges@
        } else {
            self.edges@.push(self.sequential_edge(pose))
        }
    }

    /// Add a keyframe at the filter's pose, with an edge from the one before
    /// it; `heading` is the rotation by the filter's heading.
    pub fn add_keyframe(
        &mut self,
        scan: Arc<PointCloud>,
        descriptor: ScanContextDescriptor,
        heading: Rotation2,
        now: u64,
    )
        requires
            old(self).well_formed(),
            old(self).sized(descriptor),
        ensures
            final(self).well_formed(),
            old(self).gains_keyframe(final(self), scan, descriptor, heading, now),
    {
        let id: usize = self.keyframes.len();
        let pose = self.ekf.pose(heading);
        let ghost edges_before = self.edges@;
        if id > 0 {
            let last = &self.keyframes[id - 1];
            let edge = PoseGraphEdge {
                from_id: last.id,
                to_id: id,
                measurement: last.pose.relative_to(&pose),
                information: Mat3::identity().scaled(F64::from_bits(SEQUENTIAL_WEIGHT)),
                is_loop_closure: false,
            };
            self.edges.push(edge);
            proof {
                lemma_closures(edges_before, self.edges@, edges_before.len());
                lemma_chain_grows(edges_before, edge, id as nat);
            }
        } else {
            assert(is_chain(self.edges@, 1)) by {
                reveal(is_chain);
            }
        }
        let own = descriptor.clone();
        let keyframe = Keyframe { id, pose, scan, timestamp: now, descriptor: Some(own) };
        self.scan_context_db.insert(id, descriptor);
        self.keyframes.push(keyframe);
        assert(self.keyframes@.drop_last() =~= old(self).keyframes@);
    }

    pub open spec fn spec_wants_closure(&self) -> bool {
        self.keyframes@.len() > self.config.loop_closure_min_nodes
    }

    /// The graph has grown enough for the last keyframe to close a loop.
    #[verifier::when_used_as_spec(spec_wants_closure)]
    pub fn wants_closure(&self) -> (r: bool)
        ensures
            r == self.wants_closure(),
    {
        self.keyframes.len() > self.config.loop_closure_min_nodes
    }

    /// The keyframes that look like the last one.
    pub fn closure_candidates(&self) -> (r: Vec<ScanContextCandidate>)
        requires
            self.well_formed(),
            self.keyframes@.len() > 0,
        ensures
            match self.keyframes@.last().descriptor {
                Some(d) => r@ == self.scan_context_db.candidates(d),
                None => r@.len() == 0,
            },
    {
        let last = &self.keyframes[self.keyframes.len() - 1];
        match &last.descriptor {
            Some(d) => self.scan_context_db.find_candidates(d),
            None => Vec::new(),
        }
    }

    /// The last keyframe may close a loop with a keyframe: one that is neither
    /// among the most recent nor too far away.
    pub open spec fn may_close(&self, id: usize) -> bool {
        let last = self.keyframes@.len() - 1;
        &&& id + self.config.loop_closure_min_nodes < last
        &&& !self.config.loop_closure_search_radius.less(
            self.keyframes@[last].pose.shift.minus(self.keyframes@[id as int].pose.shift).norm(),
        )
    }

    /// Test whether the last keyframe may close a loop with a keyframe.
    pub fn is_closable(&self, id: usize) -> (r: bool)
        requires
            self.keyframes@.len() > 0,
        ensures
            r == self.may_close(id),
    {
        let last: usize = self.keyframes.len() - 1;
        if id >= last || self.config.loop_closure_min_nodes >= last - id {
            return false;
        }
        let gap = self.keyframes[last].pose.shift.minus(self.keyframes[id].pose.shift);
        !self.config.loop_closure_search_radius.less(gap.norm())
    }

    /// The first candidate from `from` on with which the last keyframe may
    /// close a loop.
    pub fn next_candidate(&self, candidates: &Vec<ScanContextCandidate>, from: usize) -> (r: Option<
        usize,
    >)
        requires
            self.keyframes@.len() > 0,
            from <= candidates@.len(),
        ensures
            match r {
                Some(at) => {
                    &&& from <= at < candidates@.len()
                    &&& self.may_close(candidates@[at as int].keyframe_id)
                    &&& forall|k: int|
                        from <= k < at ==> !self.may_close(
                            (#[trigger] candidates@[k]).keyframe_id,
                        )
                },
                None => forall|k: int|
                    from <= k < candidates@.len() ==> !self.may_close(
                        (#[trigger] candidates@[k]).keyframe_id,
                    ),
            },
    {
        let mut at: usize = from;
        while at < candidates.len()
            invariant
                from <= at <= candidates@.len(),
                self.keyframes@.len() > 0,
                forall|k: int|
                    from <= k < at ==> !self.may_close((#[trigger] candidates@[k]).keyframe_id),
            decreases candidates.len() - at,
        {
            if self.is_closable(candidates[at].keyframe_id) {
                return Some(at);
            }
            at = at + 1;
        }
        None
    }

    pub open spec fn spec_closure_guess(&self, id: usize) -> Transform2D {
        self.keyframes@[id as int].pose.relative_to(&self.keyframes@.last().pose)
    }

    /// Where the match of the last keyframe against an earlier one starts.
    #[verifier::when_used_as_spec(spec_closure_guess)]
    pub fn closure_guess(&self, id: usize) -> (r: Transform2D)
        requires
            id < self.keyframes@.len(),
        ensures
            r == self.closure_guess(id),
    {
        self.keyframes[id].pose.relative_to(&self.keyframes[self.keyframes.len() - 1].pose)
    }

    pub open spec fn spec_accumulated_odom_distance(&self, from_id: usize, to_id: usize) -> F64 {
        if from_id < to_id {
            odometry_length(self.edges@, from_id, to_id, self.edges@.len())
        } else {
            odometry_length(self.edges@, to_id, from_id, self.edges@.len())
        }
    }

    /// How far the robot drove between two keyframes.
    #[verifier::when_used_as_spec(spec_accumulated_odom_distance)]
    pub fn accumulated_odom_distance(&self, from_id: usize, to_id: usize) -> (r: F64)
        ensures
            r == self.accumulated_odom_distance(from_id, to_id),
    {
        let lo: usize = if from_id < to_id { from_id } else { to_id };
        let hi: usize = if from_id < to_id { to_id } else { from_id };
        let mut total = F64::from_bits(0);
        let mut n: usize = 0;
        while n < self.edges.len()
            invariant
                n <= self.edges.len(),
                total == odometry_length(self.edges@, lo, hi, n as nat),
            decreases self.edges.len() - n,
        {
            let edge = &self.edges[n];
            if !edge.is_loop_closure && edge.from_id >= lo && edge.to_id <= hi {
                total = total.plus(edge.measurement.shift.norm());
            }
            n = n + 1;
        }
        total
    }

    /// A match with a keyframe agrees with the odometry between the two.
    pub open spec fn agrees_with_odometry(&self, id: usize, result: ScanMatchResult) -> bool {
        let last = (self.keyframes@.len() - 1) as usize;
        let sigma = result.covariance.r0.x.plus(result.covariance.r1.y).sqrt();
        let disagreement = result.transform.shift.norm().minus(
            self.accumulated_odom_distance(id, last),
        ).abs();
        !(F64::from_bits(0).less(sigma)
            && self.config.loop_closure_max_disagreement_sigma.times(sigma).less(disagreement))
    }

    /// The edge with which a match against an earlier keyframe closes a loop,
    /// if it does: the match must be good and agree with the odometry.
    pub open spec fn closure(&self, id: usize, result: ScanMatchResult) -> Option<PoseGraphEdge> {
        if self.config.loop_closure_threshold.at_most(result.score) && self.agrees_with_odometry(
            id,
            result,
        ) {
            Some(
                PoseGraphEdge {
                    from_id: id,
                    to_id: (self.keyframes@.len() - 1) as usize,
                    measurement: result.transform,
                    information: compute_information(&result),
                    is_loop_closure: true,
                },
            )
        } else {
            None
        }
    }

    /// The edge with which a match against an earlier keyframe closes a loop,
    /// if it does.
    pub fn judge_closure(&self, id: usize, result: &ScanMatchResult) -> (r: Option<PoseGraphEdge>)
        requires
            self.well_formed(),
            id < self.keyframes@.len() - 1,
        ensures
            r == self.closure(id, *result),
    {
        if !self.config.loop_closure_threshold.at_most(result.score) {
            return None;
        }
        let last: usize = self.keyframes.len() - 1;
        let match_translation = result.transform.shift.norm();
        let odom_distance = self.accumulated_odom_distance(id, last);
        let pos_sigma = result.covariance.r0.x.plus(result.covariance.r1.y).sqrt();
        let disagreement = match_translation.minus(odom_distance).abs();
        let max_sigma = self.config.loop_closure_max_disagreement_sigma;
        if F64::from_bits(0).less(pos_sigma) && max_sigma.times(pos_sigma).less(disagreement) {
            return None;
        }
        Some(
            PoseGraphEdge {
                from_id: id,
                to_id: last,
                measurement: result.transform,
                information: compute_information(result),
                is_loop_closure: true,
            },
        )
    }

    /// `after` has one more loop closure.
    pub open spec fn gains_closure(&self, after: &SlamProcessor, closure: PoseGraphEdge) -> bool {
        &&& after.same_beside_graph(self)
        &&& after.keyframes == self.keyframes
        &&& after.scan_context_db == self.scan_context_db
        &&& after.edges@ == self.edges@.push(closure)
        &&& after.loop_closure_count == self.loop_closure_count + 1
    }

    /// Add a loop closure to the graph.
    pub fn close_loop(&mut self, closure: PoseGraphEdge)
        requires
            old(self).well_formed(),
            closure.is_loop_closure,
            closure.from_id < closure.to_id < old(self).keyframes@.len(),
            old(self).loop_closure_count < usize::MAX,
        ensures
            final(self).well_formed(),
            old(self).gains_closure(final(self), closure),
    {
        let ghost before = self.edges@;
        self.loop_closure_count = self.loop_closure_count + 1;
        self.edges.push(closure);
        proof {
            lemma_closures(before, self.edges@, before.len());
            lemma_chain_grows(before, closure, self.keyframes@.len());
        }
    }

    /// The processor with its last keyframe as the reference.
    pub open spec fn settled(&self) -> SlamProcessor {
        SlamProcessor {
            last_keyframe_pose: self.keyframes@.last().pose,
            reference_keyframe_idx: Some((self.keyframes@.len() - 1) as usize),
            ..*self
        }
    }

    /// Take up the last keyframe as the reference for the scans to come.
    pub fn settle_keyframe(&mut self)
        requires
            old(self).keyframes@.len() > 0,
        ensures
            *final(self) == old(self).settled(),
            old(self).well_formed() ==> final(self).well_formed(),
    {
        let last: usize = self.keyframes.len() - 1;
        self.last_keyframe_pose = self.keyframes[last].pose;
        self.reference_keyframe_idx = Some(last);
    }

    /// The correction from odometry to the filter's pose.
    pub open spec fn correction(&self, heading: Rotation2) -> Transform2D {
        self.last_odom_pose.relative_to(&self.ekf.pose(heading))
    }

    /// The processor with a scan ended.
    pub open spec fn finished(&self, heading: Rotation2) -> SlamProcessor {
        SlamProcessor { odom_correction: self.correction(heading), ..*self }
    }

    /// The update that is reported of a scan, if one is.
    pub open spec fn report(
        &self,
        work: ScanWork,
        keyframe_added: bool,
        loop_closure_detected: bool,
        heading: Rotation2,
        angle: F64,
    ) -> Option<SlamUpdate> {
        if keyframe_added || work.matched {
            Some(
                SlamUpdate {
                    world_pose: Pose { x: self.ekf.state.x, y: self.ekf.state.y, theta: angle },
                    odom_correction: self.correction(heading),
                    keyframe_added,
                    loop_closure_detected,
                    keyframe_count: self.keyframes@.len() as usize,
                    loop_closure_count: self.loop_closure_count,
                    match_score: work.score,
                },
            )
        } else {
            None
        }
    }

    /// End the processing of a scan. An update is reported where the scan
    /// became a keyframe or corrected the filter.
    ///
    /// `heading` is the rotation by the filter's heading, and `angle` the
    /// angle of that rotation.
    pub fn finish_scan(
        &mut self,
        work: &ScanWork,
        keyframe_added: bool,
        loop_closure_detected: bool,
        heading: Rotation2,
        angle: F64,
    ) -> (r: Option<SlamUpdate>)
        ensures
            *final(self) == old(self).finished(heading),
            r == old(self).report(*work, keyframe_added, loop_closure_detected, heading, angle),
            old(self).well_formed() ==> final(self).well_formed(),
    {
        let place = self.ekf.pose(heading);
        self.odom_correction = self.last_odom_pose.relative_to(&place);
        if keyframe_added || work.matched {
            Some(
                SlamUpdate {
                    world_pose: place.to_pose(angle),
                    odom_correction: self.odom_correction,
                    keyframe_added,
                    loop_closure_detected,
                    keyframe_count: self.keyframes.len(),
                    loop_closure_count: self.loop_closure_count,
                    match_score: work.score,
                },
            )
        } else {
            None
        }
    }
}

/// A closure leaves a chain as it is, and a step to one more keyframe makes it
/// longer.
proof fn lemma_chain_grows(edges: Seq<PoseGraphEdge>, edge: PoseGraphEdge, keyframes: nat)
    requires
        is_chain(edges, keyframes),
    ensures
        edge.is_loop_closure ==> is_chain(edges.push(edge), keyframes),
        keyframes > 0 && links(edge, keyframes as int) ==> is_chain(
            edges.push(edge),
            keyframes + 1,
        ),
{
    reveal(is_chain);
    let all = edges.push(edge);
    assert forall|e: int|
        0 <= e < all.len() && !(#[trigger] all[e]).is_loop_closure && (edge.is_loop_closure
            || keyframes > 0 && links(edge, keyframes as int)) implies links(
        all[e],
        steps(all, e as nat) as int + 1,
    ) by {
        lemma_steps(edges, all, e as nat);
        if e < edges.len() {
            assert(all[e] == edges[e]);
        }
    }
    lemma_steps(edges, all, edges.len());
}

/// Equal edges hold equally many steps.
proof fn lemma_steps(a: Seq<PoseGraphEdge>, b: Seq<PoseGraphEdge>, n: nat)
    requires
        n <= a.len(),
        n <= b.len(),
        forall|i: int| 0 <= i < n ==> #[trigger] a[i] == b[i],
    ensures
        steps(a, n) == steps(b, n),
    decreases n,
{
    if n > 0 {
        lemma_steps(a, b, (n - 1) as nat);
    }
}

/// Equal edges hold equally many closures.
proof fn lemma_closures(a: Seq<PoseGraphEdge>, b: Seq<PoseGraphEdge>, n: nat)
    requires
        n <= a.len(),
        n <= b.len(),
        forall|i: int| 0 <= i < n ==> #[trigger] a[i] == b[i],
    ensures
        closures(a, n) == closures(b, n),
    decreases n,
{
    if n > 0 {
        lemma_closures(a, b, (n - 1) as nat);
    }
}

impl SlamProcessor {
    /// Where the filter is, with a heading of the given angle.
    pub open spec fn current_pose(&self, angle: F64) -> Pose {
        Pose { x: self.ekf.state.x, y: self.ekf.state.y, theta: angle }
    }

    /// Where a keyframe is, with a heading of the given angle.
    pub open spec fn keyframe_place(&self, i: int, angle: F64) -> (F64, F64, F64) {
        let place = self.keyframes@[i].pose.shift;
        (place.x, place.y, angle)
    }

    /// Get current pose in world frame; `heading` is the rotation by the
    /// filter's heading, and `angle` the angle of that rotation.
    pub fn pose(&self, heading: Rotation2, angle: F64) -> (r: Pose)
        ensures
            r == self.current_pose(angle),
    {
        self.ekf.pose(heading).to_pose(angle)
    }

    /// Get the odom->world correction transform.
    pub fn odom_correction(&self) -> (r: Transform2D)
        ensures
            r == self.odom_correction,
    {
        self.odom_correction
    }

    /// Get all keyframes.
    pub fn keyframes(&self) -> (r: &Vec<Keyframe>)
        ensures
            *r == self.keyframes,
    {
        &self.keyframes
    }

    /// Get all edges.
    pub fn edges(&self) -> (r: &Vec<PoseGraphEdge>)
        ensures
            *r == self.edges,
    {
        &self.edges
    }

    /// Get keyframe poses as (x, y, theta) tuples for visualization; `angles`
    /// holds the angles of their rotations.
    pub fn keyframe_poses(&self, angles: &Vec<F64>) -> (r: Vec<(F64, F64, F64)>)
        requires
            angles@.len() == self.keyframes@.len(),
        ensures
            r@.len() == self.keyframes@.len(),
            forall|i: int|
                0 <= i < r@.len() ==> #[trigger] r@[i] == self.keyframe_place(i, angles@[i]),
    {
        let mut r: Vec<(F64, F64, F64)> = Vec::new();
        let mut i: usize = 0;
        while i < self.keyframes.len()
            invariant
                i <= self.keyframes.len(),
                angles@.len() == self.keyframes@.len(),
                r@.len() == i,
                forall|k: int|
                    0 <= k < i ==> #[trigger] r@[k] == (
                        self.keyframes@[k].pose.shift.x,
                        self.keyframes@[k].pose.shift.y,
                        angles@[k],
                    ),
            decreases self.keyframes.len() - i,
        {
            let t = self.keyframes[i].pose.shift;
            r.push((t.x, t.y, angles[i]));
            i = i + 1;
        }
        r
    }

    /// Get loop closure count.
    pub fn loop_closure_count(&self) -> (r: usize)
        ensures
            r == self.loop_closure_count,
    {
        self.loop_closure_count
    }

    /// Get keyframe count.
    pub fn keyframe_count(&self) -> (r: usize)
        ensures
            r == self.keyframes@.len(),
    {
        self.keyframes.len()
    }

    /// Get the EKF pose covariance as a plain 3x3 array.
    pub fn pose_covariance_array(&self) -> (r: [[F64; 3]; 3])
        ensures
            r@[0]@ == seq![
                self.ekf.covariance.r0.x,
                self.ekf.covariance.r0.y,
                self.ekf.covariance.r0.z,
            ],
            r@[1]@ == seq![
                self.ekf.covariance.r1.x,
                self.ekf.covariance.r1.y,
                self.ekf.covariance.r1.z,
            ],
            r@[2]@ == seq![
                self.ekf.covariance.r2.x,
                self.ekf.covariance.r2.y,
                self.ekf.covariance.r2.z,
            ],
    {
        let m = self.ekf.covariance();
        let r = [
            [m.r0.x, m.r0.y, m.r0.z],
            [m.r1.x, m.r1.y, m.r1.z],
            [m.r2.x, m.r2.y, m.r2.z],
        ];
        assert(r@[0]@ =~= seq![m.r0.x, m.r0.y, m.r0.z]);
        assert(r@[1]@ =~= seq![m.r1.x, m.r1.y, m.r1.z]);
        assert(r@[2]@ =~= seq![m.r2.x, m.r2.y, m.r2.z]);
        r
    }

    /// Get a reference to the scan context database.
    pub fn scan_context_db(&self) -> (r: &ScanContextDatabase)
        ensures
            *r == self.scan_context_db,
    {
        &self.scan_context_db
    }
}

/// A scan taken while the robot stands still is not matched, does not make it
/// count as lost, and becomes no keyframe unless it is the first.
pub proof fn standing_still_leaves_the_map_alone(
    slam: SlamProcessor,
    rotation: F64,
    heading: Rotation2,
    yaw: Rotation2,
    angle: F64,
    now: u64,
)
    requires
        !slam.has_moved(rotation),
        slam.keyframes@.len() > 0,
    ensures
        ({
            let work = slam.begun(rotation);
            &&& slam.guess(work, heading, yaw) is None
            &&& !slam.is_lost(work, now)
            &&& !slam.wants_keyframe(&work, heading, angle)
        }),
{
}

/// The first scan becomes a keyframe, matched or not.
pub proof fn the_first_scan_becomes_a_keyframe(
    slam: SlamProcessor,
    work: ScanWork,
    heading: Rotation2,
    angle: F64,
)
    requires
        slam.keyframes@.len() == 0,
    ensures
        slam.wants_keyframe(&work, heading, angle),
{
}

/// A robot that moved and is on the map has a reference to be matched
/// against.
pub proof fn a_moving_robot_is_matched(
    slam: SlamProcessor,
    rotation: F64,
    heading: Rotation2,
    yaw: Rotation2,
)
    requires
        slam.well_formed(),
        slam.has_moved(rotation),
        slam.keyframes@.len() > 0,
    ensures
        slam.guess(slam.begun(rotation), heading, yaw) is Some,
{
}

/// A keyframe with which a loop may be closed lies before the last one, with
/// at least the configured number of keyframes between them.
pub proof fn closures_skip_recent_keyframes(slam: SlamProcessor, id: usize)
    requires
        slam.keyframes@.len() > 0,
        slam.may_close(id),
    ensures
        id < slam.keyframes@.len() - 1,
        slam.keyframes@.len() - 1 - id > slam.config.loop_closure_min_nodes,
{
}

/// The distance driven between two keyframes does not depend on which of them
/// is named first.
pub proof fn odometry_has_no_direction(slam: SlamProcessor, a: usize, b: usize)
    ensures
        slam.accumulated_odom_distance(a, b) == slam.accumulated_odom_distance(b, a),
{
}

/// Every edge is a step or a closure, and a later step leads further.
proof fn lemma_steps_and_closures(edges: Seq<PoseGraphEdge>, n: nat)
    requires
        n <= edges.len(),
    ensures
        steps(edges, n) + closures(edges, n) == n,
        forall|e: int| 0 <= e < n ==> #[trigger] steps(edges, e as nat) <= steps(edges, n),
        forall|e: int|
            0 <= e < n && !(#[trigger] edges[e]).is_loop_closure ==> steps(edges, e as nat)
                < steps(edges, n),
    decreases n,
{
    if n > 0 {
        lemma_steps_and_closures(edges, (n - 1) as nat);
    }
}

/// The step that leads to a keyframe, among the first `n` edges.
proof fn lemma_step_to(edges: Seq<PoseGraphEdge>, id: int, n: nat) -> (e: int)
    requires
        n <= edges.len(),
        1 <= id <= steps(edges, n),
    ensures
        0 <= e < n,
        !edges[e].is_loop_closure,
        steps(edges, e as nat) == id - 1,
    decreases n,
{
    if n > 0 && !edges[n - 1].is_loop_closure && steps(edges, (n - 1) as nat) == id - 1 {
        n - 1
    } else {
        lemma_step_to(edges, id, (n - 1) as nat)
    }
}

/// The shape of the map: ids and the entries of the database are in order, one
/// of each for every keyframe; every edge leads to a later keyframe; any two
/// neighbours are joined by exactly one edge that is no loop closure; and the
/// other edges are the loop closures, all counted.
pub proof fn the_map_has_its_shape(slam: SlamProcessor)
    requires
        slam.well_formed(),
    ensures
        ({
            let n = slam.keyframes@.len();
            &&& forall|i: int| 0 <= i < n ==> (#[trigger] slam.keyframes@[i]).id == i
            &&& slam.scan_context_db@.len() == n
            &&& forall|i: int| 0 <= i < n ==> (#[trigger] slam.scan_context_db@[i]).0 == i
            &&& forall|e: int|
                0 <= e < slam.edges@.len() ==> (#[trigger] slam.edges@[e]).from_id
                    < slam.edges@[e].to_id < n
            &&& forall|id: int| 1 <= id < n ==> #[trigger] linked(slam.edges@, id)
            &&& forall|id: int, e: int, f: int|
                0 <= e < slam.edges@.len() && 0 <= f < slam.edges@.len() && #[trigger] links(
                    slam.edges@[e],
                    id,
                ) && #[trigger] links(slam.edges@[f], id) ==> e == f
            &&& forall|e: int|
                0 <= e < slam.edges@.len() && !(#[trigger] slam.edges@[e]).is_loop_closure
                    ==> links(slam.edges@[e], slam.edges@[e].to_id as int)
            &&& slam.loop_closure_count == closures(slam.edges@, slam.edges@.len())
            &&& slam.edges@.len() == slam.loop_closure_count + if n == 0 {
                0
            } else {
                n - 1
            }
        }),
{
    reveal(is_chain);
    let edges = slam.edges@;
    lemma_steps_and_closures(edges, edges.len());
    assert forall|id: int| 1 <= id < slam.keyframes@.len() implies #[trigger] linked(
        edges,
        id,
    ) by {
        let e = lemma_step_to(edges, id, edges.len());
        assert(links(edges[e], id));
    }
    assert forall|id: int, e: int, f: int|
        0 <= e < edges.len() && 0 <= f < edges.len() && #[trigger] links(edges[e], id)
            && #[trigger] links(edges[f], id) implies e == f by {
        if e < f {
            lemma_steps_and_closures(edges, f as nat);
        } else if f < e {
            lemma_steps_and_closures(edges, e as nat);
        }
    }
}

/// How the length of a way grows with one more keyframe at its end.
proof fn lemma_way_grows(edges: Seq<PoseGraphEdge>, lo: usize, hi: usize, e: int, n: nat)
    requires
        n <= edges.len(),
        lo < hi,
        0 <= e < edges.len(),
        links(edges[e], hi as int),
        forall|f: int|
            0 <= f < edges.len() && !(#[trigger] edges[f]).is_loop_closure ==> links(
                edges[f],
                steps(edges, f as nat) as int + 1,
            ),
    ensures
        ({
            let shorter = odometry_length(edges, lo, (hi - 1) as usize, n);
            odometry_length(edges, lo, hi, n) == if n <= e {
                shorter
            } else {
                shorter.plus(edges[e].measurement.shift.norm())
            }
        }),
    decreases n,
{
    if n > 0 {
        let m = (n - 1) as nat;
        lemma_way_grows(edges, lo, hi, e, m);
        lemma_steps_and_closures(edges, m);
        if m < e {
            lemma_steps_and_closures(edges, e as nat);
        }
    }
}

/// The distance driven to a keyframe is that to the one before it and the
/// length of the step between the two; nothing is driven from a keyframe to
/// itself. Loop closures add nothing.
pub proof fn driven_distances_add_up(slam: SlamProcessor, lo: usize, hi: usize, e: int)
    requires
        slam.well_formed(),
        lo < hi < slam.keyframes@.len(),
        0 <= e < slam.edges@.len(),
        !slam.edges@[e].is_loop_closure,
        slam.edges@[e].to_id == hi,
    ensures
        slam.accumulated_odom_distance(lo, hi) == slam.accumulated_odom_distance(
            lo,
            (hi - 1) as usize,
        ).plus(slam.edges@[e].measurement.shift.norm()),
        slam.accumulated_odom_distance(lo, lo).bits == 0,
{
    let edges = slam.edges@;
    lemma_links(edges, slam.keyframes@.len());
    assert(links(edges[e], steps(edges, e as nat) as int + 1));
    lemma_way_grows(edges, lo, hi, e, edges.len());
    lemma_no_way(edges, lo, edges.len());
}

proof fn lemma_links(edges: Seq<PoseGraphEdge>, keyframes: nat)
    requires
        is_chain(edges, keyframes),
    ensures
        forall|f: int|
            0 <= f < edges.len() && !(#[trigger] edges[f]).is_loop_closure ==> links(
                edges[f],
                steps(edges, f as nat) as int + 1,
            ),
{
    reveal(is_chain);
}

proof fn lemma_no_way(edges: Seq<PoseGraphEdge>, id: usize, n: nat)
    requires
        n <= edges.len(),
        forall|f: int|
            0 <= f < edges.len() && !(#[trigger] edges[f]).is_loop_closure ==> links(
                edges[f],
                steps(edges, f as nat) as int + 1,
            ),
    ensures
        odometry_length(edges, id, id, n).bits == 0,
    decreases n,
{
    if n > 0 {
        lemma_no_way(edges, id, (n - 1) as nat);
        assert(edges[n - 1].is_loop_closure || links(
            edges[n - 1],
            steps(edges, (n - 1) as nat) as int + 1,
        ));
    }
}

} // verus!
