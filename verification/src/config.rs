//! SLAM configuration, and the state shown to the rest of the robot.
use vstd::prelude::*;

use crate::ekf::FIRST_VARIANCE;
use crate::float::double::F64;
use crate::imu_preintegration::{ImuPreintegrationConfig, GYRO_BIAS_RW, GYRO_NOISE_DENSITY};
use crate::linear::ONE;
use crate::scan_context::{ScanContextConfig, DESCRIPTOR_THRESHOLD, MAX_RANGE};
use crate::scan_matcher::{CONVERGENCE, MIN_OVERLAP, RESOLUTION};
use crate::types::Pose;

verus! {

/// The pattern of 0.5.
pub const KEYFRAME_ROTATION: u64 = 0x3fe0_0000_0000_0000;

/// The pattern of 0.7.
pub const CLOSURE_THRESHOLD: u64 = 0x3fe6_6666_6666_6666;

/// The pattern of 5.0.
pub const CLOSURE_RADIUS: u64 = 0x4014_0000_0000_0000;

/// The pattern of 3.0.
pub const CLOSURE_SIGMAS: u64 = 0x4008_0000_0000_0000;

/// The pattern of 0.05.
pub const FIVE_HUNDREDTHS: u64 = 0x3fa9_9999_9999_999a;

/// The pattern of 0.02.
pub const TWO_HUNDREDTHS: u64 = 0x3f94_7ae1_47ae_147b;

/// The pattern of 0.01.
pub const ONE_HUNDREDTH: u64 = 0x3f84_7ae1_47ae_147b;

/// SLAM configuration.
#[derive(Clone, Copy, Debug)]
pub struct SlamConfig {
    /// Voxel size for GICP downsampling (meters)
    pub voxel_size: F64,
    /// Maximum GICP iterations
    pub max_iterations: usize,
    /// GICP convergence threshold (pose delta norm)
    pub convergence_threshold: F64,
    /// Maximum correspondence distance for outlier rejection (meters)
    pub max_correspondence_dist: F64,
    /// Minimum fraction of points with valid correspondences
    pub min_overlap: F64,
    /// Distance threshold for inserting new keyframe (meters)
    pub keyframe_distance: F64,
    /// Rotation threshold for inserting new keyframe (radians)
    pub keyframe_rotation: F64,
    /// Minimum node count before checking for loop closures
    pub loop_closure_min_nodes: usize,
    /// Score threshold for accepting loop closure match
    pub loop_closure_threshold: F64,
    /// Maximum distance to consider for loop closure (meters)
    pub loop_closure_search_radius: F64,
    /// Huber loss threshold for robust loop closure weighting (meters)
    pub huber_threshold: F64,
    /// Maximum disagreement (in sigmas) between loop closure and accumulated odometry
    pub loop_closure_max_disagreement_sigma: F64,
    /// Minimum odometry motion (meters) before scan matching is applied.
    /// Prevents yaw drift from GICP noise while stationary.
    pub min_scan_match_distance: F64,
    /// Minimum odometry rotation (radians) before scan matching is applied.
    pub min_scan_match_rotation: F64,
    /// EKF process noise: linear noise as fraction of distance traveled.
    pub odom_linear_noise: F64,
    /// EKF process noise: angular noise as fraction of rotation.
    pub odom_angular_noise: F64,
    /// EKF process noise: angular noise per meter of linear motion (rad/m).
    pub odom_linear_to_angular_noise: F64,
    /// EKF process noise: linear noise per radian of rotation (m/rad).
    pub odom_angular_to_linear_noise: F64,
    /// IMU pre-integration configuration
    pub imu: ImuPreintegrationConfig,
    /// Scan context descriptor configuration for loop closure
    pub scan_context: ScanContextConfig,
}

impl Default for SlamConfig {
    fn default() -> (r: SlamConfig)
        ensures
            r.voxel_size.bits == RESOLUTION,
            r.max_iterations == 30,
            r.convergence_threshold.bits == CONVERGENCE,
            r.max_correspondence_dist.bits == ONE,
            r.min_overlap.bits == MIN_OVERLAP,
            r.keyframe_distance.bits == ONE,
            r.keyframe_rotation.bits == KEYFRAME_ROTATION,
            r.loop_closure_min_nodes == 10,
            r.loop_closure_threshold.bits == CLOSURE_THRESHOLD,
            r.loop_closure_search_radius.bits == CLOSURE_RADIUS,
            r.huber_threshold.bits == ONE,
            r.loop_closure_max_disagreement_sigma.bits == CLOSURE_SIGMAS,
            r.min_scan_match_distance.bits == FIVE_HUNDREDTHS,
            r.min_scan_match_rotation.bits == FIVE_HUNDREDTHS,
            r.odom_linear_noise.bits == FIVE_HUNDREDTHS,
            r.odom_angular_noise.bits == FIVE_HUNDREDTHS,
            r.odom_linear_to_angular_noise.bits == TWO_HUNDREDTHS,
            r.odom_angular_to_linear_noise.bits == ONE_HUNDREDTH,
            r.imu.gyro_noise_density.bits == GYRO_NOISE_DENSITY,
            r.imu.gyro_bias_rw.bits == GYRO_BIAS_RW,
            r.imu.enabled,
            r.scan_context.num_rings == 20,
            r.scan_context.num_sectors == 60,
            r.scan_context.max_range.bits == MAX_RANGE,
            r.scan_context.top_k == 5,
            r.scan_context.descriptor_threshold.bits == DESCRIPTOR_THRESHOLD,
            r.scan_context.ring_key_prefilter == 20,
    {
        SlamConfig {
            voxel_size: F64::from_bits(RESOLUTION),
            max_iterations: 30,
            convergence_threshold: F64::from_bits(CONVERGENCE),
            max_correspondence_dist: F64::from_bits(ONE),
            min_overlap: F64::from_bits(MIN_OVERLAP),
            keyframe_distance: F64::from_bits(ONE),
            keyframe_rotation: F64::from_bits(KEYFRAME_ROTATION),
            loop_closure_min_nodes: 10,
            loop_closure_threshold: F64::from_bits(CLOSURE_THRESHOLD),
            loop_closure_search_radius: F64::from_bits(CLOSURE_RADIUS),
            huber_threshold: F64::from_bits(ONE),
            loop_closure_max_disagreement_sigma: F64::from_bits(CLOSURE_SIGMAS),
            min_scan_match_distance: F64::from_bits(FIVE_HUNDREDTHS),
            min_scan_match_rotation: F64::from_bits(FIVE_HUNDREDTHS),
            odom_linear_noise: F64::from_bits(FIVE_HUNDREDTHS),
            odom_angular_noise: F64::from_bits(FIVE_HUNDREDTHS),
            odom_linear_to_angular_noise: F64::from_bits(TWO_HUNDREDTHS),
            odom_angular_to_linear_noise: F64::from_bits(ONE_HUNDREDTH),
            imu: ImuPreintegrationConfig::default(),
            scan_context: ScanContextConfig::default(),
        }
    }
}

/// State from SLAM task for use by the main control loop.
/// This is updated whenever SLAM processes a scan and sent via a watch channel.
#[derive(Debug)]
pub struct SlamState {
    /// Current pose in world frame
    pub pose: Pose,
    /// Number of keyframes
    pub keyframe_count: u32,
    /// Number of loop closures detected
    pub loop_closure_count: u32,
    /// Keyframe poses for visualization (x, y, theta)
    pub keyframe_poses: Vec<(F64, F64, F64)>,
    /// Pose covariance from EKF (row-major 3x3).
    pub pose_covariance: [[F64; 3]; 3],
    /// Latest GICP scan match score (0.0 when no match attempted)
    pub match_score: F64,
}

impl Clone for SlamState {
    fn clone(&self) -> (r: SlamState)
        ensures
            r.pose == self.pose,
            r.keyframe_count == self.keyframe_count,
            r.loop_closure_count == self.loop_closure_count,
            r.keyframe_poses@ == self.keyframe_poses@,
            r.pose_covariance == self.pose_covariance,
            r.match_score == self.match_score,
    {
        let mut keyframe_poses: Vec<(F64, F64, F64)> = Vec::new();
        let mut i: usize = 0;
        while i < self.keyframe_poses.len()
            invariant
                i <= self.keyframe_poses.len(),
                keyframe_poses@ == self.keyframe_poses@.take(i as int),
            decreases self.keyframe_poses.len() - i,
        {
            keyframe_poses.push(self.keyframe_poses[i]);
            i = i + 1;
            assert(keyframe_poses@ =~= self.keyframe_poses@.take(i as int));
        }
        assert(keyframe_poses@ =~= self.keyframe_poses@);
        SlamState {
            pose: self.pose,
            keyframe_count: self.keyframe_count,
            loop_closure_count: self.loop_closure_count,
            keyframe_poses,
            pose_covariance: self.pose_covariance,
            match_score: self.match_score,
        }
    }
}

impl Default for SlamState {
    fn default() -> (r: SlamState)
        ensures
            r.pose == (Pose {
                x: F64::from_bits(0),
                y: F64::from_bits(0),
                theta: F64::from_bits(0),
            }),
            r.keyframe_count == 0,
            r.loop_closure_count == 0,
            r.keyframe_poses@.len() == 0,
            forall|i: int, j: int|
                0 <= i < 3 && 0 <= j < 3 ==> #[trigger] r.pose_covariance@[i]@[j].bits == (if i
                    == j {
                    FIRST_VARIANCE
                } else {
                    0
                }),
            r.match_score.bits == 0,
    {
        let v = F64::from_bits(FIRST_VARIANCE);
        let zero = F64::from_bits(0);
        SlamState {
            pose: Pose::default(),
            keyframe_count: 0,
            loop_closure_count: 0,
            keyframe_poses: Vec::new(),
            pose_covariance: [[v, zero, zero], [zero, v, zero], [zero, zero, v]],
            match_score: zero,
        }
    }
}

} // verus!
