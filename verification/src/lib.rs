//! # Slamwich
//!
//! A 3D LiDAR SLAM library.
//!
//! Provides:
//! - 3D GICP scan matching for robust pose estimation
//! - Pose graph with sequential odometry edges
//! - Loop closure detection via scan context descriptors
//! - EKF-based pose estimation with odometry and scan match fusion
//!
//! All of it computes on bit patterns: `float` holds binary floating point
//! over plain integers, each operation stated as the exact result rounded
//! once, so every formula of the library is part of what is proved. What the
//! machine alone can supply (trigonometric functions, nearest neighbours,
//! solutions of linear systems, the time) comes in as arguments: the matcher,
//! the optimizer and the processor ask for it stage by stage.
//!
//! The modules: `types`, `linear` and `transforms` are the vocabulary;
//! `imu_preintegration`, `ekf`, `scan_matcher` and `scan_context` turn sensor
//! data into estimates; `graph` and `optimizer` keep the map; `processor` and
//! `scan_run` tie them together under the settings in `config`.
//!
//! What all this is for is stated in laws, beside the contracts: `values` and
//! `nearness` tell how close results are to the exact ones, `inverse_laws` what
//! an inverse is, `constant_laws` what the constants are; `point_laws` what
//! becomes of the points of a scan, `scan_matcher::laws` what a match means,
//! `graph_laws` what the edges of the map ask for, `decision_laws` when the
//! processor does what, `odometry_laws` what odometry does to the pose, and
//! `scan_laws` what holds of a scan as a whole.
pub mod config;
pub mod constant_laws;
pub mod decision_laws;
pub mod ekf;
pub mod error;
pub mod float;
pub mod graph;
pub mod graph_laws;
pub mod imu_preintegration;
pub mod inverse_laws;
pub mod linear;
pub mod nearness;
pub mod odometry_laws;
pub mod optimizer;
pub mod ordering;
pub mod point_laws;
pub mod processor;
pub mod scan_context;
pub mod scan_laws;
pub mod scan_matcher;
pub mod scan_run;
pub mod transforms;
pub mod types;
pub mod values;

pub use config::{SlamConfig, SlamState};
pub use ekf::PoseEkf;
pub use error::SlamError;
pub use graph::{Keyframe, PoseGraphEdge};
pub use imu_preintegration::{
    compute_initial_guess, ImuPreintegrationConfig, ImuPreintegrator, PreintegratedDelta,
};
pub use processor::{SlamProcessor, SlamUpdate};
pub use scan_context::{
    ScanContextCandidate, ScanContextConfig, ScanContextDatabase, ScanContextDescriptor,
};
pub use scan_matcher::{CorrelativeScanMatcher, ScanMatchConfig, ScanMatchResult};
pub use transforms::{normalize_angle, Transform2D};
pub use types::{Point3D, PointCloud, Pose};
