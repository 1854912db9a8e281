//! IMU pre-integration between LiDAR scans.
//!
//! Accumulates gyro-Z samples at ~200Hz between ~10Hz LiDAR scans,
//! producing a pre-integrated yaw delta with variance estimate.
use vstd::prelude::*;

use crate::float::double::F64;
use crate::transforms::{Rotation2, Transform2D};

verus! {

/// The pattern of 0.014.
pub const GYRO_NOISE_DENSITY: u64 = 0x3f8c_ac08_3126_e979;

/// The pattern of 0.0003.
pub const GYRO_BIAS_RW: u64 = 0x3f33_a92a_3055_3261;

/// The pattern of 0.01: slower rates count as standing still.
pub const STATIONARY_THRESHOLD: u64 = 0x3f84_7ae1_47ae_147b;

/// The pattern of 0.001: the weight of a sample in the bias estimate.
pub const BIAS_GAIN: u64 = 0x3f50_624d_d2f1_a9fc;

/// Configuration for IMU pre-integration.
#[derive(Clone, Copy, Debug)]
pub struct ImuPreintegrationConfig {
    /// Gyro noise density (rad/s/sqrt(Hz)). BMI088 typical: 0.014
    pub gyro_noise_density: F64,
    /// Gyro bias random walk (rad/s^2/sqrt(Hz)). BMI088 typical: 0.0003
    pub gyro_bias_rw: F64,
    /// Enable IMU pre-integration
    pub enabled: bool,
}

impl Default for ImuPreintegrationConfig {
    fn default() -> (r: ImuPreintegrationConfig)
        ensures
            r.gyro_noise_density.bits == GYRO_NOISE_DENSITY,
            r.gyro_bias_rw.bits == GYRO_BIAS_RW,
            r.enabled,
    {
        ImuPreintegrationConfig {
            gyro_noise_density: F64::from_bits(GYRO_NOISE_DENSITY),
            gyro_bias_rw: F64::from_bits(GYRO_BIAS_RW),
            enabled: true,
        }
    }
}

/// Result of consuming accumulated IMU samples between scans.
#[derive(Clone, Copy, Debug)]
pub struct PreintegratedDelta {
    /// Accumulated yaw rotation (radians)
    pub delta_yaw: F64,
    /// Variance of the accumulated yaw (rad^2)
    pub yaw_variance: F64,
    /// Number of samples integrated
    pub sample_count: u32,
}

/// Accumulates gyro-Z samples between LiDAR scans.
#[derive(Debug)]
pub struct ImuPreintegrator {
    pub config: ImuPreintegrationConfig,
    pub delta_yaw: F64,
    pub yaw_variance: F64,
    pub sample_count: u32,
    pub gyro_bias: F64,
    pub stationary_threshold: F64,
}

/// A sum, taken term by term from a start.
pub open spec fn total(start: F64, terms: Seq<F64>) -> F64
    decreases terms.len(),
{
    if terms.len() == 0 {
        start
    } else {
        total(start, terms.drop_last()).plus(terms.last())
    }
}

impl ImuPreintegrator {
    /// A sample over `dt` seconds is counted.
    pub open spec fn accepts(self, dt: F64) -> bool {
        &&& self.config.enabled
        &&& !dt.at_most(F64::from_bits(0))
        &&& dt.finite()
    }

    /// The rate of a sample once the bias is taken off.
    pub open spec fn rate(self, gyro_z_body: F64) -> F64 {
        gyro_z_body.minus(self.gyro_bias)
    }

    /// The variance that one moving sample adds.
    pub open spec fn added_variance(self, dt: F64) -> F64 {
        let nd = self.config.gyro_noise_density;
        let brw = self.config.gyro_bias_rw;
        nd.times(nd).times(dt).plus(brw.times(brw).times(dt))
    }

    /// The state after a sample: a slow one refines the bias, another one
    /// turns the yaw.
    pub open spec fn integrated(self, gyro_z_body: F64, dt: F64) -> ImuPreintegrator {
        let rate = self.rate(gyro_z_body);
        if !self.accepts(dt) {
            self
        } else if rate.abs().less(self.stationary_threshold) {
            ImuPreintegrator {
                gyro_bias: self.gyro_bias.plus(rate.times(F64::from_bits(BIAS_GAIN))),
                sample_count: (self.sample_count + 1) as u32,
                ..self
            }
        } else {
            ImuPreintegrator {
                delta_yaw: self.delta_yaw.plus(rate.times(dt)),
                yaw_variance: self.yaw_variance.plus(self.added_variance(dt)),
                sample_count: (self.sample_count + 1) as u32,
                ..self
            }
        }
    }

    /// What `consume` hands out.
    pub open spec fn pending(self) -> Option<PreintegratedDelta> {
        if !self.config.enabled || self.sample_count == 0 {
            None
        } else {
            Some(
                PreintegratedDelta {
                    delta_yaw: self.delta_yaw,
                    yaw_variance: self.yaw_variance,
                    sample_count: self.sample_count,
                },
            )
        }
    }

    /// The state that `consume` leaves: the bias stays, the sums start anew.
    pub open spec fn drained(self) -> ImuPreintegrator {
        if self.pending() is None {
            self
        } else {
            ImuPreintegrator {
                delta_yaw: F64::from_bits(0),
                yaw_variance: F64::from_bits(0),
                sample_count: 0,
                ..self
            }
        }
    }

    /// Create a new pre-integrator.
    pub fn new(config: ImuPreintegrationConfig) -> (r: ImuPreintegrator)
        ensures
            r.config == config,
            r.delta_yaw.bits == 0,
            r.yaw_variance.bits == 0,
            r.sample_count == 0,
            r.gyro_bias.bits == 0,
            r.stationary_threshold.bits == STATIONARY_THRESHOLD,
    {
        let zero = F64::from_bits(0);
        ImuPreintegrator {
            config,
            delta_yaw: zero,
            yaw_variance: zero,
            sample_count: 0,
            gyro_bias: zero,
            stationary_threshold: F64::from_bits(STATIONARY_THRESHOLD),
        }
    }

    /// Integrate a single gyro-Z sample.
    pub fn integrate(&mut self, gyro_z_body: F64, dt: F64)
        requires
            old(self).accepts(dt) ==> old(self).sample_count < u32::MAX,
        ensures
            *final(self) == old(self).integrated(gyro_z_body, dt),
    {
        if !self.config.enabled || dt.at_most(F64::from_bits(0)) || !dt.is_finite() {
            return;
        }
        let rate = gyro_z_body.minus(self.gyro_bias);
        if rate.abs().less(self.stationary_threshold) {
            self.gyro_bias = self.gyro_bias.plus(rate.times(F64::from_bits(BIAS_GAIN)));
            self.sample_count = self.sample_count + 1;
            return;
        }
        self.delta_yaw = self.delta_yaw.plus(rate.times(dt));
        let nd = self.config.gyro_noise_density;
        let brw = self.config.gyro_bias_rw;
        let added = nd.times(nd).times(dt).plus(brw.times(brw).times(dt));
        self.yaw_variance = self.yaw_variance.plus(added);
        self.sample_count = self.sample_count + 1;
    }

    /// Consume the accumulated pre-integrated delta, resetting for the next interval.
    pub fn consume(&mut self) -> (r: Option<PreintegratedDelta>)
        ensures
            r == old(self).pending(),
            *final(self) == old(self).drained(),
    {
        if !self.config.enabled || self.sample_count == 0 {
            return None;
        }
        let delta = PreintegratedDelta {
            delta_yaw: self.delta_yaw,
            yaw_variance: self.yaw_variance,
            sample_count: self.sample_count,
        };
        self.delta_yaw = F64::from_bits(0);
        self.yaw_variance = F64::from_bits(0);
        self.sample_count = 0;
        Some(delta)
    }

    /// Check if pre-integration is enabled.
    pub fn is_enabled(&self) -> (r: bool)
        ensures
            r == self.config.enabled,
    {
        self.config.enabled
    }

    /// What was consumed is gone: consuming again yields nothing.
    pub proof fn consume_resets(self)
        ensures
            self.drained().pending() is None,
            self.drained().drained() == self.drained(),
            self.drained().gyro_bias == self.gyro_bias,
    {
    }

    /// A disabled integrator takes nothing in and hands nothing out.
    pub proof fn disabled_is_inert(self, gyro_z_body: F64, dt: F64)
        requires
            !self.config.enabled,
        ensures
            self.integrated(gyro_z_body, dt) == self,
            self.pending() is None,
            self.drained() == self,
    {
    }

    /// While the sensor stands still the yaw and its variance do not move.
    pub proof fn stationary_samples_do_not_turn(self, gyro_z_body: F64, dt: F64)
        requires
            self.rate(gyro_z_body).abs().less(self.stationary_threshold),
        ensures
            self.integrated(gyro_z_body, dt).delta_yaw == self.delta_yaw,
            self.integrated(gyro_z_body, dt).yaw_variance == self.yaw_variance,
    {
    }

    /// Whatever the samples, the configuration and the threshold stay.
    pub proof fn settings_are_kept(self, gyro_z_body: F64, dt: F64)
        ensures
            self.integrated(gyro_z_body, dt).config == self.config,
            self.integrated(gyro_z_body, dt).stationary_threshold == self.stationary_threshold,
            self.drained().config == self.config,
            self.drained().stationary_threshold == self.stationary_threshold,
    {
    }

    /// The state after a sequence of samples.
    pub open spec fn integrated_all(self, samples: Seq<(F64, F64)>) -> ImuPreintegrator
        decreases samples.len(),
    {
        if samples.len() == 0 {
            self
        } else {
            let (gyro, dt) = samples.last();
            self.integrated_all(samples.drop_last()).integrated(gyro, dt)
        }
    }

    /// A sample that turns the yaw.
    pub open spec fn turns_by(self, gyro_z_body: F64, dt: F64) -> bool {
        self.accepts(dt) && !self.rate(gyro_z_body).abs().less(self.stationary_threshold)
    }

    /// The angles by which the samples that turn the yaw do so, in their order.
    pub open spec fn angles(self, samples: Seq<(F64, F64)>) -> Seq<F64>
        decreases samples.len(),
    {
        if samples.len() == 0 {
            Seq::empty()
        } else {
            let (gyro, dt) = samples.last();
            let before = self.integrated_all(samples.drop_last());
            let rest = self.angles(samples.drop_last());
            if before.turns_by(gyro, dt) {
                rest.push(before.rate(gyro).times(dt))
            } else {
                rest
            }
        }
    }

    /// The variances that the samples that turn the yaw add, in their order.
    pub open spec fn variances(self, samples: Seq<(F64, F64)>) -> Seq<F64>
        decreases samples.len(),
    {
        if samples.len() == 0 {
            Seq::empty()
        } else {
            let (gyro, dt) = samples.last();
            let rest = self.variances(samples.drop_last());
            if self.integrated_all(samples.drop_last()).turns_by(gyro, dt) {
                rest.push(self.added_variance(dt))
            } else {
                rest
            }
        }
    }

    /// The yaw of a series is the sum of the angles of the samples that turn
    /// it, and its variance the sum of what each of them adds.
    pub proof fn samples_are_summed(self, samples: Seq<(F64, F64)>)
        ensures
            self.integrated_all(samples).delta_yaw == total(self.delta_yaw, self.angles(samples)),
            self.integrated_all(samples).yaw_variance == total(
                self.yaw_variance,
                self.variances(samples),
            ),
            self.integrated_all(samples).config == self.config,
            self.integrated_all(samples).stationary_threshold == self.stationary_threshold,
        decreases samples.len(),
    {
        if samples.len() > 0 {
            let shorter = samples.drop_last();
            self.samples_are_summed(shorter);
            let (gyro, dt) = samples.last();
            let before = self.integrated_all(shorter);
            if before.turns_by(gyro, dt) {
                let angle = before.rate(gyro).times(dt);
                assert(self.angles(shorter).push(angle).drop_last() =~= self.angles(shorter));
                let added = self.added_variance(dt);
                assert(self.variances(shorter).push(added).drop_last() =~= self.variances(
                    shorter,
                ));
            }
        }
    }

    /// While every sample turns, the bias stays: the yaw is the sum of the
    /// rates less that bias, each over its time.
    pub proof fn turning_samples_are_summed(self, samples: Seq<(F64, F64)>)
        requires
            forall|i: int|
                0 <= i < samples.len() ==> self.turns_by(
                    (#[trigger] samples[i]).0,
                    samples[i].1,
                ),
        ensures
            self.integrated_all(samples).gyro_bias == self.gyro_bias,
            self.integrated_all(samples).delta_yaw == total(
                self.delta_yaw,
                Seq::new(
                    samples.len(),
                    |i: int| samples[i].0.minus(self.gyro_bias).times(samples[i].1),
                ),
            ),
            self.integrated_all(samples).yaw_variance == total(
                self.yaw_variance,
                Seq::new(samples.len(), |i: int| self.added_variance(samples[i].1)),
            ),
            self.integrated_all(samples).config == self.config,
            self.integrated_all(samples).stationary_threshold == self.stationary_threshold,
        decreases samples.len(),
    {
        if samples.len() > 0 {
            let shorter = samples.drop_last();
            assert forall|i: int| 0 <= i < shorter.len() implies self.turns_by(
                (#[trigger] shorter[i]).0,
                shorter[i].1,
            ) by {
                assert(shorter[i] == samples[i]);
            }
            self.turning_samples_are_summed(shorter);
            assert(samples.last() == samples[samples.len() - 1]);
            let angle = |i: int| samples[i].0.minus(self.gyro_bias).times(samples[i].1);
            let added = |i: int| self.added_variance(samples[i].1);
            assert(Seq::new(samples.len(), angle).drop_last() =~= Seq::new(
                shorter.len(),
                |i: int| shorter[i].0.minus(self.gyro_bias).times(shorter[i].1),
            ));
            assert(Seq::new(samples.len(), added).drop_last() =~= Seq::new(
                shorter.len(),
                |i: int| self.added_variance(shorter[i].1),
            ));
        }
    }

    /// Every accepted sample is counted, moving or not.
    pub proof fn samples_are_counted(self, samples: Seq<(F64, F64)>)
        requires
            self.config.enabled,
            self.sample_count + samples.len() <= u32::MAX,
            forall|i: int|
                0 <= i < samples.len() ==> (#[trigger] samples[i]).1.finite()
                    && !samples[i].1.at_most(F64::from_bits(0)),
        ensures
            self.integrated_all(samples).sample_count == self.sample_count + samples.len(),
            self.integrated_all(samples).config == self.config,
        decreases samples.len(),
    {
        if samples.len() > 0 {
            self.samples_are_counted(samples.drop_last());
            assert(samples.last() == samples[samples.len() - 1]);
        }
    }
}

pub open spec fn spec_compute_initial_guess(
    odom_delta: &Transform2D,
    imu_delta: Option<&PreintegratedDelta>,
    yaw: Rotation2,
) -> Transform2D {
    match imu_delta {
        Some(delta) => if delta.sample_count > 0 {
            Transform2D::new(odom_delta.shift.x, odom_delta.shift.y, yaw)
        } else {
            *odom_delta
        },
        None => *odom_delta,
    }
}

/// Compute a hybrid initial guess combining odometry translation with IMU yaw.
///
/// `yaw` is the rotation by the delta's yaw.
#[verifier::when_used_as_spec(spec_compute_initial_guess)]
pub fn compute_initial_guess(
    odom_delta: &Transform2D,
    imu_delta: Option<&PreintegratedDelta>,
    yaw: Rotation2,
) -> (r: Transform2D)
    ensures
        r == compute_initial_guess(odom_delta, imu_delta, yaw),
{
    match imu_delta {
        Some(delta) => if delta.sample_count > 0 {
            Transform2D::new(odom_delta.shift.x, odom_delta.shift.y, yaw)
        } else {
            *odom_delta
        },
        None => *odom_delta,
    }
}

} // verus!
