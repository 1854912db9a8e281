use slamwich::float::double::F64;
use slamwich::imu_preintegration::{
    compute_initial_guess, ImuPreintegrationConfig, ImuPreintegrator, PreintegratedDelta,
};
use slamwich::transforms::{Rotation2, Transform2D};

fn d(x: f64) -> F64 {
    F64::from_bits(x.to_bits())
}

fn v(x: F64) -> f64 {
    f64::from_bits(x.to_bits())
}

fn turn(angle: f64) -> Rotation2 {
    let (sin, cos) = angle.sin_cos();
    Rotation2 { cos: d(cos), sin: d(sin) }
}

fn angle(turn: Rotation2) -> f64 {
    v(turn.sin).atan2(v(turn.cos))
}

#[test]
fn test_basic_accumulation() {
    let config = ImuPreintegrationConfig::default();
    let mut pre = ImuPreintegrator::new(config);

    let dt = 0.005;
    let rate = 1.0_f64;
    for _ in 0..20 {
        pre.integrate(d(rate), d(dt));
    }

    let delta = pre.consume().unwrap();
    assert!(
        (v(delta.delta_yaw) - 0.1).abs() < 0.01,
        "Expected ~0.1 rad, got {}",
        v(delta.delta_yaw)
    );
    assert!(v(delta.yaw_variance) > 0.0);
    assert_eq!(delta.sample_count, 20);
}

#[test]
fn test_stationary_skip() {
    let config = ImuPreintegrationConfig::default();
    let mut pre = ImuPreintegrator::new(config);

    let dt = 0.005;
    for _ in 0..20 {
        pre.integrate(d(0.005), d(dt));
    }

    let delta = pre.consume().unwrap();
    assert!(
        v(delta.delta_yaw).abs() < 0.001,
        "Expected ~0 rad, got {}",
        v(delta.delta_yaw)
    );
}

#[test]
fn test_consume_resets() {
    let config = ImuPreintegrationConfig::default();
    let mut pre = ImuPreintegrator::new(config);

    pre.integrate(d(1.0), d(0.005));
    let first = pre.consume().unwrap();
    assert!(v(first.delta_yaw).abs() > 0.0);

    assert!(pre.consume().is_none());
}

#[test]
fn test_disabled() {
    let config = ImuPreintegrationConfig {
        enabled: false,
        ..Default::default()
    };
    let mut pre = ImuPreintegrator::new(config);

    pre.integrate(d(1.0), d(0.005));
    assert!(pre.consume().is_none());
    assert!(!pre.is_enabled());
}

#[test]
fn test_compute_initial_guess_with_imu() {
    let odom = Transform2D::new(d(0.5), d(0.1), turn(0.3));
    let imu = PreintegratedDelta {
        delta_yaw: d(0.5),
        yaw_variance: d(0.001),
        sample_count: 20,
    };

    let guess = compute_initial_guess(&odom, Some(&imu), turn(0.5));
    assert!((v(guess.translation().x) - 0.5).abs() < 1e-10);
    assert!((v(guess.translation().y) - 0.1).abs() < 1e-10);
    assert!((angle(guess.rotation()) - 0.5).abs() < 1e-10);
}

#[test]
fn test_compute_initial_guess_fallback() {
    let odom = Transform2D::new(d(0.5), d(0.1), turn(0.3));
    let guess = compute_initial_guess(&odom, None, turn(0.0));
    assert!((angle(guess.rotation()) - 0.3).abs() < 1e-10);
}

#[test]
fn a_delta_without_samples_is_no_guess() {
    let odom = Transform2D::new(d(0.5), d(0.1), turn(0.3));
    let imu = PreintegratedDelta {
        delta_yaw: d(0.5),
        yaw_variance: d(0.001),
        sample_count: 0,
    };
    let guess = compute_initial_guess(&odom, Some(&imu), turn(0.5));
    assert!((angle(guess.rotation()) - 0.3).abs() < 1e-10);
}

#[test]
fn samples_are_integrated_as_by_the_machine() {
    let mut pre = ImuPreintegrator::new(ImuPreintegrationConfig::default());
    let (mut yaw, mut variance, mut bias, mut count) = (0.0f64, 0.0f64, 0.0f64, 0u32);
    for n in 0..500 {
        let gyro = ((n * 37 % 101) as f64 - 50.0) * 0.0007;
        let dt = [0.005, 0.0, -0.005, f64::NAN, f64::INFINITY, 0.004][n % 6];
        pre.integrate(d(gyro), d(dt));
        if dt <= 0.0 || !dt.is_finite() {
            continue;
        }
        let rate = gyro - bias;
        if rate.abs() < 0.01 {
            bias += (gyro - bias) * 0.001;
        } else {
            yaw += rate * dt;
            variance += 0.014 * 0.014 * dt + 0.0003 * 0.0003 * dt;
        }
        count += 1;
    }
    assert_eq!(v(pre.gyro_bias), bias);
    let delta = pre.consume().unwrap();
    assert_eq!(v(delta.delta_yaw), yaw);
    assert_eq!(v(delta.yaw_variance), variance);
    assert_eq!(delta.sample_count, count);
    assert_eq!(v(pre.gyro_bias), bias);
}

#[test]
fn a_stationary_sample_turns_nothing() {
    let mut pre = ImuPreintegrator::new(ImuPreintegrationConfig::default());
    pre.integrate(d(0.005), d(0.005));
    assert_eq!(v(pre.delta_yaw), 0.0);
    assert_eq!(v(pre.gyro_bias), 0.005 * 0.001);
    assert_eq!(pre.sample_count, 1);
}

#[test]
fn the_defaults_are_those_of_the_sensor() {
    let config = ImuPreintegrationConfig::default();
    assert_eq!(v(config.gyro_noise_density), 0.014);
    assert_eq!(v(config.gyro_bias_rw), 0.0003);
    assert!(config.enabled);
}

#[test]
fn turning_samples_add_up() {
    let config = ImuPreintegrationConfig::default();
    let mut pre = ImuPreintegrator::new(config);
    let samples = [(0.7, 0.005), (-0.4, 0.01), (1.3, 0.0075), (0.9, 0.02)];
    let (mut yaw, mut variance) = (0.0f64, 0.0f64);
    let (nd, brw) = (v(config.gyro_noise_density), v(config.gyro_bias_rw));
    for (rate, dt) in samples {
        pre.integrate(d(rate), d(dt));
        yaw += rate * dt;
        variance += nd * nd * dt + brw * brw * dt;
    }
    pre.integrate(d(0.001), d(0.01));
    let delta = pre.consume().unwrap();
    assert_eq!(v(delta.delta_yaw), yaw);
    assert_eq!(v(delta.yaw_variance), variance);
    assert_eq!(delta.sample_count, 5);
}
