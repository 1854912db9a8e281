//! The numbers behind the patterns.
use vstd::arithmetic::power2::*;
use vstd::prelude::*;

use crate::config::{
    CLOSURE_RADIUS, CLOSURE_SIGMAS, CLOSURE_THRESHOLD, FIVE_HUNDREDTHS, KEYFRAME_ROTATION,
    ONE_HUNDREDTH, TWO_HUNDREDTHS,
};
use crate::ekf::{FIRST_VARIANCE, NOISE_FLOOR};
use crate::float::double::F64;
use crate::float::rounding::Format;
use crate::graph::{ANCHOR, DAMPING, EPSILON, TWO_EPSILON};
use crate::imu_preintegration::{BIAS_GAIN, GYRO_BIAS_RW, GYRO_NOISE_DENSITY, STATIONARY_THRESHOLD};
use crate::optimizer::{GRAPH_CONVERGENCE, MAX_GRAPH_STEPS};
use crate::processor::{RELOC_DISTANCE, RELOC_ITERATIONS, RELOC_OVERLAP, SCORE_WEIGHT};
use crate::scan_context::{LEAST_NORM, MAX_RANGE, MIN_RANGE};
use crate::scan_matcher::covariance::{LEAST_SPREAD, LONELY_VARIANCE};
use crate::scan_matcher::normal::SMALL;
use crate::scan_matcher::{
    CONVERGENCE, MIN_OVERLAP, MIN_POINTS, NEIGHBOURS, RESOLUTION, UNKNOWN_VARIANCE,
};

verus! {

/// The pattern stands for `num / den`, but for its last place.
pub open spec fn is_ratio(bits: u64, num: int, den: int) -> bool {
    let a = F64::from_bits(bits);
    &&& a.finite()
    &&& crate::nearness::magnitude_of(a.value() * den - num * crate::nearness::one_unit())
        * 0x10_0000_0000_0000 <= num * crate::nearness::one_unit()
}

/// A pattern with significand `m` and last place `2^e`.
proof fn lemma_ratio(bits: u64, m: nat, e: nat, power: int, num: int, den: int)
    requires
        bits < 0x7ff0_0000_0000_0000,
        bits as nat / 0x10_0000_0000_0000 == e + 1,
        m == 0x10_0000_0000_0000 + bits as nat % 0x10_0000_0000_0000,
        e <= 1074,
        power == pow2((1074 - e) as nat),
        num >= 0,
        crate::nearness::magnitude_of(m * den - num * power) * 0x10_0000_0000_0000 <= num * power,
    ensures
        is_ratio(bits, num, den),
{
    let f = Format::double();
    let p = pow2(e) as int;
    lemma_pow2_pos(e);
    lemma_pow2_adds((1074 - e) as nat, e);
    let v = F64::from_bits(bits).value();
    assert(v == m * p);
    let u = crate::nearness::one_unit();
    let d = m * den - num * power;
    assert(v * den - num * u == d * p) by (nonlinear_arith)
        requires
            v == m * p,
            u == power * p,
            d == m * den - num * power,
    ;
    let k = crate::nearness::magnitude_of(d);
    assert(d * p == k * p || d * p == -(k * p)) by (nonlinear_arith)
        requires
            d == k || d == -k,
    ;
    assert((k * p) * 0x10_0000_0000_0000 <= num * u && k * p >= 0) by (nonlinear_arith)
        requires
            k * 0x10_0000_0000_0000 <= num * power,
            u == power * p,
            p > 0,
            k >= 0,
    ;
}

/// What the settings and the limits of the library are in metres, radians and
/// shares.
pub proof fn constants_are_what_they_are_called()
    ensures
        is_ratio(GYRO_NOISE_DENSITY, 14, 1000),
        is_ratio(GYRO_BIAS_RW, 3, 10000),
        is_ratio(STATIONARY_THRESHOLD, 1, 100),
        is_ratio(BIAS_GAIN, 1, 1000),
        is_ratio(FIRST_VARIANCE, 1, 10000),
        is_ratio(NOISE_FLOOR, 1, 100000000),
        is_ratio(MAX_RANGE, 40, 1),
        is_ratio(MIN_RANGE, 1, 10),
        is_ratio(LEAST_NORM, 1, 1000000000000),
        is_ratio(GRAPH_CONVERGENCE, 1, 10000),
        is_ratio(SMALL, 1, 1000000),
        is_ratio(RESOLUTION, 2, 10),
        is_ratio(CONVERGENCE, 1, 10000),
        is_ratio(MIN_OVERLAP, 3, 10),
        is_ratio(UNKNOWN_VARIANCE, 1, 10),
        is_ratio(LONELY_VARIANCE, 1, 100),
        is_ratio(LEAST_SPREAD, 1, 1000),
        is_ratio(EPSILON, 1, 1000000),
        is_ratio(TWO_EPSILON, 2, 1000000),
        is_ratio(DAMPING, 1, 1000),
        is_ratio(ANCHOR, 10000000000, 1),
        is_ratio(RELOC_DISTANCE, 5, 1),
        is_ratio(RELOC_OVERLAP, 1, 10),
        is_ratio(SCORE_WEIGHT, 1000, 1),
        is_ratio(KEYFRAME_ROTATION, 1, 2),
        is_ratio(CLOSURE_THRESHOLD, 7, 10),
        is_ratio(CLOSURE_RADIUS, 5, 1),
        is_ratio(CLOSURE_SIGMAS, 3, 1),
        is_ratio(FIVE_HUNDREDTHS, 5, 100),
        is_ratio(TWO_HUNDREDTHS, 2, 100),
        is_ratio(ONE_HUNDREDTH, 1, 100),
        MIN_POINTS == 10,
        NEIGHBOURS == 10,
        RELOC_ITERATIONS == 50,
        MAX_GRAPH_STEPS == 10,
{
    lemma2_to64();
    lemma2_to64_rest();
    lemma_ratio(GYRO_NOISE_DENSITY, 0x1c_ac08_3126_e979, 1015, 0x800_0000_0000_0000, 14, 1000);
    lemma_ratio(GYRO_BIAS_RW, 0x13_a92a_3055_3261, 1010, 0x1_0000_0000_0000_0000, 3, 10000);
    lemma_ratio(STATIONARY_THRESHOLD, 0x14_7ae1_47ae_147b, 1015, 0x800_0000_0000_0000, 1, 100);
    lemma_ratio(BIAS_GAIN, 0x10_624d_d2f1_a9fc, 1012, 0x4000_0000_0000_0000, 1, 1000);
    lemma_pow2_adds(34, 32);
    lemma_ratio(FIRST_VARIANCE, 0x1a_36e2_eb1c_432d, 1008, 0x4_0000_0000_0000_0000, 1, 10000);
    lemma_pow2_adds(47, 32);
    lemma_ratio(NOISE_FLOOR, 0x15_798e_e230_8c3a, 995, 0x8000_0000_0000_0000_0000, 1, 100000000);
    lemma_ratio(MAX_RANGE, 0x14_0000_0000_0000, 1027, 0x8000_0000_0000, 40, 1);
    lemma_ratio(MIN_RANGE, 0x19_9999_9999_999a, 1018, 0x100_0000_0000_0000, 1, 10);
    lemma_pow2_adds(60, 32);
    lemma_ratio(
        LEAST_NORM,
        0x11_9799_812d_ea11,
        982,
        0x1000_0000_0000_0000_0000_0000,
        1,
        1000000000000,
    );
    lemma_pow2_adds(34, 32);
    lemma_ratio(GRAPH_CONVERGENCE, 0x1a_36e2_eb1c_432d, 1008, 0x4_0000_0000_0000_0000, 1, 10000);
    lemma_pow2_adds(40, 32);
    lemma_ratio(SMALL, 0x10_c6f7_a0b5_ed8d, 1002, 0x100_0000_0000_0000_0000, 1, 1000000);
    lemma_ratio(RESOLUTION, 0x19_9999_9999_999a, 1019, 0x80_0000_0000_0000, 2, 10);
    lemma_pow2_adds(34, 32);
    lemma_ratio(CONVERGENCE, 0x1a_36e2_eb1c_432d, 1008, 0x4_0000_0000_0000_0000, 1, 10000);
    lemma_ratio(MIN_OVERLAP, 0x13_3333_3333_3333, 1020, 0x40_0000_0000_0000, 3, 10);
    lemma_ratio(UNKNOWN_VARIANCE, 0x19_9999_9999_999a, 1018, 0x100_0000_0000_0000, 1, 10);
    lemma_ratio(LONELY_VARIANCE, 0x14_7ae1_47ae_147b, 1015, 0x800_0000_0000_0000, 1, 100);
    lemma_ratio(LEAST_SPREAD, 0x10_624d_d2f1_a9fc, 1012, 0x4000_0000_0000_0000, 1, 1000);
    lemma_pow2_adds(40, 32);
    lemma_ratio(EPSILON, 0x10_c6f7_a0b5_ed8d, 1002, 0x100_0000_0000_0000_0000, 1, 1000000);
    lemma_pow2_adds(39, 32);
    lemma_ratio(TWO_EPSILON, 0x10_c6f7_a0b5_ed8d, 1003, 0x80_0000_0000_0000_0000, 2, 1000000);
    lemma_ratio(DAMPING, 0x10_624d_d2f1_a9fc, 1012, 0x4000_0000_0000_0000, 1, 1000);
    lemma_ratio(ANCHOR, 0x12_a05f_2000_0000, 1055, 0x8_0000, 10000000000, 1);
    lemma_ratio(RELOC_DISTANCE, 0x14_0000_0000_0000, 1024, 0x4_0000_0000_0000, 5, 1);
    lemma_ratio(RELOC_OVERLAP, 0x19_9999_9999_999a, 1018, 0x100_0000_0000_0000, 1, 10);
    lemma_ratio(SCORE_WEIGHT, 0x1f_4000_0000_0000, 1031, 0x800_0000_0000, 1000, 1);
    lemma_ratio(KEYFRAME_ROTATION, 0x10_0000_0000_0000, 1021, 0x20_0000_0000_0000, 1, 2);
    lemma_ratio(CLOSURE_THRESHOLD, 0x16_6666_6666_6666, 1021, 0x20_0000_0000_0000, 7, 10);
    lemma_ratio(CLOSURE_RADIUS, 0x14_0000_0000_0000, 1024, 0x4_0000_0000_0000, 5, 1);
    lemma_ratio(CLOSURE_SIGMAS, 0x18_0000_0000_0000, 1023, 0x8_0000_0000_0000, 3, 1);
    lemma_ratio(FIVE_HUNDREDTHS, 0x19_9999_9999_999a, 1017, 0x200_0000_0000_0000, 5, 100);
    lemma_ratio(TWO_HUNDREDTHS, 0x14_7ae1_47ae_147b, 1016, 0x400_0000_0000_0000, 2, 100);
    lemma_ratio(ONE_HUNDREDTH, 0x14_7ae1_47ae_147b, 1015, 0x800_0000_0000_0000, 1, 100);
}

} // verus!
