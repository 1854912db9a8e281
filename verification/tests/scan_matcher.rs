use std::num::NonZero;

use kiddo::{ImmutableKdTree, SquaredEuclidean};
use nalgebra::{Matrix3, Matrix3x6, Matrix6, Vector3, Vector6};
use slamwich::error::SlamError;
use slamwich::float::double::F64;
use slamwich::float::single::F32;
use slamwich::linear::{Mat3, Vec3};
use slamwich::scan_matcher::covariance::{
    estimate_covariances, neighbour_spread, neighbour_spreads, Decomposition,
};
use slamwich::scan_matcher::normal::{
    compute_jacobian, rotation_from_euler, Mat6, Nearest, Scans, Turns, Vec6,
};
use slamwich::scan_matcher::overlap::{hundredths, overlap_reason, share};
use slamwich::scan_matcher::run::{MatchAnswer, MatchStage, MatchStep};
use slamwich::scan_matcher::voxel::voxel_downsample;
use slamwich::scan_matcher::{
    CorrelativeScanMatcher, MatchSession, ScanMatchConfig, ScanMatchResult, NEIGHBOURS,
};
use slamwich::transforms::{Rotation2, Transform2D};
use slamwich::types::{Point3D, PointCloud};

fn d(x: f64) -> F64 {
    F64::from_bits(x.to_bits())
}

fn v(x: F64) -> f64 {
    f64::from_bits(x.to_bits())
}

fn s(x: f32) -> F32 {
    F32::from_bits(x.to_bits())
}

fn w(x: F32) -> f32 {
    f32::from_bits(x.to_bits())
}

fn turn(angle: f64) -> Rotation2 {
    let (sin, cos) = angle.sin_cos();
    Rotation2 { cos: d(cos), sin: d(sin) }
}

fn angle(turn: Rotation2) -> f64 {
    v(turn.sin).atan2(v(turn.cos))
}

fn from_vec3(a: &Vec3) -> Vector3<f64> {
    Vector3::new(v(a.x), v(a.y), v(a.z))
}

fn vec3(a: &Vector3<f64>) -> Vec3 {
    Vec3::new(d(a.x), d(a.y), d(a.z))
}

fn from_mat3(m: &Mat3) -> Matrix3<f64> {
    Matrix3::from_rows(&[
        from_vec3(&m.r0).transpose(),
        from_vec3(&m.r1).transpose(),
        from_vec3(&m.r2).transpose(),
    ])
}

fn mat3(m: &Matrix3<f64>) -> Mat3 {
    let row = |i: usize| Vec3::new(d(m[(i, 0)]), d(m[(i, 1)]), d(m[(i, 2)]));
    Mat3 { r0: row(0), r1: row(1), r2: row(2) }
}

fn from_mat6(m: &Mat6) -> Matrix6<f64> {
    let mut r = Matrix6::zeros();
    r.fixed_view_mut::<3, 3>(0, 0).copy_from(&from_mat3(&m.shift_shift));
    r.fixed_view_mut::<3, 3>(0, 3).copy_from(&from_mat3(&m.shift_turn));
    r.fixed_view_mut::<3, 3>(3, 0).copy_from(&from_mat3(&m.turn_shift));
    r.fixed_view_mut::<3, 3>(3, 3).copy_from(&from_mat3(&m.turn_turn));
    r
}

fn mat6(m: &Matrix6<f64>) -> Mat6 {
    let block = |i: usize, j: usize| mat3(&m.fixed_view::<3, 3>(i, j).into_owned());
    Mat6 {
        shift_shift: block(0, 0),
        shift_turn: block(0, 3),
        turn_shift: block(3, 0),
        turn_turn: block(3, 3),
    }
}

fn from_vec6(a: &Vec6) -> Vector6<f64> {
    Vector6::new(v(a.shift.x), v(a.shift.y), v(a.shift.z), v(a.turn.x), v(a.turn.y), v(a.turn.z))
}

fn vec6(a: &Vector6<f64>) -> Vec6 {
    Vec6 { shift: Vec3::new(d(a[0]), d(a[1]), d(a[2])), turn: Vec3::new(d(a[3]), d(a[4]), d(a[5])) }
}

fn point(x: f32, y: f32, z: f32) -> Point3D {
    Point3D { x: s(x), y: s(y), z: s(z), reflectivity: 128, tag: 0 }
}

fn make_box_scan(offset_x: f32, offset_y: f32, offset_z: f32) -> PointCloud {
    let mut points = Vec::new();

    for ix in -20..=20 {
        for iy in -20..=20 {
            points.push(point(
                ix as f32 * 0.25 + offset_x,
                iy as f32 * 0.25 + offset_y,
                0.0 + offset_z,
            ));
        }
    }

    for iy in -20..=20 {
        for iz in 0..=8 {
            for &x in &[5.0, -5.0] {
                points.push(point(
                    x + offset_x,
                    iy as f32 * 0.25 + offset_y,
                    iz as f32 * 0.25 + offset_z,
                ));
            }
        }
    }

    for ix in -20..=20 {
        for iz in 0..=8 {
            for &y in &[5.0, -5.0] {
                points.push(point(
                    ix as f32 * 0.25 + offset_x,
                    y + offset_y,
                    iz as f32 * 0.25 + offset_z,
                ));
            }
        }
    }

    PointCloud::new(points)
}

fn single_entries(points: &[Vec3]) -> Vec<[f32; 3]> {
    points.iter().map(|p| [v(p.x) as f32, v(p.y) as f32, v(p.z) as f32]).collect()
}

fn build_kdtree(points: &[Vec3]) -> ImmutableKdTree<f32, 3> {
    ImmutableKdTree::new_from_slice(&single_entries(points))
}

fn neighbourhoods(points: &[Vec3], k: usize) -> Vec<Vec<usize>> {
    let tree = build_kdtree(points);
    single_entries(points)
        .iter()
        .map(|q| {
            tree.nearest_n::<SquaredEuclidean>(q, NonZero::new(k).unwrap())
                .iter()
                .map(|n| n.item as usize)
                .collect()
        })
        .collect()
}

fn decompose(m: &Mat3) -> Decomposition {
    let svd = from_mat3(m).svd(true, true);
    Decomposition {
        u: svd.u.map(|u| mat3(&u)),
        singular_values: vec3(&svd.singular_values),
        v_t: svd.v_t.map(|v_t| mat3(&v_t)),
    }
}

fn decompose_all(spreads: &[Option<Mat3>]) -> Vec<Option<Decomposition>> {
    spreads.iter().map(|m| m.as_ref().map(decompose)).collect()
}

fn turns(session: &MatchSession) -> Turns {
    let (at, on) = session.angles();
    Turns {
        roll: turn(v(at.x)),
        pitch: turn(v(at.y)),
        yaw: turn(v(at.z)),
        roll_on: turn(v(on.x)),
        pitch_on: turn(v(on.y)),
        yaw_on: turn(v(on.z)),
    }
}

fn nearest(tree: &ImmutableKdTree<f32, 3>, places: &[(F32, F32, F32)]) -> Vec<Nearest> {
    places
        .iter()
        .map(|q| {
            let found = tree.nearest_one::<SquaredEuclidean>(&[w(q.0), w(q.1), w(q.2)]);
            Nearest { item: found.item as usize, distance: s(found.distance) }
        })
        .collect()
}

fn match_scans(
    matcher: &CorrelativeScanMatcher,
    reference: &PointCloud,
    current: &PointCloud,
    guess: &Transform2D,
) -> Result<ScanMatchResult, SlamError> {
    let mut stage = matcher.match_scans(reference, current, *guess)?;
    let mut tree = None;
    loop {
        let answer = match &stage {
            MatchStage::Neighbours(pair, _) => {
                tree = Some(build_kdtree(&pair.reference));
                MatchAnswer::Neighbours(
                    neighbourhoods(&pair.reference, NEIGHBOURS),
                    neighbourhoods(&pair.current, NEIGHBOURS),
                )
            }
            MatchStage::Decompose(_, _, reference, current) => {
                MatchAnswer::Decompositions(decompose_all(reference), decompose_all(current))
            }
            MatchStage::Yaw(_, start, _, _) => MatchAnswer::Angle(d(angle(start.guess.rotation()))),
            MatchStage::Turn(session) => MatchAnswer::Turns(turns(session)),
            MatchStage::Find(_, _, places) => {
                MatchAnswer::Nearest(nearest(tree.as_ref().unwrap(), places))
            }
            MatchStage::Solve(_, h, b) => {
                MatchAnswer::Solution(from_mat6(h).lu().solve(&from_vec6(b)).map(|x| vec6(&x)))
            }
            MatchStage::Invert(session, _, m, _) => {
                assert!(session.iteration <= matcher.config.max_iterations);
                MatchAnswer::Inverse(from_mat6(m).try_inverse().map(|m| mat6(&m)))
            }
        };
        match stage.resume(answer)? {
            MatchStep::Ask(next) => stage = next,
            MatchStep::Done(result) => return Ok(result),
        }
    }
}

#[test]
fn test_voxel_downsample() {
    let scan = make_box_scan(0.0, 0.0, 0.0);
    let downsampled = voxel_downsample(&scan.points, d(0.5));
    assert!(downsampled.len() < scan.points.len());
    assert!(downsampled.len() > 10);
}

#[test]
fn test_rotation_from_euler_identity() {
    let r = from_mat3(&rotation_from_euler(turn(0.0), turn(0.0), turn(0.0)));
    let identity: Matrix3<f64> = Matrix3::identity();
    for i in 0..3usize {
        for j in 0..3usize {
            assert!((r[(i, j)] - identity[(i, j)]).abs() < 1e-10);
        }
    }
}

#[test]
fn test_identity_match() {
    let config = ScanMatchConfig::default();
    let matcher = CorrelativeScanMatcher::new(config);

    let scan = make_box_scan(0.0, 0.0, 0.0);
    let result = match_scans(&matcher, &scan, &scan, &Transform2D::identity()).unwrap();

    assert!(v(result.transform.translation().norm()) < 0.1);
    assert!(angle(result.transform.rotation()).abs() < 0.1);
    assert!(v(result.score) > 0.8);
}

#[test]
fn voxels_hold_the_means_of_their_points() {
    let mut points = vec![point(1.0, 1.0, 0.0), point(-1.0, 1.0, 0.0), point(1.25, 1.125, 0.25)];
    points.push(point(0.05, 0.0, 0.0));
    points.push(point(0.0, 51.0, 0.0));
    points.push(point(f32::NAN, 1.0, 0.0));
    points.push(point(-0.25, 1.0, 0.0));
    let means: Vec<Vector3<f64>> =
        voxel_downsample(&points, d(0.5)).iter().map(from_vec3).collect();
    assert_eq!(
        means,
        vec![
            Vector3::new(1.125, 1.0625, 0.125),
            Vector3::new(-1.0, 1.0, 0.0),
            Vector3::new(-0.25, 1.0, 0.0),
        ]
    );
    assert_eq!(voxel_downsample(&Vec::new(), d(0.5)).len(), 0);
}

#[test]
fn the_limits_of_the_range_are_usable() {
    let at_limits = vec![
        point(50.0, 0.0, 0.0),
        point(0.1, 0.0, 0.0),
        point(0.0, 50.001, 0.0),
        point(0.0, 0.0999, 0.0),
    ];
    let kept = voxel_downsample(&at_limits, d(0.2));
    let range = 0.1f32 * 0.1f32;
    assert_eq!(kept.len(), if range < 0.01 { 1 } else { 2 });
    assert_eq!(v(kept[0].x), 50.0);
}

#[test]
fn spreads_agree_with_nalgebra() {
    let points: Vec<Vec3> = (0..12)
        .map(|n| {
            let (x, y) = ((n * 7 % 5) as f64 * 0.31, (n * 3 % 11) as f64 * -0.17);
            Vec3::new(d(x), d(y), d(n as f64 * 0.05))
        })
        .collect();
    let neighbours: Vec<usize> = vec![3, 0, 7, 11, 5];
    let mut centroid = Vector3::zeros();
    for n in &neighbours {
        centroid += from_vec3(&points[*n]);
    }
    centroid /= neighbours.len() as f64;
    let mut cov = Matrix3::zeros();
    for n in &neighbours {
        let diff = from_vec3(&points[*n]) - centroid;
        cov += diff * diff.transpose();
    }
    cov /= neighbours.len() as f64;
    let spread = neighbour_spread(&points, &neighbours).unwrap();
    assert_eq!(from_mat3(&spread), cov);
    assert_eq!(from_mat3(&spread).transpose(), cov);

    let svd = cov.svd(true, true);
    let mut values = svd.singular_values;
    let eps = values[0] * 1e-3;
    for i in 0..3 {
        values[i] = values[i].max(eps);
    }
    let expected = svd.u.unwrap() * Matrix3::from_diagonal(&values) * svd.v_t.unwrap();
    assert_eq!(from_mat3(&decompose(&spread).flattened()), expected);
}

#[test]
fn lonely_points_get_a_fixed_covariance() {
    let points: Vec<Vec3> = (0..4).map(|n| Vec3::new(d(n as f64), d(0.0), d(0.0))).collect();
    assert!(neighbour_spread(&points, &vec![0, 1]).is_none());
    let spreads = neighbour_spreads(&points, 10, &Vec::new());
    assert!(spreads.iter().all(|m| m.is_none()));
    let covs = estimate_covariances(&spreads, &vec![None; 4]);
    assert_eq!(covs.len(), 4);
    assert_eq!(from_mat3(&covs[3]), Matrix3::identity() * 0.01);
}

fn euler(roll: f64, pitch: f64, yaw: f64) -> Matrix3<f64> {
    let (sr, cr) = roll.sin_cos();
    let (sp, cp) = pitch.sin_cos();
    let (sy, cy) = yaw.sin_cos();
    Matrix3::new(
        cy * cp,
        cy * sp * sr - sy * cr,
        cy * sp * cr + sy * sr,
        sy * cp,
        sy * sp * sr + cy * cr,
        sy * sp * cr - cy * sr,
        -sp,
        cp * sr,
        cp * cr,
    )
}

fn jacobian(cur_pt: &Vector3<f64>, rot: &Matrix3<f64>, pose: &Vector6<f64>) -> Matrix3x6<f64> {
    let mut jac = Matrix3x6::zeros();
    jac[(0, 0)] = -1.0;
    jac[(1, 1)] = -1.0;
    jac[(2, 2)] = -1.0;
    let h = 1e-6;
    let transformed = rot * cur_pt;
    for axis in 0..3 {
        let mut pose_plus = *pose;
        pose_plus[3 + axis] += h;
        let rot_plus = euler(pose_plus[3], pose_plus[4], pose_plus[5]);
        let transformed_plus = rot_plus * cur_pt;
        let slope = -(transformed_plus - transformed) / h;
        jac[(0, 3 + axis)] = slope.x;
        jac[(1, 3 + axis)] = slope.y;
        jac[(2, 3 + axis)] = slope.z;
    }
    jac
}

/// A small session, at a pose away from the origin.
fn small_session() -> MatchSession {
    let place = |n: usize, dx: f64, dy: f64| {
        let (x, y) = (n as f64 * 0.4 + dx, (n * n) as f64 * 0.1 + dy);
        Vec3::new(d(x), d(y), d(0.3 * (n % 2) as f64))
    };
    let reference: Vec<Vec3> = (0..6).map(|n| place(n, 0.0, 0.0)).collect();
    let current: Vec<Vec3> = (0..5).map(|n| place(n, -0.1, 0.05)).collect();
    let shape = Matrix3::new(0.01, 0.002, 0.0, 0.002, 0.03, 0.001, 0.0, 0.001, 0.005);
    let cov = |n: usize| mat3(&(Matrix3::identity() * 0.02 + shape * (n + 1) as f64));
    MatchSession {
        scans: Scans {
            reference_covariances: (0..6).map(cov).collect(),
            current_covariances: (0..5).map(cov).collect(),
            reference,
            current,
            max_dist_sq: s(1.0),
        },
        min_overlap: d(0.3),
        convergence_threshold: d(1e-4),
        max_iterations: 30,
        pose: Vec6 {
            shift: Vec3::new(d(0.1), d(-0.2), d(0.05)),
            turn: Vec3::new(d(0.02), d(-0.03), d(0.4)),
        },
        iteration: 0,
        converged: false,
    }
}

#[test]
fn normal_equations_agree_with_nalgebra() {
    let session = small_session();
    let at = turns(&session);
    let mut answers: Vec<Nearest> = (0..5)
        .map(|n| Nearest { item: n + 1, distance: s(0.25 * n as f32) })
        .collect();
    answers[3].distance = s(1.5);
    let (h, b) = session.equations(&at, &answers).unwrap();

    let pose = from_vec6(&session.pose);
    let rot = euler(pose[3], pose[4], pose[5]);
    let trans = Vector3::new(pose[0], pose[1], pose[2]);
    let mut expected_h = Matrix6::zeros();
    let mut expected_b = Vector6::zeros();
    for j in [0usize, 1, 2, 4] {
        let cur = from_vec3(&session.scans.current[j]);
        let transformed = rot * cur + trans;
        let i = answers[j].item;
        let c_ref = from_mat3(&session.scans.reference_covariances[i]);
        let c_cur = from_mat3(&session.scans.current_covariances[j]);
        let combined = c_ref + rot * c_cur * rot.transpose();
        let c_inv = (combined + Matrix3::identity() * 1e-6)
            .try_inverse()
            .unwrap_or(Matrix3::identity());
        let residual = from_vec3(&session.scans.reference[i]) - transformed;
        let jac = jacobian(&cur, &rot, &pose);
        let jt = jac.transpose();
        expected_h += &jt * &c_inv * &jac;
        expected_b += &jt * (&c_inv * residual);
    }
    assert_eq!(from_mat6(&h), expected_h + Matrix6::identity() * 1e-6);
    assert_eq!(from_vec6(&b), -expected_b);

    let ours = compute_jacobian(session.scans.current[2], at.attitude());
    let theirs = jacobian(&from_vec3(&session.scans.current[2]), &rot, &pose);
    assert_eq!(from_mat3(&ours.shift), theirs.fixed_view::<3, 3>(0, 0).into_owned());
    assert_eq!(from_mat3(&ours.turn), theirs.fixed_view::<3, 3>(0, 3).into_owned());
    assert_eq!(from_mat3(&at.attitude().rot), rot);
}

#[test]
fn too_little_overlap_is_refused() {
    let session = small_session();
    let at = turns(&session);
    let mut answers: Vec<Nearest> = (0..5).map(|n| Nearest { item: n, distance: s(2.0) }).collect();
    answers[0].distance = s(0.5);
    let error = session.equations(&at, &answers).unwrap_err();
    assert_eq!(error.message(), "Scan matching failed: Insufficient overlap: 0.20");
    assert!(matches!(error, SlamError::ScanMatchFailed(_)));
}

#[test]
fn steps_move_the_estimate_until_one_is_small() {
    let mut session = small_session();
    let dx = Vec6 {
        shift: Vec3::new(d(0.5), d(0.0), d(0.25)),
        turn: Vec3::new(d(0.0), d(0.1), d(-0.2)),
    };
    session.advance(Some(dx)).unwrap();
    assert_eq!(v(session.pose.shift.x), 0.1 + 0.5);
    assert_eq!(v(session.pose.turn.z), 0.4 - 0.2);
    assert!(session.wants_step());
    assert_eq!(v(dx.norm()), from_vec6(&dx).norm());
    let error = session.advance(None).unwrap_err();
    assert_eq!(error.message(), "Scan matching failed: Linear system solve failed");
    assert_eq!(session.iteration, 1);
    let tiny = Vec6 { shift: Vec3::new(d(1e-5), d(0.0), d(0.0)), turn: Vec3::zeros() };
    session.advance(Some(tiny)).unwrap();
    assert!(session.converged);
    assert!(!session.wants_step());
}

#[test]
fn a_match_stops_at_its_limit() {
    let mut session = small_session();
    session.max_iterations = 3;
    let dx = Vec6 { shift: Vec3::new(d(1.0), d(1.0), d(1.0)), turn: Vec3::zeros() };
    let mut steps = 0;
    while session.wants_step() {
        session.advance(Some(dx)).unwrap();
        steps += 1;
    }
    assert_eq!(steps, 3);
}

#[test]
fn the_result_keeps_x_y_and_yaw() {
    let session = small_session();
    let m = Matrix6::from_fn(|i, j| (10 * i + j) as f64);
    let r = session.finish(4, Some(mat6(&m)), turn(0.4));
    let picked = Matrix3::new(0.0, 1.0, 5.0, 10.0, 11.0, 15.0, 50.0, 51.0, 55.0);
    assert_eq!(from_mat3(&r.covariance), picked);
    assert_eq!(v(r.score), 0.8);
    assert_eq!(v(r.transform.shift.y), -0.2);
    assert_eq!(v(r.transform.turn.sin), 0.4f64.sin());
    let r = session.finish(5, None, turn(0.4));
    assert_eq!(from_mat3(&r.covariance), Matrix3::identity() * 0.1);
    assert_eq!(v(r.score), 1.0);
}

#[test]
fn few_points_are_refused() {
    let matcher = CorrelativeScanMatcher::new(ScanMatchConfig::default());
    let few = PointCloud::new((0..9).map(|n| point(1.0 + n as f32, 0.0, 0.0)).collect());
    let many = make_box_scan(0.0, 0.0, 0.0);
    for (a, b) in [(&few, &many), (&many, &few)] {
        let error = matcher.match_scans(a, b, Transform2D::identity()).unwrap_err();
        assert_eq!(error.message(), "Scan matching failed: Too few points after downsampling");
    }
    let ten = PointCloud::new((0..10).map(|n| point(1.0 + n as f32, 0.0, 0.0)).collect());
    let stage = matcher.match_scans(&ten, &many, Transform2D::identity()).unwrap();
    assert!(matches!(stage, MatchStage::Neighbours(pair, _) if pair.reference.len() == 10));
}

#[test]
fn shares_are_shown_with_two_decimals() {
    for total in 1..40usize {
        for valid in 0..=total {
            let x = share(valid, total);
            assert_eq!(v(x), valid as f64 / total as f64);
            assert!((0.0..=1.0).contains(&v(x)));
            assert_eq!(overlap_reason(x), format!("Insufficient overlap: {:.2}", v(x)));
        }
    }
    for x in [0.125, 0.375, 0.005, 0.015, 0.995, 5e-324, 0.29499999999999998] {
        assert_eq!(overlap_reason(d(x)), format!("Insufficient overlap: {x:.2}"));
    }
    assert_eq!(hundredths(d(0.125)), 12);
    assert_eq!(hundredths(d(0.375)), 38);
    assert_eq!(hundredths(d(1.0)), 100);
}

#[test]
fn a_shifted_scan_is_found() {
    let config = ScanMatchConfig { max_iterations: 8, ..ScanMatchConfig::default() };
    let matcher = CorrelativeScanMatcher::new(config);
    let reference = make_box_scan(0.0, 0.0, 0.0);
    let current = make_box_scan(-0.0625, 0.0, 0.0);
    let result = match_scans(&matcher, &reference, &current, &Transform2D::identity()).unwrap();
    assert!(v(result.score) > 0.8);
    assert!(v(result.score) <= 1.0);
    assert!(v(result.transform.translation().norm()) < 0.3);
}

#[test]
fn search_ranges_are_not_used() {
    let config = ScanMatchConfig { max_iterations: 4, ..ScanMatchConfig::default() };
    let other = ScanMatchConfig { linear_range: d(9.0), angular_range: d(0.0), ..config };
    let reference = make_box_scan(0.0, 0.0, 0.0);
    let current = make_box_scan(-0.0625, 0.0, 0.0);
    let results = [config, other].map(|c| {
        let matcher = CorrelativeScanMatcher::new(c);
        match_scans(&matcher, &reference, &current, &Transform2D::identity()).unwrap()
    });
    let bits = |r: &ScanMatchResult| {
        (r.score.to_bits(), r.transform.shift.x.to_bits(), r.transform.turn.sin.to_bits())
    };
    assert_eq!(bits(&results[0]), bits(&results[1]));
    assert_eq!(from_mat3(&results[0].covariance), from_mat3(&results[1].covariance));
}

#[test]
fn the_defaults_of_the_matcher() {
    let config = ScanMatchConfig::default();
    assert_eq!(v(config.resolution), 0.2);
    assert_eq!(v(config.linear_range), 0.5);
    assert_eq!(v(config.angular_range), 0.26);
    assert_eq!(config.max_iterations, 30);
    assert_eq!(v(config.convergence_threshold), 1e-4);
    assert_eq!(v(config.max_correspondence_dist), 1.0);
    assert_eq!(v(config.min_overlap), 0.3);
}
