use std::num::NonZero;
use std::sync::Arc;

use kiddo::{ImmutableKdTree, SquaredEuclidean};
use nalgebra::{DMatrix, DVector, Isometry2, Matrix3, Matrix6, Vector2, Vector3, Vector6};
use slamwich::config::{SlamConfig, SlamState};
use slamwich::ekf::{BodyMotion, PoseEkf};
use slamwich::error::SlamError;
use slamwich::float::double::F64;
use slamwich::float::single::F32;
use slamwich::graph::{
    compute_edge_error, edge_probes, huber_weight, residual_delta, Keyframe, Nudges, PoseGraphEdge,
    EPSILON,
};
use slamwich::imu_preintegration::PreintegratedDelta;
use slamwich::linear::{Mat3, Vec3};
use slamwich::optimizer::{GraphAnswer, GraphNext, GraphStage, GraphStep};
use slamwich::processor::{compute_information, descriptor_points, SlamProcessor, SlamUpdate};
use slamwich::scan_context::ScanContextDescriptor;
use slamwich::scan_matcher::covariance::Decomposition;
use slamwich::scan_matcher::normal::{Mat6, Nearest, Turns, Vec6};
use slamwich::scan_matcher::run::{MatchAnswer, MatchStage, MatchStep};
use slamwich::scan_matcher::{
    CorrelativeScanMatcher, MatchSession, ScanMatchResult, NEIGHBOURS,
};
use slamwich::scan_run::{ScanAnswer, ScanNext, ScanStage};
use slamwich::transforms::{normalize_angle, Rotation2, Transform2D};
use slamwich::types::{Point3D, PointCloud, Pose};

fn d(x: f64) -> F64 {
    F64::from_bits(x.to_bits())
}

fn v(x: F64) -> f64 {
    f64::from_bits(x.to_bits())
}

fn s(x: f32) -> F32 {
    F32::from_bits(x.to_bits())
}

fn w(x: F32) -> f32 {
    f32::from_bits(x.to_bits())
}

fn turn(angle: f64) -> Rotation2 {
    let (sin, cos) = angle.sin_cos();
    Rotation2 { cos: d(cos), sin: d(sin) }
}

fn angle(turn: Rotation2) -> f64 {
    v(turn.sin).atan2(v(turn.cos))
}

fn from_vec3(a: &Vec3) -> Vector3<f64> {
    Vector3::new(v(a.x), v(a.y), v(a.z))
}

fn vec3(a: &Vector3<f64>) -> Vec3 {
    Vec3::new(d(a.x), d(a.y), d(a.z))
}

fn from_mat3(m: &Mat3) -> Matrix3<f64> {
    Matrix3::from_rows(&[
        from_vec3(&m.r0).transpose(),
        from_vec3(&m.r1).transpose(),
        from_vec3(&m.r2).transpose(),
    ])
}

fn mat3(m: &Matrix3<f64>) -> Mat3 {
    let row = |i: usize| Vec3::new(d(m[(i, 0)]), d(m[(i, 1)]), d(m[(i, 2)]));
    Mat3 { r0: row(0), r1: row(1), r2: row(2) }
}

fn from_mat6(m: &Mat6) -> Matrix6<f64> {
    let mut r = Matrix6::zeros();
    r.fixed_view_mut::<3, 3>(0, 0).copy_from(&from_mat3(&m.shift_shift));
    r.fixed_view_mut::<3, 3>(0, 3).copy_from(&from_mat3(&m.shift_turn));
    r.fixed_view_mut::<3, 3>(3, 0).copy_from(&from_mat3(&m.turn_shift));
    r.fixed_view_mut::<3, 3>(3, 3).copy_from(&from_mat3(&m.turn_turn));
    r
}

fn mat6(m: &Matrix6<f64>) -> Mat6 {
    let block = |i: usize, j: usize| mat3(&m.fixed_view::<3, 3>(i, j).into_owned());
    Mat6 {
        shift_shift: block(0, 0),
        shift_turn: block(0, 3),
        turn_shift: block(3, 0),
        turn_turn: block(3, 3),
    }
}

fn from_vec6(a: &Vec6) -> Vector6<f64> {
    Vector6::new(v(a.shift.x), v(a.shift.y), v(a.shift.z), v(a.turn.x), v(a.turn.y), v(a.turn.z))
}

fn vec6(a: &Vector6<f64>) -> Vec6 {
    Vec6 { shift: Vec3::new(d(a[0]), d(a[1]), d(a[2])), turn: Vec3::new(d(a[3]), d(a[4]), d(a[5])) }
}

fn single_entries(points: &[Vec3]) -> Vec<[f32; 3]> {
    points.iter().map(|p| [v(p.x) as f32, v(p.y) as f32, v(p.z) as f32]).collect()
}

fn build_kdtree(points: &[Vec3]) -> ImmutableKdTree<f32, 3> {
    ImmutableKdTree::new_from_slice(&single_entries(points))
}

fn neighbourhoods(points: &[Vec3], k: usize) -> Vec<Vec<usize>> {
    let tree = build_kdtree(points);
    single_entries(points)
        .iter()
        .map(|q| {
            tree.nearest_n::<SquaredEuclidean>(q, NonZero::new(k).unwrap())
                .iter()
                .map(|n| n.item as usize)
                .collect()
        })
        .collect()
}

fn decompose(m: &Mat3) -> Decomposition {
    let svd = from_mat3(m).svd(true, true);
    Decomposition {
        u: svd.u.map(|u| mat3(&u)),
        singular_values: vec3(&svd.singular_values),
        v_t: svd.v_t.map(|v_t| mat3(&v_t)),
    }
}

fn decompose_all(spreads: &[Option<Mat3>]) -> Vec<Option<Decomposition>> {
    spreads.iter().map(|m| m.as_ref().map(decompose)).collect()
}

fn turns(session: &MatchSession) -> Turns {
    let (at, on) = session.angles();
    Turns {
        roll: turn(v(at.x)),
        pitch: turn(v(at.y)),
        yaw: turn(v(at.z)),
        roll_on: turn(v(on.x)),
        pitch_on: turn(v(on.y)),
        yaw_on: turn(v(on.z)),
    }
}

fn nearest(tree: &ImmutableKdTree<f32, 3>, places: &[(F32, F32, F32)]) -> Vec<Nearest> {
    places
        .iter()
        .map(|q| {
            let found = tree.nearest_one::<SquaredEuclidean>(&[w(q.0), w(q.1), w(q.2)]);
            Nearest { item: found.item as usize, distance: s(found.distance) }
        })
        .collect()
}

fn match_scans(
    matcher: &CorrelativeScanMatcher,
    reference: &PointCloud,
    current: &PointCloud,
    guess: &Transform2D,
) -> Result<ScanMatchResult, SlamError> {
    let mut stage = matcher.match_scans(reference, current, *guess)?;
    let mut tree = None;
    loop {
        let answer = match &stage {
            MatchStage::Neighbours(pair, _) => {
                tree = Some(build_kdtree(&pair.reference));
                MatchAnswer::Neighbours(
                    neighbourhoods(&pair.reference, NEIGHBOURS),
                    neighbourhoods(&pair.current, NEIGHBOURS),
                )
            }
            MatchStage::Decompose(_, _, reference, current) => {
                MatchAnswer::Decompositions(decompose_all(reference), decompose_all(current))
            }
            MatchStage::Yaw(_, start, _, _) => MatchAnswer::Angle(d(angle(start.guess.rotation()))),
            MatchStage::Turn(session) => MatchAnswer::Turns(turns(session)),
            MatchStage::Find(_, _, places) => {
                MatchAnswer::Nearest(nearest(tree.as_ref().unwrap(), places))
            }
            MatchStage::Solve(_, h, b) => {
                MatchAnswer::Solution(from_mat6(h).lu().solve(&from_vec6(b)).map(|x| vec6(&x)))
            }
            MatchStage::Invert(session, _, m, _) => {
                assert!(session.iteration <= matcher.config.max_iterations);
                MatchAnswer::Inverse(from_mat6(m).try_inverse().map(|m| mat6(&m)))
            }
        };
        match stage.resume(answer)? {
            MatchStep::Ask(next) => stage = next,
            MatchStep::Done(result) => return Ok(result),
        }
    }
}

fn heading(slam: &SlamProcessor) -> Rotation2 {
    turn(v(slam.ekf.state.z))
}

fn update_odometry(slam: &mut SlamProcessor, x: f64, y: f64, theta: f64) {
    let pose = Pose { x: d(x), y: d(y), theta: d(theta) };
    let rotation = turn(theta);
    let delta = slam.odometry_delta(&pose, rotation);
    let at = heading(slam);
    slam.update_odometry(&pose, rotation, d(angle(delta.rotation())), at);
}

fn pose(slam: &SlamProcessor) -> (f64, f64, f64) {
    let at = heading(slam);
    let r = slam.pose(at, d(angle(at)));
    (v(r.x), v(r.y), v(r.theta))
}

fn describe(slam: &SlamProcessor, scan: &PointCloud) -> ScanContextDescriptor {
    let points = descriptor_points(scan);
    let azimuths: Vec<F64> = points.iter().map(|p| d(v(p.y).atan2(v(p.x)))).collect();
    slam.compute_descriptor(scan, &azimuths)
}

fn nudges() -> Nudges {
    let step = v(F64::from_bits(EPSILON));
    Nudges { on: turn(step), back: turn(-step) }
}

fn angles_of(probes: &[Vec<Transform2D>]) -> Vec<Vec<F64>> {
    probes.iter().map(|row| row.iter().map(|tf| d(angle(tf.rotation()))).collect()).collect()
}

fn probe_angles(slam: &SlamProcessor) -> Vec<Vec<F64>> {
    angles_of(&edge_probes(&slam.keyframes, &slam.edges, &nudges()))
}

fn graph_answer(stage: &GraphStage) -> GraphAnswer {
    match stage {
        GraphStage::Nudge(step) => {
            assert_eq!(v(*step), 1e-6);
            GraphAnswer::Nudges(nudges())
        }
        GraphStage::Probe(_, _, probes) => GraphAnswer::Angles(angles_of(probes)),
        GraphStage::Solve(_, _, system, right) => {
            let n = system.size;
            let h = DMatrix::from_fn(3 * n, 3 * n, |i, j| {
                from_mat3(&system.get(i / 3, j / 3))[(i % 3, j % 3)]
            });
            let b = DVector::from_fn(3 * n, |i, _| from_vec3(&right[i / 3])[i % 3]);
            GraphAnswer::Solution(h.lu().solve(&b).map(|x| GraphStep {
                dx: (0..n)
                    .map(|i| Vec3::new(d(x[3 * i]), d(x[3 * i + 1]), d(x[3 * i + 2])))
                    .collect(),
            }))
        }
        GraphStage::Turn(_, _, step) => {
            GraphAnswer::Turns(step.dx.iter().map(|x| turn(v(x.z))).collect())
        }
        GraphStage::Last(pose) => GraphAnswer::Angle(d(angle(pose.rotation()))),
    }
}

/// Optimizes the graph; returns the number of answers that it took.
fn optimize(slam: &mut SlamProcessor) -> Result<usize, SlamError> {
    let mut next = slam.optimize();
    let mut count = 0;
    while let GraphNext::Ask(stage) = next {
        let answer = graph_answer(&stage);
        next = stage.resume(slam, answer)?;
        count += 1;
    }
    Ok(count)
}

fn process_scan(slam: &mut SlamProcessor, scan: &PointCloud, now: u64) -> Option<SlamUpdate> {
    let scan = Arc::new(scan.clone());
    let mut stage = slam.first_stage();
    loop {
        let compare = |id: usize, guess: &Transform2D| {
            match_scans(&slam.scan_matcher, &slam.keyframes()[id].scan, &scan, guess).ok()
        };
        let answer = match &stage {
            ScanStage::Odometry(tf)
            | ScanStage::Measure(_, _, tf)
            | ScanStage::Found(_, _, tf)
            | ScanStage::Motion(_, _, tf) => ScanAnswer::Angle(d(angle(tf.rotation()))),
            ScanStage::Guess(_, heading, yaw) => {
                ScanAnswer::Rotations(turn(v(*heading)), turn(v(*yaw)))
            }
            ScanStage::Match(_, id, guess) => ScanAnswer::Matched(compare(*id, guess)),
            ScanStage::Clock(_) | ScanStage::Stamp(_, _, _) => ScanAnswer::Time(now),
            ScanStage::Search(_) => ScanAnswer::Place(None),
            ScanStage::Heading(_, heading) | ScanStage::Settle(_, _, _, heading) => {
                ScanAnswer::Rotation(turn(v(*heading)))
            }
            ScanStage::Describe(_, _, points) => {
                ScanAnswer::Azimuths(points.iter().map(|p| d(v(p.y).atan2(v(p.x)))).collect())
            }
            ScanStage::Close(_, candidates, at, guess) => {
                ScanAnswer::Matched(compare(candidates[*at].keyframe_id, guess))
            }
            ScanStage::Optimize(_, own) => ScanAnswer::Graph(graph_answer(own)),
            ScanStage::Report(_, _, _, heading) => ScanAnswer::Angle(d(angle(*heading))),
        };
        match stage.resume(slam, &scan, answer) {
            ScanNext::Ask(next) => stage = next,
            ScanNext::Done(update) => return update,
        }
    }
}

fn transform(x: f64, y: f64, theta: f64) -> Transform2D {
    Transform2D::new(d(x), d(y), turn(theta))
}

fn make_room_scan(sensor_x: f32, sensor_y: f32) -> PointCloud {
    let mut points = Vec::new();
    let n_azimuth = 360;
    let elevations = [-0.15_f32, -0.05, 0.0, 0.05, 0.15];

    for i in 0..n_azimuth {
        let azimuth = (i as f32) * std::f32::consts::TAU / n_azimuth as f32;
        let dir_x = azimuth.cos();
        let dir_y = azimuth.sin();

        let range_x = if dir_x > 0.001 {
            (5.0 - sensor_x) / dir_x
        } else if dir_x < -0.001 {
            (-5.0 - sensor_x) / dir_x
        } else {
            f32::MAX
        };
        let range_y = if dir_y > 0.001 {
            (5.0 - sensor_y) / dir_y
        } else if dir_y < -0.001 {
            (-5.0 - sensor_y) / dir_y
        } else {
            f32::MAX
        };
        let range = range_x.min(range_y).max(0.1).min(50.0);

        for &elev in &elevations {
            let r_horiz = range * elev.cos();
            points.push(Point3D {
                x: s(r_horiz * dir_x),
                y: s(r_horiz * dir_y),
                z: s(range * elev.sin() + 0.5),
                reflectivity: 128,
                tag: 0,
            });
        }
    }

    PointCloud::new(points)
}

#[test]
fn test_slam_processor_creation() {
    let config = SlamConfig::default();
    let processor = SlamProcessor::new(config);
    assert_eq!(processor.keyframes.len(), 0);
    assert_eq!(processor.edges.len(), 0);
}

#[test]
fn test_odometry_update() {
    let config = SlamConfig::default();
    let mut processor = SlamProcessor::new(config);

    update_odometry(&mut processor, 1.0, 0.5, 0.1);

    let pose = pose(&processor);
    assert!((pose.0 - 1.0).abs() < 0.01);
    assert!((pose.1 - 0.5).abs() < 0.01);
}

#[test]
fn test_keyframe_insertion() {
    let mut config = SlamConfig::default();
    config.keyframe_distance = d(0.5);
    let mut processor = SlamProcessor::new(config);

    let scan1 = make_room_scan(0.0, 0.0);
    let result = process_scan(&mut processor, &scan1, 0);
    assert!(result.is_some());
    assert!(result.unwrap().keyframe_added);
    assert_eq!(processor.keyframes.len(), 1);

    update_odometry(&mut processor, 0.7, 0.0, 0.0);
    let scan2 = make_room_scan(0.7, 0.0);
    let result = process_scan(&mut processor, &scan2, 1);
    assert!(result.is_some());
    assert_eq!(processor.keyframes.len(), 2);
}

#[test]
fn test_loop_closure_optimization_uses_inserted_keyframe() {
    let config = SlamConfig {
        keyframe_distance: d(0.1),
        loop_closure_min_nodes: 2,
        loop_closure_threshold: d(0.0),
        loop_closure_search_radius: d(20.0),
        loop_closure_max_disagreement_sigma: d(f64::INFINITY),
        ..SlamConfig::default()
    };
    let mut processor = SlamProcessor::new(config);

    for x in [0.0, 0.5, 1.0, 0.0] {
        update_odometry(&mut processor, x, 0.0, 0.0);
        process_scan(&mut processor, &make_room_scan(x as f32, 0.0), 0);
    }

    assert!(processor.loop_closure_count() > 0);
    assert!(processor.edges().iter().all(|edge| {
        edge.from_id < processor.keyframe_count() && edge.to_id < processor.keyframe_count()
    }));
    for id in 1..processor.keyframe_count() {
        let links = |e: &PoseGraphEdge| !e.is_loop_closure && e.from_id == id - 1 && e.to_id == id;
        assert!(processor.edges().iter().any(links));
    }
    let closures = processor.edges().iter().filter(|e| e.is_loop_closure).count();
    assert_eq!(closures, processor.loop_closure_count());
}

fn pose_graph_error(processor: &SlamProcessor) -> f64 {
    processor
        .edges
        .iter()
        .map(|edge| {
            let predicted = processor.keyframes[edge.from_id]
                .pose
                .relative_to(&processor.keyframes[edge.to_id].pose);
            let diff = predicted.relative_to(&edge.measurement);
            from_vec3(&compute_edge_error(&diff, d(angle(diff.rotation())))).norm_squared()
        })
        .sum()
}

fn curved_loop() -> (SlamProcessor, Vec<Transform2D>) {
    let reference = vec![
        transform(0.0, 0.0, 0.0),
        transform(2.0, 0.0, 0.35),
        transform(3.5, 1.2, 0.9),
        transform(3.0, 3.0, 1.8),
        transform(1.1, 3.1, 2.7),
        transform(0.2, 0.3, -0.1),
    ];
    let mut processor = SlamProcessor::new(SlamConfig {
        huber_threshold: d(100.0),
        ..SlamConfig::default()
    });
    let scan = Arc::new(PointCloud::new(Vec::new()));

    for (id, pose) in reference.iter().enumerate() {
        let drift = transform(id as f64 * 0.12, id as f64 * -0.08, id as f64 * 0.04);
        processor.keyframes.push(Keyframe {
            id,
            pose: *pose * drift,
            scan: scan.clone(),
            timestamp: 0,
            descriptor: None,
        });
    }

    for id in 0..reference.len() - 1 {
        processor.edges.push(PoseGraphEdge {
            from_id: id,
            to_id: id + 1,
            measurement: reference[id].relative_to(&reference[id + 1]),
            information: mat3(&(Matrix3::identity() * 100.0)),
            is_loop_closure: false,
        });
    }
    processor.edges.push(PoseGraphEdge {
        from_id: 0,
        to_id: reference.len() - 1,
        measurement: reference[0].relative_to(&reference[reference.len() - 1]),
        information: mat3(&(Matrix3::identity() * 100.0)),
        is_loop_closure: true,
    });
    (processor, reference)
}

#[test]
fn test_pose_graph_optimization_converges_on_curved_loop() {
    let (mut processor, reference) = curved_loop();

    let error_before = pose_graph_error(&processor);
    let steps = optimize(&mut processor).unwrap();
    let error_after = pose_graph_error(&processor);
    let last = processor.keyframes.last().unwrap().pose;
    let end_error = last.relative_to(&reference[reference.len() - 1]);

    assert!(error_after < error_before * 1.0e-4);
    assert!(v(end_error.translation().norm()) < 1.0e-3);
    assert!(angle(end_error.rotation()).abs() < 1.0e-3);
    assert!(steps <= 3 * 10 + 2);
    assert_eq!(v(processor.ekf.state.x), v(last.shift.x));
    assert_eq!(v(processor.ekf.state.z), angle(last.rotation()));
}

#[test]
fn test_residual_delta_wraps_angle_boundary() {
    let epsilon = 1.0e-6;
    let delta = v(residual_delta(
        d(-std::f64::consts::PI + epsilon),
        d(std::f64::consts::PI - epsilon),
        2,
    ));
    assert!((delta - 2.0 * epsilon).abs() < 1.0e-12);
}

#[test]
fn test_huber_weight_regions() {
    let threshold = 1.0;
    let weight = |norm: f64| v(huber_weight(d(norm), d(threshold)));

    assert!((weight(0.0) - 1.0).abs() < 1e-10);
    assert!((weight(0.5) - 1.0).abs() < 1e-10);
    assert!((weight(1.0) - 1.0).abs() < 1e-10);

    assert!((weight(2.0) - 0.5).abs() < 1e-10);
    assert!((weight(4.0) - 0.25).abs() < 1e-10);
}

/// The linear system of the graph, in machine numbers.
fn system_by_machine(slam: &SlamProcessor, threshold: f64) -> (DMatrix<f64>, DVector<f64>) {
    let isometry = |tf: &Transform2D| {
        Isometry2::from_parts(
            Vector2::new(v(tf.shift.x), v(tf.shift.y)).into(),
            nalgebra::UnitComplex::from_cos_sin_unchecked(v(tf.turn.cos), v(tf.turn.sin)),
        )
    };
    let error = |i: &Isometry2<f64>, j: &Isometry2<f64>, m: &Isometry2<f64>| {
        let diff = (i.inverse() * j).inverse() * m;
        let angle = v(normalize_angle(d(diff.rotation.angle())));
        Vector3::new(diff.translation.x, diff.translation.y, angle)
    };
    let n = slam.keyframes.len() * 3;
    let mut h = DMatrix::zeros(n, n);
    let mut b = DVector::zeros(n);
    for edge in &slam.edges {
        let (i, j) = (edge.from_id * 3, edge.to_id * 3);
        let pi = isometry(&slam.keyframes[edge.from_id].pose);
        let pj = isometry(&slam.keyframes[edge.to_id].pose);
        let m = isometry(&edge.measurement);
        let e = error(&pi, &pj, &m);
        let mut j_i = Matrix3::zeros();
        let mut j_j = Matrix3::zeros();
        for axis in 0..3 {
            let mut delta = [0.0; 3];
            delta[axis] = 1.0e-6;
            let plus = Isometry2::new(Vector2::new(delta[0], delta[1]), delta[2]);
            delta[axis] = -1.0e-6;
            let minus = Isometry2::new(Vector2::new(delta[0], delta[1]), delta[2]);
            let ends = [
                (error(&(pi * plus), &pj, &m), error(&(pi * minus), &pj, &m)),
                (error(&pi, &(pj * plus), &m), error(&pi, &(pj * minus), &m)),
            ];
            for row in 0..3 {
                let slope = |end: &(Vector3<f64>, Vector3<f64>)| {
                    v(residual_delta(d(end.0[row]), d(end.1[row]), row)) / (2.0 * 1.0e-6)
                };
                j_i[(row, axis)] = slope(&ends[0]);
                j_j[(row, axis)] = slope(&ends[1]);
            }
        }
        let information = from_mat3(&edge.information);
        let omega = if edge.is_loop_closure {
            let norm = e.norm();
            information * if norm <= threshold { 1.0 } else { threshold / norm }
        } else {
            information
        };
        let h_ii = j_i.transpose() * omega * j_i;
        let h_ij = j_i.transpose() * omega * j_j;
        let h_jj = j_j.transpose() * omega * j_j;
        let b_i = j_i.transpose() * omega * e;
        let b_j = j_j.transpose() * omega * e;
        for r in 0..3 {
            for c in 0..3 {
                h[(i + r, i + c)] += h_ii[(r, c)];
                h[(i + r, j + c)] += h_ij[(r, c)];
                h[(j + c, i + r)] += h_ij[(r, c)];
                h[(j + r, j + c)] += h_jj[(r, c)];
            }
            b[i + r] += b_i[r];
            b[j + r] += b_j[r];
        }
    }
    (h, b)
}

#[test]
fn the_linear_system_agrees_with_nalgebra() {
    let (mut slam, _) = curved_loop();
    slam.config.huber_threshold = d(0.25);
    let system = slam.build_linear_system(&nudges(), &probe_angles(&slam));
    let (h, b) = system_by_machine(&slam, 0.25);
    for i in 0..6 {
        for j in 0..6 {
            let block = from_mat3(&system.get(i, j));
            assert_eq!(block, h.fixed_view::<3, 3>(3 * i, 3 * j).into_owned(), "{i} {j}");
            if i != j {
                assert_eq!(block, from_mat3(&system.get(j, i)).transpose());
            }
        }
        assert_eq!(from_vec3(&system.b[i]), b.fixed_rows::<3>(3 * i).into_owned());
    }
    assert_eq!(from_mat3(&system.get(1, 4)), Matrix3::zeros());
    let right = system.right_hand_side();
    let damped = system.damped();
    let mut expected = h.clone();
    for i in 0..18 {
        expected[(i, i)] += 1e-3;
    }
    for i in 0..3 {
        expected[(i, i)] += 1e10;
    }
    for i in 0..6 {
        for j in 0..6 {
            let block = expected.fixed_view::<3, 3>(3 * i, 3 * j).into_owned();
            assert_eq!(from_mat3(&damped.get(i, j)), block);
        }
        assert_eq!(from_vec3(&right[i]), -b.fixed_rows::<3>(3 * i).into_owned());
    }
}

#[test]
fn an_unsolvable_system_ends_the_optimization() {
    let (mut slam, _) = curved_loop();
    let before = (v(slam.keyframes[3].pose.shift.x), v(slam.ekf.state.x));
    let mut next = slam.optimize();
    let error = loop {
        let GraphNext::Ask(stage) = next else { panic!("no end was expected") };
        let answer = match &stage {
            GraphStage::Solve(_, _, _, _) => GraphAnswer::Solution(None),
            _ => graph_answer(&stage),
        };
        match stage.resume(&mut slam, answer) {
            Ok(more) => next = more,
            Err(e) => break e,
        }
    };
    assert_eq!(error.message(), "Graph optimization failed: LU decomposition failed");
    assert_eq!((v(slam.keyframes[3].pose.shift.x), v(slam.ekf.state.x)), before);
}

#[test]
fn optimization_takes_ten_steps_at_most() {
    let (mut slam, _) = curved_loop();
    let first = v(slam.keyframes[0].pose.shift.x);
    let mut next = slam.optimize();
    let (mut steps, mut answers) = (0, 0);
    while let GraphNext::Ask(stage) = next {
        let answer = match &stage {
            GraphStage::Solve(_, _, _, _) => GraphAnswer::Solution(Some(GraphStep {
                dx: vec![Vec3::new(d(1.0), d(0.0), d(0.0)); 6],
            })),
            _ => graph_answer(&stage),
        };
        steps += usize::from(matches!(stage, GraphStage::Turn(_, _, _)));
        answers += 1;
        next = stage.resume(&mut slam, answer).unwrap();
    }
    assert_eq!((steps, answers), (10, 32));
    assert_eq!(v(slam.keyframes[0].pose.shift.x), first + 10.0);
}

#[test]
fn a_small_step_is_not_taken() {
    let (mut slam, _) = curved_loop();
    let before = v(slam.keyframes[2].pose.shift.x);
    let mut next = slam.optimize();
    while let GraphNext::Ask(stage) = next {
        let answer = match &stage {
            GraphStage::Solve(_, _, _, _) => GraphAnswer::Solution(Some(GraphStep {
                dx: vec![Vec3::new(d(4e-5), d(0.0), d(0.0)); 6],
            })),
            _ => graph_answer(&stage),
        };
        assert!(!matches!(stage, GraphStage::Turn(_, _, _)));
        next = stage.resume(&mut slam, answer).unwrap();
    }
    assert_eq!(v(slam.keyframes[2].pose.shift.x), before);
    assert_eq!(v(slam.ekf.state.x), v(slam.keyframes[5].pose.shift.x));
    assert!(matches!(SlamProcessor::new(SlamConfig::default()).optimize(), GraphNext::Done));
}

#[test]
fn the_filter_agrees_with_nalgebra() {
    let config = SlamConfig::default();
    let mut ekf = PoseEkf::new(&config);
    let mut state: Vector3<f64> = Vector3::zeros();
    let mut cov = Matrix3::from_diagonal(&Vector3::new(1e-4, 1e-4, 1e-4));
    let wrap = |x: f64| v(normalize_angle(d(x)));
    for n in 0..40 {
        let (dx, dy) = (0.1 + 0.01 * n as f64, -0.02 * (n % 3) as f64);
        let dt = 0.3 - 0.05 * (n % 7) as f64;
        let heading = turn(v(ekf.state.z));
        ekf.predict(BodyMotion { dx: d(dx), dy: d(dy), dtheta: d(dt), heading });
        let (sin_t, cos_t) = (state[2].sin(), state[2].cos());
        state[0] += cos_t * dx - sin_t * dy;
        state[1] += sin_t * dx + cos_t * dy;
        state[2] = wrap(state[2] + dt);
        let (f_x, f_y) = (-sin_t * dx - cos_t * dy, cos_t * dx - sin_t * dy);
        let f = Matrix3::new(1.0, 0.0, f_x, 0.0, 1.0, f_y, 0.0, 0.0, 1.0);
        let dist = (dx * dx + dy * dy).sqrt();
        let rot = dt.abs();
        let q_x = 0.05 * dist + 0.01 * rot;
        let q_t = 0.05 * rot + 0.02 * dist;
        let (along, around) = ((q_x * q_x).max(1e-8), (q_t * q_t).max(1e-8));
        let q = Matrix3::from_diagonal(&Vector3::new(along, along, around));
        cov = f * cov * f.transpose() + q;
        assert_eq!(from_vec3(&ekf.state), state);
        assert_eq!(from_mat3(&ekf.covariance()), cov);

        if n % 4 == 3 {
            let z = Vector3::new(state[0] + 0.03, state[1] - 0.01, state[2] + 6.0);
            let r = Matrix3::new(2e-3, 1e-4, 0.0, 1e-4, 1e-3, 2e-5, 0.0, 2e-5, 5e-4);
            ekf.update(vec3(&z), mat3(&r));
            let mut innovation = z - state;
            innovation[2] = wrap(innovation[2]);
            let k = cov * (cov + r).try_inverse().unwrap();
            state += k * innovation;
            state[2] = wrap(state[2]);
            let i_kh = Matrix3::identity() - k;
            cov = i_kh * cov * i_kh.transpose() + k * r * k.transpose();
            assert_eq!(from_vec3(&ekf.state), state);
            assert_eq!(from_mat3(&ekf.covariance()), cov);
        }
        assert!((-std::f64::consts::PI..std::f64::consts::PI).contains(&state[2]));
    }
}

#[test]
fn a_singular_measurement_is_skipped() {
    let mut ekf = PoseEkf::new(&SlamConfig::default());
    let less = mat3(&(Matrix3::identity() * -1e-4));
    ekf.update(Vec3::new(d(1.0), d(2.0), d(0.5)), less);
    assert_eq!(from_vec3(&ekf.state), Vector3::zeros());
    assert_eq!(from_mat3(&ekf.covariance()), Matrix3::identity() * 1e-4);
}

#[test]
fn standing_still_keeps_the_pose_and_adds_the_least_noise() {
    let mut ekf = PoseEkf::new(&SlamConfig::default());
    ekf.reset_pose(&transform(3.0, -1.0, 0.8), d(0.8));
    let before = from_mat3(&ekf.covariance());
    ekf.predict(BodyMotion { dx: d(0.0), dy: d(0.0), dtheta: d(0.0), heading: turn(0.8) });
    assert_eq!(from_vec3(&ekf.state), Vector3::new(3.0, -1.0, 0.8));
    let grown = from_mat3(&ekf.covariance());
    for i in 0..3 {
        assert_eq!(grown[(i, i)], before[(i, i)] + 1e-8);
    }
}

#[test]
fn a_resting_robot_leaves_the_map_alone() {
    let mut slam = SlamProcessor::new(SlamConfig::default());
    let scan = make_room_scan(0.0, 0.0);
    assert!(process_scan(&mut slam, &scan, 0).unwrap().keyframe_added);
    update_odometry(&mut slam, 0.01, 0.0, 0.0);
    let before = pose(&slam);
    assert!(process_scan(&mut slam, &scan, 1).is_none());
    assert_eq!(slam.keyframe_count(), 1);
    assert_eq!(slam.consecutive_match_failures, 0);
    assert_eq!(pose(&slam), before);
}

#[test]
fn the_gyro_gives_the_guess_its_heading() {
    let mut slam = SlamProcessor::new(SlamConfig::default());
    let descriptor = describe(&slam, &PointCloud::empty());
    slam.add_keyframe(Arc::new(PointCloud::empty()), descriptor, turn(0.0), 0);
    slam.settle_keyframe();
    update_odometry(&mut slam, 1.0, 0.0, 0.1);
    slam.set_imu_delta(Some(PreintegratedDelta {
        delta_yaw: d(0.25),
        yaw_variance: d(0.1),
        sample_count: 3,
    }));
    let work = slam.process_scan(d(0.1));
    assert!(work.has_moved);
    assert_eq!(work.reference, Some(0));
    assert!(slam.pending_imu_delta.is_none());
    let guess = slam.match_guess(&work, heading(&slam), turn(0.25)).unwrap();
    assert!((angle(guess.rotation()) - 0.25).abs() < 1e-12);
    assert!((v(guess.shift.x) - 1.0).abs() < 1e-12);
}

#[test]
fn a_lost_robot_is_looked_for_every_two_seconds() {
    let mut slam = SlamProcessor::new(SlamConfig::default());
    for _ in 0..2 {
        let descriptor = describe(&slam, &PointCloud::empty());
        slam.add_keyframe(Arc::new(PointCloud::empty()), descriptor, turn(0.0), 0);
    }
    slam.settle_keyframe();
    update_odometry(&mut slam, 1.0, 0.0, 0.0);
    let begun = slam.process_scan(d(0.0));
    let mut work = begun;
    for n in 0..10u32 {
        assert_eq!(slam.consecutive_match_failures, n);
        assert!(!slam.try_relocalization(&work, 5));
        work = slam.absorb_match(begun, None, d(0.0));
        assert!(!work.matched);
    }
    assert!(slam.try_relocalization(&work, 1_000));
    assert!(!slam.try_relocalization(&work, 2_000_000_999));
    assert!(slam.try_relocalization(&work, 2_000_001_000));
    slam.relocalized(0, transform(4.0, 5.0, 0.5), d(0.5));
    assert_eq!(slam.consecutive_match_failures, 0);
    assert_eq!(slam.reference_keyframe_idx, Some(0));
    assert_eq!(from_vec3(&slam.ekf.state), Vector3::new(4.0, 5.0, 0.5));
    assert_eq!(v(slam.last_keyframe_pose.shift.y), 5.0);
}

/// Runs a scan that matches nothing; the robot is found at a place, if any.
fn process_lost(slam: &mut SlamProcessor, now: u64, place: Option<(usize, Transform2D)>) -> bool {
    let scan = Arc::new(PointCloud::empty());
    let mut searched = false;
    let mut stage = slam.first_stage();
    loop {
        let answer = match &stage {
            ScanStage::Odometry(tf) | ScanStage::Motion(_, _, tf) | ScanStage::Found(_, _, tf) => {
                ScanAnswer::Angle(d(angle(tf.rotation())))
            }
            ScanStage::Guess(_, heading, yaw) => {
                ScanAnswer::Rotations(turn(v(*heading)), turn(v(*yaw)))
            }
            ScanStage::Match(_, _, _) => ScanAnswer::Matched(None),
            ScanStage::Clock(_) => ScanAnswer::Time(now),
            ScanStage::Search(_) => {
                searched = true;
                ScanAnswer::Place(place)
            }
            ScanStage::Heading(_, heading) | ScanStage::Settle(_, _, _, heading) => {
                ScanAnswer::Rotation(turn(v(*heading)))
            }
            ScanStage::Report(_, added, closed, heading) => {
                assert!(!added && !closed);
                ScanAnswer::Angle(d(angle(*heading)))
            }
            _ => panic!("not expected of a failed match"),
        };
        match stage.resume(slam, &scan, answer) {
            ScanNext::Ask(next) => stage = next,
            ScanNext::Done(update) => {
                assert!(update.is_none());
                return searched;
            }
        }
    }
}

#[test]
fn a_lost_robot_is_found_again() {
    let mut slam = SlamProcessor::new(SlamConfig::default());
    for _ in 0..2 {
        let descriptor = describe(&slam, &PointCloud::empty());
        slam.add_keyframe(Arc::new(PointCloud::empty()), descriptor, turn(0.0), 0);
    }
    slam.settle_keyframe();
    for n in 1..10u32 {
        update_odometry(&mut slam, n as f64, 0.0, 0.0);
        assert!(!process_lost(&mut slam, n as u64, None));
        assert_eq!(slam.consecutive_match_failures, n);
    }
    update_odometry(&mut slam, 10.0, 0.0, 0.0);
    assert!(process_lost(&mut slam, 100, None));
    assert_eq!(slam.last_relocalization_attempt, Some(100));
    update_odometry(&mut slam, 11.0, 0.0, 0.0);
    assert!(!process_lost(&mut slam, 200, None));
    update_odometry(&mut slam, 12.0, 0.0, 0.0);
    assert!(process_lost(&mut slam, 2_000_000_100, Some((0, transform(3.0, 4.0, 0.5)))));
    assert_eq!(slam.consecutive_match_failures, 0);
    assert_eq!(slam.reference_keyframe_idx, Some(0));
    assert_eq!(v(slam.ekf.state.y), 4.0);
    assert_eq!(slam.keyframe_count(), 2);
}

#[test]
fn only_good_matches_correct_the_filter() {
    let mut slam = SlamProcessor::new(SlamConfig::default());
    let descriptor = describe(&slam, &PointCloud::empty());
    slam.add_keyframe(Arc::new(PointCloud::empty()), descriptor, turn(0.0), 0);
    update_odometry(&mut slam, 1.0, 0.0, 0.0);
    let work = slam.process_scan(d(0.0));
    let result = |score: f64| ScanMatchResult {
        transform: transform(0.9, 0.1, 0.0),
        score: d(score),
        covariance: mat3(&(Matrix3::identity() * 1e-3)),
    };
    let poor = slam.absorb_match(work, Some(result(0.5)), d(0.0));
    assert!(!poor.matched);
    assert_eq!(v(poor.score), 0.5);
    assert_eq!(slam.consecutive_match_failures, 1);
    assert_eq!(v(slam.ekf.state.x), 1.0);
    let good = slam.absorb_match(work, Some(result(0.51)), d(0.0));
    assert!(good.matched);
    assert_eq!(slam.consecutive_match_failures, 0);
    assert!(v(slam.ekf.state.x) < 1.0 && v(slam.ekf.state.x) > 0.9);
    let at = heading(&slam);
    let update = slam.finish_scan(&good, false, false, at, d(angle(at))).unwrap();
    assert_eq!(v(update.match_score), 0.51);
    assert_eq!(update.keyframe_count, 1);
    assert_eq!(v(update.odom_correction.shift.x), v(slam.odom_correction().shift.x));
    let world = slam.last_odom_pose.compose(&slam.odom_correction());
    assert!((v(world.shift.x) - v(update.world_pose.x)).abs() < 1e-12);
    assert!((angle(world.rotation()) - v(update.world_pose.theta)).abs() < 1e-12);
    assert!(slam.finish_scan(&poor, false, false, at, d(angle(at))).is_none());
}

#[test]
fn closures_must_be_far_back_near_by_and_agree_with_odometry() {
    let config = SlamConfig { loop_closure_min_nodes: 2, ..SlamConfig::default() };
    let mut slam = SlamProcessor::new(config);
    for x in [0.0, 1.0, 2.0, 1.0, 0.25] {
        update_odometry(&mut slam, x, 0.0, 0.0);
        let descriptor = describe(&slam, &PointCloud::empty());
        slam.add_keyframe(Arc::new(PointCloud::empty()), descriptor, heading(&slam), 0);
    }
    assert!(slam.wants_closure());
    assert!(slam.is_closable(0) && slam.is_closable(1));
    assert!(!slam.is_closable(2) && !slam.is_closable(4) && !slam.is_closable(9));
    assert_eq!(v(slam.accumulated_odom_distance(0, 4)), 3.75);
    assert_eq!(v(slam.accumulated_odom_distance(4, 0)), 3.75);
    assert_eq!(v(slam.accumulated_odom_distance(1, 2)), 1.0);
    assert_eq!(v(slam.closure_guess(0).shift.x), 0.25);

    let result = |score: f64, variance: f64| ScanMatchResult {
        transform: transform(0.25, 0.0, 0.0),
        score: d(score),
        covariance: mat3(&(Matrix3::identity() * variance)),
    };
    assert!(slam.judge_closure(0, &result(0.69, 10.0)).is_none());
    assert!(slam.judge_closure(0, &result(0.7, 0.5)).is_none());
    let edge = slam.judge_closure(0, &result(0.7, 2.0)).unwrap();
    assert_eq!((edge.from_id, edge.to_id, edge.is_loop_closure), (0, 4, true));
    assert_eq!(from_mat3(&edge.information), Matrix3::identity() * 0.5);
    let certain = slam.judge_closure(0, &result(0.75, 0.0)).unwrap();
    assert_eq!(from_mat3(&certain.information), Matrix3::identity() * (0.75 * 0.75 * 1000.0));
    assert_eq!(from_mat3(&compute_information(&result(0.5, 4.0))), Matrix3::identity() * 0.25);
    slam.close_loop(edge);
    assert_eq!(slam.loop_closure_count(), 1);
    assert_eq!(v(slam.accumulated_odom_distance(0, 4)), 3.75);

    slam.config.loop_closure_search_radius = d(0.5);
    assert!(slam.is_closable(0) && !slam.is_closable(1));
}

#[test]
fn keyframes_are_linked_and_reported() {
    let mut slam = SlamProcessor::new(SlamConfig::default());
    for n in 0..3 {
        update_odometry(&mut slam, n as f64, 0.5 * n as f64, 0.25 * n as f64);
        let descriptor = describe(&slam, &make_room_scan(0.0, 0.0));
        slam.add_keyframe(Arc::new(PointCloud::empty()), descriptor, heading(&slam), 7 * n);
    }
    slam.settle_keyframe();
    assert_eq!(slam.reference_keyframe_idx, Some(2));
    assert_eq!(slam.keyframe_count(), 3);
    assert_eq!(slam.keyframes()[2].timestamp, 14);
    assert_eq!(slam.scan_context_db().len(), 3);
    assert_eq!(slam.edges().len(), 2);
    assert_eq!((slam.edges()[1].from_id, slam.edges()[1].to_id), (1, 2));
    assert_eq!(from_mat3(&slam.edges()[0].information), Matrix3::identity() * 100.0);
    let angles: Vec<F64> = slam.keyframes().iter().map(|k| d(angle(k.pose.rotation()))).collect();
    let poses = slam.keyframe_poses(&angles);
    assert!((v(poses[2].0) - 2.0).abs() < 1e-12);
    assert!((v(poses[2].2) - 0.5).abs() < 1e-12);
    let covariance = slam.pose_covariance_array();
    let m = from_mat3(&slam.ekf.covariance());
    for i in 0..3 {
        for j in 0..3 {
            assert_eq!(v(covariance[i][j]), m[(i, j)]);
        }
    }
}

#[test]
fn the_map_keeps_its_shape_and_its_counts() {
    let mut slam = SlamProcessor::new(SlamConfig {
        keyframe_distance: d(0.1),
        loop_closure_min_nodes: 2,
        loop_closure_threshold: d(0.0),
        loop_closure_search_radius: d(20.0),
        loop_closure_max_disagreement_sigma: d(f64::INFINITY),
        ..SlamConfig::default()
    });
    for (n, x) in [0.0, 0.5, 0.5, 1.0, 0.0].into_iter().enumerate() {
        update_odometry(&mut slam, x, 0.0, 0.0);
        let before = (slam.keyframe_count(), slam.loop_closure_count());
        let update = process_scan(&mut slam, &make_room_scan(x as f32, 0.0), n as u64);
        let (added, closed) = match &update {
            Some(u) => (u.keyframe_added, u.loop_closure_detected),
            None => (false, false),
        };
        assert_eq!(slam.keyframe_count(), before.0 + usize::from(added));
        assert_eq!(slam.loop_closure_count(), before.1 + usize::from(closed));
        assert!(added || !closed);
        assert!(!closed || before.0 > 2);
        assert_eq!(added, n != 2);
        let steps = slam.edges().iter().filter(|e| !e.is_loop_closure);
        for (i, e) in steps.enumerate() {
            assert_eq!((e.from_id, e.to_id), (i, i + 1));
        }
        assert_eq!(slam.edges().len() + 1, slam.keyframe_count() + slam.loop_closure_count());
        assert_eq!(slam.scan_context_db().len(), slam.keyframe_count());
        for (i, entry) in slam.scan_context_db().entries().iter().enumerate() {
            assert_eq!((entry.0, slam.keyframes()[i].id), (i, i));
        }
        for e in slam.edges().iter().filter(|e| e.is_loop_closure) {
            assert!(e.from_id < e.to_id && e.to_id < slam.keyframe_count());
        }
    }
    assert!(slam.loop_closure_count() > 0);
}

#[test]
fn what_the_gyro_saw_serves_one_scan() {
    let mut slam = SlamProcessor::new(SlamConfig::default());
    slam.set_imu_delta(Some(PreintegratedDelta {
        delta_yaw: d(0.25),
        yaw_variance: d(0.1),
        sample_count: 3,
    }));
    let scan = make_room_scan(0.0, 0.0);
    process_scan(&mut slam, &scan, 0);
    assert!(slam.pending_imu_delta.is_none());
    process_scan(&mut slam, &scan, 1);
    assert!(slam.pending_imu_delta.is_none());
    let work = slam.process_scan(d(0.0));
    assert!(work.imu_delta.is_none());
}

#[test]
fn full_counters_stop_only_what_raises_them() {
    let mut slam = SlamProcessor::new(SlamConfig::default());
    let scan = make_room_scan(0.0, 0.0);
    process_scan(&mut slam, &scan, 0);
    slam.consecutive_match_failures = u32::MAX;
    slam.last_relocalization_attempt = Some(1);
    slam.set_imu_delta(None);
    assert!(process_scan(&mut slam, &scan, 2).is_none());
    assert_eq!(slam.consecutive_match_failures, u32::MAX);
}

fn agreeing_loop() -> SlamProcessor {
    let (mut slam, _) = curved_loop();
    for k in slam.keyframes.iter_mut() {
        let quarter = [turn(0.0), Rotation2 { cos: d(0.0), sin: d(1.0) }][k.id % 2];
        k.pose = Transform2D::new(d(k.id as f64), d(0.5 * k.id as f64), quarter);
    }
    for e in slam.edges.iter_mut() {
        e.measurement =
            slam.keyframes[e.from_id].pose.relative_to(&slam.keyframes[e.to_id].pose);
    }
    slam
}

#[test]
fn an_agreeing_graph_stays_as_it_is() {
    let mut slam = agreeing_loop();
    let bits = |slam: &SlamProcessor| -> Vec<(u64, u64, u64, u64)> {
        let of = |t: &Transform2D| {
            (t.shift.x.to_bits(), t.shift.y.to_bits(), t.turn.cos.to_bits(), t.turn.sin.to_bits())
        };
        slam.keyframes().iter().map(|k| of(&k.pose)).collect()
    };
    let before = bits(&slam);
    let mut next = slam.optimize();
    let mut asked = false;
    while let GraphNext::Ask(stage) = next {
        if let GraphStage::Solve(_, _, _, right) = &stage {
            asked = true;
            for r in right {
                assert_eq!(from_vec3(r), Vector3::zeros());
            }
        }
        assert!(!matches!(stage, GraphStage::Turn(_, _, _)));
        let answer = graph_answer(&stage);
        next = stage.resume(&mut slam, answer).unwrap();
    }
    assert!(asked);
    assert_eq!(bits(&slam), before);
    let state = from_vec3(&slam.ekf.state);
    assert_eq!(state, Vector3::new(5.0, 2.5, std::f64::consts::FRAC_PI_2));
    optimize(&mut slam).unwrap();
    assert_eq!(bits(&slam), before);
    assert_eq!(from_vec3(&slam.ekf.state), state);
}

#[test]
fn a_graph_that_agrees_up_to_rounding_stays_as_it_is() {
    let (mut slam, reference) = curved_loop();
    for (k, pose) in slam.keyframes.iter_mut().zip(&reference) {
        k.pose = *pose;
    }
    for e in slam.edges.iter_mut() {
        let x = v(e.measurement.shift.x);
        e.measurement.shift.x = d(x + 4.0 * f64::EPSILON);
    }
    let bits = |slam: &SlamProcessor| -> Vec<(u64, u64)> {
        slam.keyframes().iter().map(|k| (k.pose.shift.x.to_bits(), k.pose.turn.sin.to_bits()))
            .collect()
    };
    let before = bits(&slam);
    let mut next = slam.optimize();
    let mut largest = 0.0f64;
    while let GraphNext::Ask(stage) = next {
        if let GraphStage::Solve(_, _, _, right) = &stage {
            largest = right.iter().map(|r| from_vec3(r).amax()).fold(largest, f64::max);
        }
        assert!(!matches!(stage, GraphStage::Turn(_, _, _)));
        let answer = graph_answer(&stage);
        next = stage.resume(&mut slam, answer).unwrap();
    }
    assert!(largest > 0.0 && largest < 1e-11);
    assert_eq!(bits(&slam), before);
    assert_eq!(v(slam.ekf.state.x), v(reference[5].shift.x));
}

#[test]
fn step_lengths_agree_with_nalgebra() {
    for n in 1..=14 {
        let x = DVector::from_fn(3 * n, |i, _| (1.7 * i as f64 + 0.3).sin() / (i + 1) as f64);
        let dx: Vec<Vec3> =
            (0..n).map(|i| Vec3::new(d(x[3 * i]), d(x[3 * i + 1]), d(x[3 * i + 2]))).collect();
        let step = GraphStep { dx };
        assert_eq!(v(step.norm()), x.norm());
        assert!(!step.is_small());
    }
    let still = GraphStep { dx: vec![Vec3::zeros(); 9] };
    assert_eq!(v(still.norm()), 0.0);
    assert!(still.is_small());
    assert!(GraphStep { dx: vec![Vec3::new(d(9.9e-5), d(0.0), d(0.0))] }.is_small());
    assert!(!GraphStep { dx: vec![Vec3::new(d(7e-5), d(0.0), d(-8e-5))] }.is_small());
}

#[test]
fn odometry_telescopes_to_the_last_pose() {
    let mut slam = SlamProcessor::new(SlamConfig::default());
    let before = slam.odom_correction();
    for n in 1..=400 {
        let t = 0.02 * n as f64;
        update_odometry(&mut slam, 3.0 * t.sin(), 2.0 * t.cos() - 2.0, 2.0 * t);
    }
    let t = 0.02 * 400.0f64;
    let place = pose(&slam);
    assert!((place.0 - 3.0 * t.sin()).abs() < 1e-11);
    assert!((place.1 - (2.0 * t.cos() - 2.0)).abs() < 1e-11);
    assert!(v(normalize_angle(d(place.2 - 2.0 * t))).abs() < 1e-11);
    assert_eq!(slam.keyframe_count() + slam.edges().len() + slam.loop_closure_count(), 0);
    assert_eq!(slam.scan_context_db().len(), 0);
    assert_eq!(slam.odom_correction().shift.x.to_bits(), before.shift.x.to_bits());
}

#[test]
fn corrected_odometry_is_the_estimate() {
    let mut slam = SlamProcessor::new(SlamConfig::default());
    update_odometry(&mut slam, 2.0, -1.0, 0.4);
    slam.ekf.state = Vec3::new(d(5.0), d(3.0), d(-1.25));
    let update = process_scan(&mut slam, &make_room_scan(0.0, 0.0), 0).unwrap();
    let place = slam.last_odom_pose.compose(&slam.odom_correction());
    assert!((v(place.shift.x) - 5.0).abs() < 1e-12);
    assert!((v(place.shift.y) - 3.0).abs() < 1e-12);
    assert!((angle(place.rotation()) + 1.25).abs() < 1e-12);
    assert_eq!(update.odom_correction.shift.x.to_bits(), slam.odom_correction().shift.x.to_bits());
    assert!((v(update.odom_correction.shift.x)).abs() > 1.0);
}

#[test]
fn descriptors_leave_out_near_and_far_points() {
    let at = |x: f32| Point3D { x: s(x), y: s(0.0), z: s(0.0), reflectivity: 0, tag: 0 };
    let ranges = [0.05, 1.0, 50.0, 49.0, f32::INFINITY, f32::NAN];
    let scan = PointCloud::new(ranges.iter().map(|x| at(*x)).collect());
    let kept: Vec<f64> = descriptor_points(&scan).iter().map(|p| v(p.x)).collect();
    assert_eq!(kept, vec![1.0, 49.0]);
}

#[test]
fn the_defaults_of_the_processor() {
    let config = SlamConfig::default();
    let expected = [
        (config.voxel_size, 0.2),
        (config.convergence_threshold, 1e-4),
        (config.max_correspondence_dist, 1.0),
        (config.min_overlap, 0.3),
        (config.keyframe_distance, 1.0),
        (config.keyframe_rotation, 0.5),
        (config.loop_closure_threshold, 0.7),
        (config.loop_closure_search_radius, 5.0),
        (config.huber_threshold, 1.0),
        (config.loop_closure_max_disagreement_sigma, 3.0),
        (config.min_scan_match_distance, 0.05),
        (config.min_scan_match_rotation, 0.05),
        (config.odom_linear_noise, 0.05),
        (config.odom_angular_noise, 0.05),
        (config.odom_linear_to_angular_noise, 0.02),
        (config.odom_angular_to_linear_noise, 0.01),
    ];
    for (ours, theirs) in expected {
        assert_eq!(v(ours), theirs);
    }
    assert_eq!((config.max_iterations, config.loop_closure_min_nodes), (30, 10));

    let slam = SlamProcessor::new(config);
    assert_eq!(slam.reloc_scan_matcher.config.max_iterations, 50);
    assert_eq!(v(slam.reloc_scan_matcher.config.max_correspondence_dist), 5.0);
    assert_eq!(v(slam.reloc_scan_matcher.config.min_overlap), 0.1);
    assert_eq!(v(slam.scan_matcher.config.resolution), 0.2);
    assert_eq!(v(slam.scan_matcher.config.angular_range), 0.26);

    let state = SlamState::default();
    assert_eq!((state.keyframe_count, state.loop_closure_count), (0, 0));
    assert!(state.keyframe_poses.is_empty());
    for i in 0..3 {
        for j in 0..3 {
            assert_eq!(v(state.pose_covariance[i][j]), if i == j { 1e-4 } else { 0.0 });
        }
    }
    assert_eq!(v(state.match_score), 0.0);
}

#[test]
fn errors_say_what_went_wrong() {
    assert_eq!(SlamError::NotEnoughKeyframes.message(), "Not enough keyframes for loop closure");
    let unmatched = SlamError::ScanMatchFailed("why".to_string());
    assert_eq!(unmatched.message(), "Scan matching failed: why");
    let bent = SlamError::OptimizationFailed("how".to_string());
    assert_eq!(bent.message(), "Graph optimization failed: how");
}

#[test]
fn point_clouds_count_their_points() {
    let point = Point3D::default();
    let cloud = PointCloud::new(vec![point, point]);
    assert_eq!((cloud.len(), cloud.is_empty(), cloud.frame_id), (2, false, 0));
    assert!(PointCloud::empty().is_empty());
    assert!(PointCloud::default().is_empty());
    assert_eq!(cloud.clone().len(), 2);
    assert_eq!(w(point.x), 0.0);
}
