use slamwich::float::double::F64;
use slamwich::float::single::F32;
use slamwich::linear::Vec3;
use slamwich::ordering::stable_order;
use slamwich::scan_context::{ScanContextConfig, ScanContextDatabase, ScanContextDescriptor};

fn d(x: f64) -> F64 {
    F64::from_bits(x.to_bits())
}

fn v(x: F64) -> f64 {
    f64::from_bits(x.to_bits())
}

fn s(x: f32) -> F32 {
    F32::from_bits(x.to_bits())
}

fn w(x: F32) -> f32 {
    f32::from_bits(x.to_bits())
}

fn make_synthetic_cloud(num_points: usize, z_offset: f64) -> Vec<Vec3> {
    let mut points = Vec::with_capacity(num_points);
    let angle_step = std::f64::consts::TAU / num_points as f64;
    for i in 0..num_points {
        let angle = i as f64 * angle_step;
        let range = 5.0 + 2.0 * (angle * 3.0).sin();
        points.push(Vec3::new(
            d(range * angle.cos()),
            d(range * angle.sin()),
            d(1.0 + z_offset + 0.5 * (angle * 2.0).cos()),
        ));
    }
    points
}

fn describe(points: &Vec<Vec3>, config: &ScanContextConfig) -> ScanContextDescriptor {
    let azimuths: Vec<F64> = points.iter().map(|p| d(v(p.y).atan2(v(p.x)))).collect();
    ScanContextDescriptor::from_points(points, &azimuths, config)
}

#[test]
fn test_descriptor_from_points() {
    let config = ScanContextConfig::default();
    let cloud = make_synthetic_cloud(1000, 0.0);
    let desc = describe(&cloud, &config);

    assert_eq!(desc.ring_key.len(), config.num_rings);
    assert_eq!(desc.sector_key.len(), config.num_sectors);
    assert_eq!(desc.matrix.len(), config.num_rings * config.num_sectors);
}

#[test]
fn test_self_distance_is_zero() {
    let config = ScanContextConfig::default();
    let cloud = make_synthetic_cloud(1000, 0.0);
    let desc = describe(&cloud, &config);

    let (dist, shift) = desc.distance(&desc);
    assert!(w(dist) < 1e-5, "Self-distance should be ~0, got {}", w(dist));
    assert_eq!(shift, 0);
}

#[test]
fn test_empty_cloud() {
    let config = ScanContextConfig::default();
    let desc = describe(&Vec::new(), &config);
    assert!(desc.ring_key.iter().all(|x| w(*x) == 0.0));
    assert!(desc.sector_key.iter().all(|x| w(*x) == 0.0));
}

/// The descriptor's tables, in machine numbers.
fn tables_by_machine(
    points: &[Vec3],
    nr: usize,
    ns: usize,
    max_range: f64,
) -> (Vec<f32>, Vec<f32>, Vec<f32>) {
    let mut matrix = vec![f32::NEG_INFINITY; nr * ns];
    for p in points {
        let (x, y, z) = (v(p.x), v(p.y), v(p.z));
        let range = (x * x + y * y).sqrt();
        if range < 0.1 || range > max_range {
            continue;
        }
        let azimuth = y.atan2(x);
        let azimuth = if azimuth < 0.0 { azimuth + std::f64::consts::TAU } else { azimuth };
        let ring = ((range / (max_range / nr as f64)) as usize).min(nr - 1);
        let sector = ((azimuth / (std::f64::consts::TAU / ns as f64)) as usize).min(ns - 1);
        if z as f32 > matrix[ring * ns + sector] {
            matrix[ring * ns + sector] = z as f32;
        }
    }
    for m in &mut matrix {
        if m.is_infinite() {
            *m = 0.0;
        }
    }
    let mut rings = Vec::new();
    for r in 0..nr {
        let mut sum = 0.0f32;
        for c in 0..ns {
            sum += matrix[r * ns + c];
        }
        rings.push(sum / ns as f32);
    }
    let mut sectors = Vec::new();
    for c in 0..ns {
        let mut sum = 0.0f32;
        for r in 0..nr {
            sum += matrix[r * ns + c];
        }
        sectors.push(sum / nr as f32);
    }
    (matrix, rings, sectors)
}

#[test]
fn descriptors_agree_with_the_machine() {
    let config = ScanContextConfig {
        num_rings: 7,
        num_sectors: 11,
        max_range: d(6.5),
        ..ScanContextConfig::default()
    };
    let mut cloud = make_synthetic_cloud(300, -1.3);
    cloud.push(Vec3::new(d(0.05), d(0.0), d(9.0)));
    cloud.push(Vec3::new(d(6.5), d(0.0), d(2.0)));
    cloud.push(Vec3::new(d(6.6), d(0.0), d(9.0)));
    let desc = describe(&cloud, &config);
    let (matrix, rings, sectors) = tables_by_machine(&cloud, 7, 11, 6.5);
    assert_eq!(desc.matrix.iter().map(|x| w(*x)).collect::<Vec<f32>>(), matrix);
    assert_eq!(desc.ring_key.iter().map(|x| w(*x)).collect::<Vec<f32>>(), rings);
    assert_eq!(desc.sector_key.iter().map(|x| w(*x)).collect::<Vec<f32>>(), sectors);
    assert_eq!(w(desc.matrix[6 * 11]), 2.0);
}

#[test]
fn distances_agree_with_the_machine() {
    let config = ScanContextConfig { num_rings: 5, num_sectors: 9, ..ScanContextConfig::default() };
    let a = describe(&make_synthetic_cloud(200, 0.0), &config);
    let b = describe(&make_synthetic_cloud(170, 0.4), &config);
    let mut best = (f32::MAX, 0);
    for shift in 0..9 {
        let (mut dot, mut na, mut nb) = (0.0f64, 0.0f64, 0.0f64);
        for r in 0..5 {
            for c in 0..9 {
                let x = w(a.matrix[r * 9 + c]) as f64;
                let y = w(b.matrix[r * 9 + (c + shift) % 9]) as f64;
                dot += x * y;
                na += x * x;
                nb += y * y;
            }
        }
        let denom = (na * nb).sqrt();
        let cosine = if denom > 1e-12 { dot / denom } else { 0.0 };
        let dist = (1.0 - cosine.clamp(-1.0, 1.0)) as f32;
        if dist < best.0 {
            best = (dist, shift);
        }
    }
    let (dist, shift) = a.distance(&b);
    assert_eq!((w(dist), shift), best);
    let mut sum = 0.0f32;
    for r in 0..5 {
        let gap = w(a.ring_key[r]) - w(b.ring_key[r]);
        sum += gap * gap;
    }
    assert_eq!(w(a.ring_key_distance(&b)), sum.sqrt());
    assert_eq!(w(b.ring_key_distance(&a)), sum.sqrt());
    assert_eq!(w(a.ring_key_distance(&a)), 0.0);
}

#[test]
fn turning_by_sectors_leaves_the_distance() {
    let config = ScanContextConfig { num_rings: 5, num_sectors: 9, ..ScanContextConfig::default() };
    let a = describe(&make_synthetic_cloud(200, 0.0), &config);
    let b = describe(&make_synthetic_cloud(170, 0.4), &config);
    for by in 0..9 {
        let mut c = b.clone();
        for r in 0..5 {
            for k in 0..9 {
                c.matrix[r * 9 + k] = b.matrix[r * 9 + (k + by) % 9];
            }
        }
        assert_eq!(w(a.distance(&c).0), w(a.distance(&b).0));
        assert_eq!((a.distance(&c).1 + by) % 9, a.distance(&b).1);
    }
}

fn column(heights: [u32; 2]) -> ScanContextDescriptor {
    ScanContextDescriptor {
        matrix: heights.iter().map(|h| F32::from_bits(*h)).collect(),
        ring_key: heights.iter().map(|h| F32::from_bits(*h)).collect(),
        sector_key: vec![F32::from_bits(heights[0])],
        num_rings: 2,
        num_sectors: 1,
    }
}

#[test]
fn distances_stay_in_range() {
    let a = column([0x3f80_0000, 0x3220_0000]);
    let b = column([0x3fc0_0000, 0x3270_0000]);
    let (x, y) = ((w(a.matrix[0]) as f64, w(a.matrix[1]) as f64), (1.5f64, w(b.matrix[1]) as f64));
    let norms = (x.0 * x.0 + x.1 * x.1) * (y.0 * y.0 + y.1 * y.1);
    assert!((x.0 * y.0 + x.1 * y.1) / norms.sqrt() > 1.0);
    assert_eq!(a.distance(&b).0.to_bits(), 0);
    assert_eq!(a.distance(&b).1, 0);
    let c = column([0xbfc0_0000, 0xb270_0000]);
    assert_eq!(w(a.distance(&c).0), 2.0);
    for (points, lift) in [(50, 0.0), (170, 0.4), (200, -3.0)] {
        let config = ScanContextConfig::default();
        let one = describe(&make_synthetic_cloud(points, lift), &config);
        let two = describe(&make_synthetic_cloud(120, 0.1), &config);
        let distance = w(one.distance(&two).0);
        assert!((0.0..=2.0).contains(&distance));
        assert!((0.0..=2.0).contains(&w(one.distance(&one).0)));
    }
}

#[test]
fn flat_descriptors_count_as_orthogonal() {
    let config = ScanContextConfig::default();
    let empty = describe(&Vec::new(), &config);
    let full = describe(&make_synthetic_cloud(100, 0.0), &config);
    assert_eq!((w(empty.distance(&full).0), empty.distance(&full).1), (1.0, 0));
}

#[test]
fn candidates_come_nearest_first_and_within_the_threshold() {
    let config = ScanContextConfig {
        top_k: 2,
        descriptor_threshold: s(0.05),
        ..ScanContextConfig::default()
    };
    let mut db = ScanContextDatabase::new(config);
    assert!(db.is_empty());
    let query = describe(&make_synthetic_cloud(1000, 0.0), &config);
    assert!(db.find_candidates(&query).is_empty());

    db.insert(4, describe(&Vec::new(), &config));
    db.insert(7, describe(&make_synthetic_cloud(900, 0.3), &config));
    db.insert(9, query.clone());
    db.insert(11, describe(&make_synthetic_cloud(1000, 0.05), &config));
    assert_eq!(db.len(), 4);
    assert_eq!(db.entries()[2].0, 9);
    assert_eq!(db.config().top_k, 2);

    let found = db.find_candidates(&query);
    assert_eq!(found.len(), 2);
    assert_eq!(found[0].keyframe_id, 9);
    assert!(w(found[0].distance) < 1e-5);
    assert_eq!(found[0].best_shift, 0);
    assert_eq!(found[1].keyframe_id, 11);
    assert!(w(found[0].distance) <= w(found[1].distance));
    assert!(found.iter().all(|c| w(c.distance) <= 0.05));
}

#[test]
fn candidates_are_distinct_and_none_nearer_is_left_out() {
    let config = ScanContextConfig {
        top_k: 3,
        ring_key_prefilter: 6,
        descriptor_threshold: s(0.5),
        ..ScanContextConfig::default()
    };
    let mut db = ScanContextDatabase::new(config);
    let query = describe(&make_synthetic_cloud(700, 0.2), &config);
    let lifts = [0.0, 0.3, 0.21, -0.4, 0.5, 0.19];
    for (n, lift) in lifts.into_iter().enumerate() {
        db.insert(10 + n, describe(&make_synthetic_cloud(600 + 20 * n, lift), &config));
    }
    let found = db.find_candidates(&query);
    assert_eq!(found.len(), 3);
    let mut ids: Vec<usize> = found.iter().map(|c| c.keyframe_id).collect();
    ids.sort();
    ids.dedup();
    assert_eq!(ids.len(), 3);
    for (id, entry) in db.entries() {
        let distance = w(query.distance(entry).0);
        if distance <= 0.5 && !ids.contains(id) {
            assert!(found.iter().all(|c| w(c.distance) <= distance));
        }
    }
}

#[test]
fn the_prefilter_keeps_the_nearest_ring_keys() {
    let config = ScanContextConfig {
        ring_key_prefilter: 1,
        descriptor_threshold: s(2.0),
        ..ScanContextConfig::default()
    };
    let mut db = ScanContextDatabase::new(config);
    let query = describe(&make_synthetic_cloud(1000, 0.0), &config);
    db.insert(0, describe(&make_synthetic_cloud(1000, 5.0), &config));
    db.insert(1, describe(&make_synthetic_cloud(1000, 0.5), &config));
    let found = db.find_candidates(&query);
    assert_eq!(found.len(), 1);
    assert_eq!(found[0].keyframe_id, 1);
}

#[test]
fn a_repeated_id_stands_for_its_first_entry() {
    let config = ScanContextConfig { descriptor_threshold: s(2.0), ..ScanContextConfig::default() };
    let mut db = ScanContextDatabase::new(config);
    let query = describe(&make_synthetic_cloud(1000, 0.0), &config);
    db.insert(3, describe(&Vec::new(), &config));
    db.insert(3, query.clone());
    let found = db.find_candidates(&query);
    assert_eq!(found.len(), 2);
    assert!(found.iter().all(|c| w(c.distance) == 1.0));
}

#[test]
fn equal_keys_keep_their_order() {
    let keys: Vec<F32> = [2.0, 1.0, 2.0, -0.0, 0.0, 1.0].iter().map(|x| s(*x)).collect();
    assert_eq!(stable_order(&keys), vec![3, 4, 1, 5, 0, 2]);
    assert_eq!(stable_order(&Vec::new()), Vec::<usize>::new());
}

#[test]
fn the_defaults_of_the_descriptor() {
    let config = ScanContextConfig::default();
    assert_eq!((config.num_rings, config.num_sectors), (20, 60));
    assert_eq!(v(config.max_range), 40.0);
    assert_eq!(config.top_k, 5);
    assert_eq!(w(config.descriptor_threshold), 0.3);
    assert_eq!(config.ring_key_prefilter, 20);
}
