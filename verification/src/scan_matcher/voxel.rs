//! Voxel downsampling: one mean point for each occupied cube of space.
use std::collections::HashMap;

use vstd::prelude::*;

use crate::float::double::F64;
use crate::float::single::F32;
use crate::linear::{Vec3, ONE};
use crate::types::Point3D;

verus! {

/// The pattern of 0.01 in single precision: the least squared range.
pub const NEAR: u32 = 0x3c23_d70a;

/// The pattern of 2500.0 in single precision: the greatest squared range.
pub const FAR: u32 = 0x451c_4000;

/// The cube that a point falls into, counted from the sensor along each axis.
#[derive(Clone, Copy, Debug)]
pub struct Cube {
    pub x: i32,
    pub y: i32,
    pub z: i32,
}

/// An occupied cube: the sum of its points and their number.
#[derive(Clone, Copy, Debug)]
pub struct Voxel {
    pub cube: Cube,
    pub sum: Vec3,
    pub count: usize,
}

/// A point whose range is neither too short nor too long to be used.
pub open spec fn usable(p: Point3D) -> bool {
    let range = p.range_squared();
    range.finite() && !range.less(F32::from_bits(NEAR)) && !F32::from_bits(FAR).less(range)
}

/// The point in double precision.
pub open spec fn widened(p: Point3D) -> Vec3 {
    Vec3 { x: p.x.to_double(), y: p.y.to_double(), z: p.z.to_double() }
}

/// The cube of a point, where `inv` is the number of cubes in a meter.
pub open spec fn cube_of(p: Point3D, inv: F64) -> Cube {
    Cube {
        x: p.x.to_double().times(inv).floor_to_i32(),
        y: p.y.to_double().times(inv).floor_to_i32(),
        z: p.z.to_double().times(inv).floor_to_i32(),
    }
}

/// The position of the first voxel from `from` on that fills the cube.
pub open spec fn voxel_at(voxels: Seq<Voxel>, cube: Cube, from: int) -> int
    decreases voxels.len() - from,
{
    if from >= voxels.len() || voxels[from].cube == cube {
        from
    } else {
        voxel_at(voxels, cube, from + 1)
    }
}

/// The voxels with one more point.
pub open spec fn with_point(voxels: Seq<Voxel>, cube: Cube, p: Vec3) -> Seq<Voxel> {
    let at = voxel_at(voxels, cube, 0);
    if at < voxels.len() {
        let v = voxels[at];
        voxels.update(
            at,
            Voxel { cube, sum: v.sum.plus(p), count: (v.count + 1) as usize },
        )
    } else {
        voxels.push(Voxel { cube, sum: Vec3::zeros().plus(p), count: 1 })
    }
}

/// The voxels of the first `n` points, in the order in which their cubes were
/// first met.
pub open spec fn gathered(points: Seq<Point3D>, inv: F64, n: nat) -> Seq<Voxel>
    decreases n,
{
    if n == 0 {
        Seq::empty()
    } else {
        let before = gathered(points, inv, (n - 1) as nat);
        let p = points[n - 1];
        if usable(p) {
            with_point(before, cube_of(p, inv), widened(p))
        } else {
            before
        }
    }
}

/// The mean point of each voxel.
pub open spec fn centers(voxels: Seq<Voxel>) -> Seq<Vec3> {
    Seq::new(voxels.len(), |i: int| voxels[i].sum.over(F64::from_usize(voxels[i].count)))
}

/// The points that downsampling leaves.
pub open spec fn downsampled(points: Seq<Point3D>, voxel_size: F64) -> Seq<Vec3> {
    centers(gathered(points, F64::from_bits(ONE).over(voxel_size), points.len()))
}

impl Cube {
    /// One number for the three.
    pub open spec fn key(self) -> int {
        ((self.x + 0x8000_0000) * 0x1_0000_0000 + (self.y + 0x8000_0000)) * 0x1_0000_0000 + (self.z
            + 0x8000_0000)
    }

    fn packed(self) -> (r: u128)
        ensures
            r == self.key(),
    {
        let x: u128 = (self.x as i64 + 0x8000_0000i64) as u128;
        let y: u128 = (self.y as i64 + 0x8000_0000i64) as u128;
        let z: u128 = (self.z as i64 + 0x8000_0000i64) as u128;
        (x * 0x1_0000_0000 + y) * 0x1_0000_0000 + z
    }
}

/// Different cubes have different keys.
proof fn lemma_key(a: Cube, b: Cube)
    requires
        a.key() == b.key(),
    ensures
        a == b,
{
}

/// No two voxels fill the same cube.
pub open spec fn apart(voxels: Seq<Voxel>) -> bool {
    forall|i: int, j: int|
        0 <= i < j < voxels.len() ==> (#[trigger] voxels[i]).cube != (#[trigger] voxels[j]).cube
}

proof fn lemma_voxel_at(voxels: Seq<Voxel>, cube: Cube, from: int)
    requires
        0 <= from <= voxels.len(),
    ensures
        from <= voxel_at(voxels, cube, from) <= voxels.len(),
        voxel_at(voxels, cube, from) < voxels.len() ==> voxels[voxel_at(
            voxels,
            cube,
            from,
        )].cube == cube,
        forall|i: int|
            from <= i < voxel_at(voxels, cube, from) ==> (#[trigger] voxels[i]).cube != cube,
    decreases voxels.len() - from,
{
    if from < voxels.len() && voxels[from].cube != cube {
        lemma_voxel_at(voxels, cube, from + 1);
    }
}

/// The index knows the position of every voxel, and nothing else.
spec fn indexes(index: Map<u128, usize>, voxels: Seq<Voxel>) -> bool {
    &&& forall|i: int|
        0 <= i < voxels.len() ==> index.contains_key((#[trigger] voxels[i]).cube.key() as u128)
            && index[voxels[i].cube.key() as u128] == i
    &&& forall|k: u128| #[trigger]
        index.contains_key(k) ==> index[k] < voxels.len() && voxels[index[k] as int].cube.key()
            == k
}

/// Test whether a point can be used.
pub fn is_usable(p: &Point3D) -> (r: bool)
    ensures
        r == usable(*p),
{
    let range = p.range_squared();
    range.is_finite() && !range.less(F32::from_bits(NEAR)) && !F32::from_bits(FAR).less(range)
}

/// The cube of a point.
pub fn cube(p: &Point3D, inv: F64) -> (r: Cube)
    ensures
        r == cube_of(*p, inv),
{
    Cube {
        x: p.x.to_double().times(inv).floor_to_i32(),
        y: p.y.to_double().times(inv).floor_to_i32(),
        z: p.z.to_double().times(inv).floor_to_i32(),
    }
}

/// Add one point to its voxel, or to a new one.
fn deposit(voxels: &mut Vec<Voxel>, index: &mut HashMap<u128, usize>, cube: Cube, p: Vec3)
    requires
        indexes(old(index)@, old(voxels)@),
        forall|i: int|
            0 <= i < old(voxels)@.len() ==> (#[trigger] old(voxels)@[i]).count < usize::MAX,
    ensures
        indexes(final(index)@, final(voxels)@),
        final(voxels)@ == with_point(old(voxels)@, cube, p),
{
    broadcast use vstd::std_specs::hash::group_hash_axioms;

    let key: u128 = cube.packed();
    proof {
        lemma_voxel_at(voxels@, cube, 0);
    }
    let found: Option<usize> = match index.get(&key) {
        Some(at) => Some(*at),
        None => None,
    };
    match found {
        Some(at) => {
            proof {
                lemma_key(voxels@[at as int].cube, cube);
                let first = voxel_at(voxels@, cube, 0);
                assert(voxels@[first].cube == cube);
                assert(first == at);
            }
            let v = voxels[at];
            voxels.set(at, Voxel { cube, sum: v.sum.plus(p), count: v.count + 1 });
            assert(voxels@[at as int].cube.key() == key);
        },
        None => {
            let at: usize = voxels.len();
            proof {
                let first = voxel_at(voxels@, cube, 0);
                if first < at {
                    assert(voxels@[first].cube == cube);
                }
            }
            index.insert(key, at);
            voxels.push(Voxel { cube, sum: Vec3::zeros().plus(p), count: 1 });
        },
    }
}

/// Voxel downsample a point cloud.
///
/// The mean points come in the order in which their voxels were first met.
pub fn voxel_downsample(points: &Vec<Point3D>, voxel_size: F64) -> (r: Vec<Vec3>)
    ensures
        r@ == downsampled(points@, voxel_size),
{
    let inv = F64::from_bits(ONE).over(voxel_size);
    let mut voxels: Vec<Voxel> = Vec::new();
    let mut index: HashMap<u128, usize> = HashMap::new();
    let mut n: usize = 0;
    while n < points.len()
        invariant
            n <= points.len(),
            voxels@ == gathered(points@, inv, n as nat),
            indexes(index@, voxels@),
            forall|i: int| 0 <= i < voxels@.len() ==> (#[trigger] voxels@[i]).count <= n,
        decreases points.len() - n,
    {
        let p = points[n];
        if is_usable(&p) {
            let wide = Vec3::new(p.x.to_double(), p.y.to_double(), p.z.to_double());
            proof {
                lemma_voxel_at(voxels@, cube_of(p, inv), 0);
            }
            deposit(&mut voxels, &mut index, cube(&p, inv), wide);
        }
        n = n + 1;
    }
    let mut r: Vec<Vec3> = Vec::new();
    let mut i: usize = 0;
    while i < voxels.len()
        invariant
            i <= voxels.len(),
            r@ == centers(voxels@).take(i as int),
        decreases voxels.len() - i,
    {
        r.push(voxels[i].sum.over(F64::from_usize(voxels[i].count)));
        i = i + 1;
        assert(r@ =~= centers(voxels@).take(i as int));
    }
    assert(r@ =~= centers(voxels@));
    r
}

/// The number of usable points among the first `n`.
pub open spec fn usable_count(points: Seq<Point3D>, n: nat) -> nat
    decreases n,
{
    if n == 0 {
        0
    } else {
        usable_count(points, (n - 1) as nat) + if usable(points[n - 1]) {
            1nat
        } else {
            0nat
        }
    }
}

/// The number of points in the first `n` voxels.
pub open spec fn held(voxels: Seq<Voxel>, n: nat) -> nat
    decreases n,
{
    if n == 0 {
        0
    } else {
        held(voxels, (n - 1) as nat) + voxels[n - 1].count as nat
    }
}

proof fn lemma_held(a: Seq<Voxel>, b: Seq<Voxel>, n: nat)
    requires
        n <= a.len(),
        n <= b.len(),
        forall|i: int| 0 <= i < n ==> #[trigger] a[i] == b[i],
    ensures
        held(a, n) == held(b, n),
    decreases n,
{
    if n > 0 {
        lemma_held(a, b, (n - 1) as nat);
    }
}

proof fn lemma_held_update(voxels: Seq<Voxel>, at: int, v: Voxel, n: nat)
    requires
        0 <= at < n <= voxels.len(),
        v.count == voxels[at].count + 1,
    ensures
        held(voxels.update(at, v), n) == held(voxels, n) + 1,
    decreases n,
{
    if at == n - 1 {
        lemma_held(voxels.update(at, v), voxels, (n - 1) as nat);
    } else {
        lemma_held_update(voxels, at, v, (n - 1) as nat);
    }
}

/// Downsampling puts every usable point into exactly one voxel: the voxels
/// fill different cubes, none is empty, together they count the usable
/// points, and each usable point's cube is filled. So there are no more
/// voxels than points.
pub proof fn every_usable_point_is_in_one_voxel(points: Seq<Point3D>, inv: F64, n: nat)
    requires
        n <= points.len() <= usize::MAX,
    ensures
        ({
            let voxels = gathered(points, inv, n);
            &&& apart(voxels)
            &&& voxels.len() <= usable_count(points, n) <= n
            &&& held(voxels, voxels.len()) == usable_count(points, n)
            &&& forall|i: int|
                0 <= i < voxels.len() ==> 0 < (#[trigger] voxels[i]).count <= usable_count(
                    points,
                    n,
                )
            &&& forall|k: int|
                0 <= k < n && usable(#[trigger] points[k]) ==> voxel_at(
                    voxels,
                    cube_of(points[k], inv),
                    0,
                ) < voxels.len()
        }),
    decreases n,
{
    if n > 0 {
        let m = (n - 1) as nat;
        every_usable_point_is_in_one_voxel(points, inv, m);
        let before = gathered(points, inv, m);
        let voxels = gathered(points, inv, n);
        let p = points[n - 1];
        if usable(p) {
            let cube = cube_of(p, inv);
            let at = voxel_at(before, cube, 0);
            lemma_voxel_at(before, cube, 0);
            if at < before.len() {
                lemma_held_update(before, at, voxels[at], before.len());
            } else {
                lemma_held(before, voxels, before.len());
                assert(voxels.last().cube == cube);
            }
            assert forall|k: int| 0 <= k < n && usable(#[trigger] points[k]) implies voxel_at(
                voxels,
                cube_of(points[k], inv),
                0,
            ) < voxels.len() by {
                let own = cube_of(points[k], inv);
                lemma_voxel_at(voxels, own, 0);
                if k < m {
                    let was = voxel_at(before, own, 0);
                    lemma_voxel_at(before, own, 0);
                    assert(voxels[was].cube == own);
                } else {
                    assert(voxels[at].cube == own);
                }
            }
        }
    }
}

/// A whole number is the floor of a coordinate in units of the voxel size.
pub open spec fn is_floor(k: i32, coordinate: F64, inv: F64) -> bool {
    let scaled = coordinate.times(inv);
    let u = crate::nearness::one_unit();
    scaled.finite() && -0x8000_0000 * u <= scaled.value() < 0x8000_0000 * u ==> k * u
        <= scaled.value() < (k + 1) * u && crate::values::about(
        scaled.value() * u,
        coordinate.value() * inv.value(),
        1,
        u,
    )
}

proof fn lemma_floor(coordinate: F64, inv: F64)
    ensures
        is_floor(coordinate.times(inv).floor_to_i32(), coordinate, inv),
{
    let scaled = coordinate.times(inv);
    let u = crate::nearness::one_unit();
    if scaled.finite() && -0x8000_0000 * u <= scaled.value() < 0x8000_0000 * u {
        crate::values::products_are_about_exact(coordinate, inv);
        reveal(F64::spec_floor_to_i32);
        vstd::arithmetic::power2::lemma_pow2_pos(1074);
        let v = scaled.value();
        vstd::arithmetic::div_mod::lemma_fundamental_div_mod(v, u);
        vstd::arithmetic::div_mod::lemma_mod_bound(v, u);
        let q = v / u;
        assert(-0x8000_0000 <= q < 0x8000_0000) by (nonlinear_arith)
            requires
                v == u * q + v % u,
                0 <= v % u < u,
                -0x8000_0000 * u <= v < 0x8000_0000 * u,
                u > 0,
        ;
        assert(q * u <= v < (q + 1) * u) by (nonlinear_arith)
            requires
                v == u * q + v % u,
                0 <= v % u < u,
        ;
    }
}

/// The cube of a point holds it: along every axis the cube's number is the
/// floor of that coordinate in units of the voxel size, below zero too.
pub proof fn cubes_hold_their_points(p: Point3D, inv: F64)
    ensures
        is_floor(cube_of(p, inv).x, p.x.to_double(), inv),
        is_floor(cube_of(p, inv).y, p.y.to_double(), inv),
        is_floor(cube_of(p, inv).z, p.z.to_double(), inv),
        p.x.finite() ==> p.x.to_double().value() == p.x.value() * vstd::arithmetic::power2::pow2(
            925,
        ),
        p.y.finite() ==> p.y.to_double().value() == p.y.value() * vstd::arithmetic::power2::pow2(
            925,
        ),
        p.z.finite() ==> p.z.to_double().value() == p.z.value() * vstd::arithmetic::power2::pow2(
            925,
        ),
{
    lemma_floor(p.x.to_double(), inv);
    lemma_floor(p.y.to_double(), inv);
    lemma_floor(p.z.to_double(), inv);
    if p.x.finite() {
        crate::values::widening_is_exact(p.x);
    }
    if p.y.finite() {
        crate::values::widening_is_exact(p.y);
    }
    if p.z.finite() {
        crate::values::widening_is_exact(p.z);
    }
}

/// No other usable point among the first `n` shares the cube of point `k`.
pub open spec fn is_alone(points: Seq<Point3D>, inv: F64, k: int, n: nat) -> bool {
    forall|i: int|
        0 <= i < n && i != k && usable(#[trigger] points[i]) ==> cube_of(points[i], inv) != cube_of(
            points[k],
            inv,
        )
}

/// Where the voxel of a point that is alone stands.
proof fn lemma_alone(points: Seq<Point3D>, inv: F64, k: int, n: nat)
    requires
        0 <= k < points.len(),
        n <= points.len() <= usize::MAX,
        usable(points[k]),
        is_alone(points, inv, k, n),
    ensures
        ({
            let voxels = gathered(points, inv, n);
            let at = voxel_at(voxels, cube_of(points[k], inv), 0);
            &&& k >= n ==> at == voxels.len()
            &&& k < n ==> at < voxels.len() && voxels[at] == (Voxel {
                cube: cube_of(points[k], inv),
                sum: Vec3::zeros().plus(widened(points[k])),
                count: 1,
            })
        }),
    decreases n,
{
    let own = cube_of(points[k], inv);
    let voxels = gathered(points, inv, n);
    lemma_voxel_at(voxels, own, 0);
    if n > 0 {
        let m = (n - 1) as nat;
        lemma_alone(points, inv, k, m);
        let before = gathered(points, inv, m);
        lemma_voxel_at(before, own, 0);
        let p = points[n - 1];
        if usable(p) {
            let cube = cube_of(p, inv);
            let at = voxel_at(before, cube, 0);
            lemma_voxel_at(before, cube, 0);
            let first = voxel_at(voxels, own, 0);
            every_usable_point_is_in_one_voxel(points, inv, m);
            every_usable_point_is_in_one_voxel(points, inv, n);
            if k == n - 1 {
                assert(voxels[at].cube == own);
                if first < at {
                    assert(before[first].cube == own);
                }
            } else {
                assert(cube != own);
                let was = voxel_at(before, own, 0);
                if was < before.len() {
                    assert(voxels[was] == before[was]);
                    if first < was {
                        assert(voxels[first].cube == own);
                        assert(voxels[was].cube == own);
                    }
                } else if first < voxels.len() {
                    assert(voxels[first].cube == own);
                    if first < before.len() && first != at {
                        assert(before[first].cube == own);
                    }
                }
            }
        }
    }
}

/// A usable point that is alone in its cube is kept as it is, coordinate by
/// coordinate.
pub proof fn points_alone_are_kept(points: Seq<Point3D>, voxel_size: F64, k: int)
    requires
        points.len() <= usize::MAX,
        0 <= k < points.len(),
        usable(points[k]),
        is_alone(points, F64::from_bits(ONE).over(voxel_size), k, points.len()),
    ensures
        exists|i: int|
            0 <= i < downsampled(points, voxel_size).len() && crate::point_laws::stands_at(
                #[trigger] downsampled(points, voxel_size)[i],
                points[k],
            ),
{
    let inv = F64::from_bits(ONE).over(voxel_size);
    let p = points[k];
    lemma_alone(points, inv, k, points.len());
    let voxels = gathered(points, inv, points.len());
    let at = voxel_at(voxels, cube_of(p, inv), 0);
    lemma_voxel_at(voxels, cube_of(p, inv), 0);
    crate::point_laws::ranges_are_of_all_coordinates(p);
    crate::values::widening_is_exact(p.x);
    crate::values::widening_is_exact(p.y);
    crate::values::widening_is_exact(p.z);
    let zero = F64::from_bits(0);
    crate::float::double::zero_is_neutral(p.x.to_double(), zero);
    crate::float::double::zero_is_neutral(p.y.to_double(), zero);
    crate::float::double::zero_is_neutral(p.z.to_double(), zero);
    crate::values::lemma_over_one(zero.plus(p.x.to_double()));
    crate::values::lemma_over_one(zero.plus(p.y.to_double()));
    crate::values::lemma_over_one(zero.plus(p.z.to_double()));
    assert(crate::point_laws::stands_at(downsampled(points, voxel_size)[at], p));
}

/// A point that joins a voxel adds its coordinates to the sum and one to the
/// count; the other voxels stay, and a point in a new cube opens a voxel.
pub proof fn points_join_their_voxel(voxels: Seq<Voxel>, cube: Cube, p: Vec3, i: int, k: int)
    requires
        apart(voxels),
        0 <= i < with_point(voxels, cube, p).len(),
        0 <= k < 3,
        i < voxels.len() ==> voxels[i].count < usize::MAX,
    ensures
        ({
            let after = with_point(voxels, cube, p);
            let sum = after[i].sum.part(k);
            &&& i < voxels.len() && voxels[i].cube != cube ==> after[i] == voxels[i]
            &&& i < voxels.len() && voxels[i].cube == cube ==> after[i].count == voxels[i].count + 1
                && after[i].cube == cube && (sum.finite() ==> crate::values::about(
                sum.value(),
                voxels[i].sum.part(k).value() + p.part(k).value(),
                1,
                1,
            ))
            &&& i >= voxels.len() ==> i == voxels.len() && after[i].cube == cube && after[i].count
                == 1 && (p.part(k).finite() ==> sum.value() == p.part(k).value())
        }),
{
    let after = with_point(voxels, cube, p);
    let at = voxel_at(voxels, cube, 0);
    lemma_voxel_at(voxels, cube, 0);
    let sum = after[i].sum.part(k);
    if i < voxels.len() && voxels[i].cube == cube {
        assert(at <= i);
        if at < i {
            assert(voxels[at].cube != voxels[i].cube);
        }
        if sum.finite() {
            crate::values::sums_are_about_exact(voxels[i].sum.part(k), p.part(k));
        }
    }
    if i >= voxels.len() && p.part(k).finite() {
        crate::float::double::zero_is_neutral(p.part(k), F64::from_bits(0));
    }
}

/// The center of a voxel times the number of its points is their sum, up to
/// rounding.
pub proof fn centers_are_means(voxels: Seq<Voxel>, i: int, k: int)
    requires
        0 <= i < voxels.len(),
        0 <= k < 3,
        0 < voxels[i].count < 0x20_0000_0000_0000,
        voxels[i].sum.part(k).finite(),
        centers(voxels)[i].part(k).finite(),
    ensures
        ({
            let (u, e) = (crate::nearness::one_unit(), 0x10_0000_0000_0000int);
            let sum = voxels[i].sum.part(k).value();
            let n = voxels[i].count * u;
            crate::nearness::magnitude_of(centers(voxels)[i].part(k).value() * n - sum * u) * e
                <= crate::nearness::magnitude_of(sum) * u + e * n
        }),
{
    let count = F64::from_usize(voxels[i].count);
    let u = crate::nearness::one_unit();
    vstd::arithmetic::power2::lemma_pow2_pos(1074);
    crate::values::whole_numbers_are_exact(voxels[i].count);
    assert(voxels[i].count * u > 0) by (nonlinear_arith)
        requires
            voxels[i].count > 0,
            u > 0,
    ;
    crate::float::double::zero_has_no_value(count);
    crate::values::quotients_are_about_exact(voxels[i].sum.part(k), count);
}

} // verus!
