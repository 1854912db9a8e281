//! What becomes of the points of a scan.
use vstd::arithmetic::power2::*;
use vstd::prelude::*;

use crate::float::double::F64;
use crate::float::single::F32;
use crate::linear::Vec3;
use crate::scan_context::{ScanContextConfig, ScanContextDescriptor};
use crate::types::Point3D;

verus! {

/// The vector has the coordinates of the point.
pub open spec fn stands_at(v: Vec3, p: Point3D) -> bool {
    &&& v.x.finite() && v.x.value() == p.x.value() * pow2(925)
    &&& v.y.finite() && v.y.value() == p.y.value() * pow2(925)
    &&& v.z.finite() && v.z.value() == p.z.value() * pow2(925)
}

/// The sum of the squared coordinates.
pub open spec fn squared_range(p: Point3D) -> int {
    p.x.value() * p.x.value() + p.y.value() * p.y.value() + p.z.value() * p.z.value()
}

/// The squared range of a point is the sum of all three squared coordinates, up
/// to rounding in single precision.
pub proof fn ranges_are_of_all_coordinates(p: Point3D)
    requires
        p.range_squared().finite(),
    ensures
        p.x.finite(),
        p.y.finite(),
        p.z.finite(),
        squared_range(p) >= 0,
        crate::nearness::magnitude_of(p.range_squared().value() * pow2(149) - squared_range(p))
            * 0x10_0000 <= squared_range(p) + 0x80_0000 * pow2(149),
{
    let (a, b, c) = (p.x.times(p.x), p.y.times(p.y), p.z.times(p.z));
    let u = pow2(149) as int;
    lemma_pow2_pos(149);
    crate::values::single_sums_are_about_exact(a.plus(b), c);
    crate::values::single_sums_are_about_exact(a, b);
    crate::values::single_squares_are_about_exact(p.x);
    crate::values::single_squares_are_about_exact(p.y);
    crate::values::single_squares_are_about_exact(p.z);
    crate::values::lemma_square(p.x.value());
    crate::values::lemma_square(p.y.value());
    crate::values::lemma_square(p.z.value());
    let (i, j, k) = (a.value(), b.value(), c.value());
    let (two, all) = (a.plus(b).value(), p.range_squared().value());
    lemma_single_scaled(two, i + j, u);
    lemma_single_scaled(all, two + k, u);
    assert((i + j) * u == i * u + j * u && (two + k) * u == two * u + k * u) by (nonlinear_arith);
}

proof fn lemma_single_scaled(r: int, exact: int, u: int)
    requires
        crate::nearness::magnitude_of(r - exact) * 0x80_0000 <= crate::nearness::magnitude_of(exact)
            + 0x80_0000,
        u > 0,
    ensures
        crate::nearness::magnitude_of(r * u - exact * u) * 0x80_0000
            <= crate::nearness::magnitude_of(exact * u) + 0x80_0000 * u,
{
    let d = r - exact;
    let (k, m) = (crate::nearness::magnitude_of(d), crate::nearness::magnitude_of(exact));
    assert(r * u - exact * u == d * u) by (nonlinear_arith)
        requires
            d == r - exact,
    ;
    assert(d * u == k * u || d * u == -(k * u)) by (nonlinear_arith)
        requires
            d == k || d == -k,
    ;
    assert(exact * u == m * u || exact * u == -(m * u)) by (nonlinear_arith)
        requires
            exact == m || exact == -m,
    ;
    assert(k * u >= 0 && m * u >= 0 && (k * u) * 0x80_0000 <= m * u + 0x80_0000 * u)
        by (nonlinear_arith)
        requires
            k >= 0,
            m >= 0,
            u > 0,
            k * 0x80_0000 <= m + 0x80_0000,
    ;
}

/// A bound on the squared range, seen from the coordinates.
proof fn lemma_range_bound(p: Point3D, r: F32)
    requires
        p.range_squared().finite(),
        r.finite(),
    ensures
        ({
            let (t, b) = (squared_range(p), r.value() * pow2(149));
            let rest = 0x80_0000 * pow2(149);
            &&& p.range_squared().less(r) ==> 0xf_ffff * t < 0x10_0000 * b + rest
            &&& !p.range_squared().less(r) ==> 0x10_0000 * b <= 0x10_0001 * t + rest
            &&& r.less(p.range_squared()) ==> 0x10_0000 * b < 0x10_0001 * t + rest
            &&& !r.less(p.range_squared()) ==> 0xf_ffff * t <= 0x10_0000 * b + rest
        }),
{
    ranges_are_of_all_coordinates(p);
    let range = p.range_squared();
    crate::values::singles_are_ordered_by_value(range, r);
    crate::values::singles_are_ordered_by_value(r, range);
    lemma_pow2_pos(149);
    let (x, y, u) = (range.value(), r.value(), pow2(149) as int);
    assert(x < y ==> x * u < y * u) by (nonlinear_arith)
        requires
            u > 0,
    ;
    assert(x > y ==> x * u > y * u) by (nonlinear_arith)
        requires
            u > 0,
    ;
}

/// The points that are matched lie between the least and the greatest range,
/// and those that are not lie outside, up to rounding at the limits.
pub proof fn matched_points_are_in_range(p: Point3D)
    requires
        p.range_squared().finite(),
    ensures
        ({
            let t = squared_range(p);
            let near = F32::from_bits(crate::scan_matcher::voxel::NEAR).value() * pow2(149);
            let far = F32::from_bits(crate::scan_matcher::voxel::FAR).value() * pow2(149);
            let rest = 0x80_0000 * pow2(149);
            let range = p.range_squared().value();
            &&& crate::scan_matcher::voxel::usable(p) == (F32::from_bits(
                crate::scan_matcher::voxel::NEAR,
            ).value() <= range <= F32::from_bits(crate::scan_matcher::voxel::FAR).value())
            &&& crate::processor::descriptive(p) == (F32::from_bits(
                crate::scan_matcher::voxel::NEAR,
            ).value() < range < F32::from_bits(crate::scan_matcher::voxel::FAR).value())
            &&& crate::scan_matcher::voxel::usable(p) ==> 0x10_0000 * near <= 0x10_0001 * t + rest
                && 0xf_ffff * t <= 0x10_0000 * far + rest
            &&& !crate::scan_matcher::voxel::usable(p) ==> 0xf_ffff * t < 0x10_0000 * near + rest
                || 0x10_0000 * far < 0x10_0001 * t + rest
            &&& crate::processor::descriptive(p) ==> 0x10_0000 * near < 0x10_0001 * t + rest
                && 0xf_ffff * t < 0x10_0000 * far + rest
            &&& !crate::processor::descriptive(p) ==> 0xf_ffff * t <= 0x10_0000 * near + rest
                || 0x10_0000 * far <= 0x10_0001 * t + rest
        }),
{
    lemma_range_bound(p, F32::from_bits(crate::scan_matcher::voxel::NEAR));
    lemma_range_bound(p, F32::from_bits(crate::scan_matcher::voxel::FAR));
    let range = p.range_squared();
    let (near, far) = (
        F32::from_bits(crate::scan_matcher::voxel::NEAR),
        F32::from_bits(crate::scan_matcher::voxel::FAR),
    );
    crate::values::singles_are_ordered_by_value(range, near);
    crate::values::singles_are_ordered_by_value(near, range);
    crate::values::singles_are_ordered_by_value(range, far);
    crate::values::singles_are_ordered_by_value(far, range);
}

/// The points that a descriptor is made of are points of the scan, coordinate
/// by coordinate and in the order of the scan: those in range, and all of them.
/// The result names the point that each one is.
pub proof fn descriptor_points_are_points_of_the_scan(
    points: Seq<Point3D>,
    n: nat,
) -> (from: Seq<int>)
    requires
        n <= points.len(),
    ensures
        ({
            let r = crate::processor::described(points, n);
            &&& from.len() == r.len()
            &&& forall|i: int|
                0 <= i < r.len() ==> 0 <= #[trigger] from[i] < n && stands_at(
                    r[i],
                    points[from[i]],
                ) && crate::processor::descriptive(points[from[i]])
            &&& forall|i: int, j: int|
                0 <= i < j < r.len() ==> #[trigger] from[i] < #[trigger] from[j]
            &&& forall|k: int|
                0 <= k < n && crate::processor::descriptive(#[trigger] points[k]) ==> from.contains(
                    k,
                )
        }),
    decreases n,
{
    if n == 0 {
        Seq::empty()
    } else {
        let m = (n - 1) as nat;
        let before = descriptor_points_are_points_of_the_scan(points, m);
        let p = points[n - 1];
        if crate::processor::descriptive(p) {
            let from = before.push(n - 1);
            ranges_are_of_all_coordinates(p);
            crate::values::widening_is_exact(p.x);
            crate::values::widening_is_exact(p.y);
            crate::values::widening_is_exact(p.z);
            assert forall|k: int|
                0 <= k < n && crate::processor::descriptive(#[trigger] points[k]) implies
                from.contains(k) by {
                if k < m {
                    let i = choose|i: int| 0 <= i < before.len() && before[i] == k;
                    assert(from[i] == k);
                } else {
                    assert(from[from.len() - 1] == k);
                }
            }
            assert forall|i: int| 0 <= i < from.len() implies 0 <= #[trigger] from[i] < n
                && stands_at(
                crate::processor::described(points, n)[i],
                points[from[i]],
            ) && crate::processor::descriptive(points[from[i]]) by {
                if i < before.len() {
                    assert(from[i] == before[i]);
                }
            }
            assert forall|i: int, j: int| 0 <= i < j < from.len() implies #[trigger] from[i]
                < #[trigger] from[j] by {
                assert(from[i] == before[i]);
                if j < before.len() {
                    assert(from[j] == before[j]);
                }
            }
            from
        } else {
            before
        }
    }
}

/// The height that a descriptor records for a cell is the z of a point of the
/// scan whose x and y fall into that cell, and no such point is higher; a cell
/// without one holds zero.
pub proof fn heights_are_those_of_points(
    config: ScanContextConfig,
    points: Seq<Point3D>,
    azimuths: Seq<F64>,
    r: ScanContextDescriptor,
    cell: int,
)
    requires
        config.describes(
            crate::processor::described(points, points.len()),
            azimuths,
            r,
        ),
        0 <= cell < r.matrix@.len(),
    ensures
        is_empty(config, points, azimuths, cell) ==> r.matrix@[cell].bits == 0,
        !is_empty(config, points, azimuths, cell) ==> exists|k: int, i: int| #[trigger]
            is_in_cell(config, points, azimuths, cell, k, i) && r.matrix@[cell].finite()
                && r.matrix@[cell].value() == points[k].z.value(),
        forall|k: int, i: int| #[trigger]
            is_in_cell(config, points, azimuths, cell, k, i) ==> points[k].z.value()
                <= r.matrix@[cell].value(),
{
    let own = crate::processor::described(points, points.len());
    let from = descriptor_points_are_points_of_the_scan(points, points.len());
    crate::scan_context::heights_are_the_greatest(config, own, azimuths, cell, own.len());
    let top = config.tallest(own, azimuths, cell, own.len());
    assert(r.matrix@[cell] == config.height(own, azimuths, cell));
    let lowest = F32::from_bits(crate::scan_context::LOWEST);
    assert forall|k: int, i: int| #[trigger]
        is_in_cell(config, points, azimuths, cell, k, i) implies points[k].z.value()
        <= top.value() && top != lowest by {
        ranges_are_of_all_coordinates(points[k]);
        lemma_same_single(own[i].z, points[k].z);
        reveal(F32::spec_less);
        assert(!top.less(own[i].z.to_single()));
        lemma_lowest(own[i].z.to_single());
    }
    if top != lowest {
        let i = choose|i: int|
            0 <= i < own.len() && config.in_range(#[trigger] own[i]) && config.cell_of(
                own[i],
                azimuths[i],
            ) == cell && top == own[i].z.to_single();
        let k = from[i];
        assert(stands_at(own[i], points[k]));
        ranges_are_of_all_coordinates(points[k]);
        lemma_same_single(own[i].z, points[k].z);
        assert(is_in_cell(config, points, azimuths, cell, k, i));
    }
}

/// The lowest height is below every finite one.
proof fn lemma_lowest(s: F32)
    requires
        s.finite(),
    ensures
        F32::from_bits(crate::scan_context::LOWEST).less(s),
{
    let f = crate::float::rounding::Format::single();
    reveal(F32::spec_less);
    f.lemma_monotone(f.encoded(s.bits as u64), f.infinity as nat);
}

/// No point falls into the cell.
pub open spec fn is_empty(
    config: ScanContextConfig,
    points: Seq<Point3D>,
    azimuths: Seq<F64>,
    cell: int,
) -> bool {
    forall|k: int, i: int| !#[trigger] is_in_cell(config, points, azimuths, cell, k, i)
}

/// A value that single precision can hold is not rounded.
proof fn lemma_same_single(a: F64, s: F32)
    requires
        a.finite(),
        s.finite(),
        a.value() == s.value() * pow2(925),
    ensures
        a.to_single().finite(),
        a.to_single().value() == s.value(),
{
    let f = crate::float::rounding::Format::single();
    let g = crate::float::rounding::Format::double();
    crate::values::widening_is_exact(s);
    let wide = s.to_double();
    lemma_pow2_pos(925);
    reveal(F64::spec_to_single);
    let size = g.size(a.bits);
    assert(g.size(wide.bits) == size);
    let r = f.rounded(size * pow2(149), pow2(1074));
    f.lemma_rounded_bound(size * pow2(149), pow2(1074));
    f.lemma_signed(true, r);
    f.lemma_signed(false, r);
    assert(wide.to_single() == s);
    f.lemma_zero();
    crate::float::double::zero_has_no_value(a);
    crate::float::double::zero_has_no_value(wide);
    if size == 0 {
        assert(s.value() == 0) by (nonlinear_arith)
            requires
                s.value() * pow2(925) == 0,
                pow2(925) > 0,
        ;
    }
}

/// The point, which is the `i`th that a descriptor is made of, falls into the
/// cell.
pub open spec fn is_in_cell(
    config: ScanContextConfig,
    points: Seq<Point3D>,
    azimuths: Seq<F64>,
    cell: int,
    k: int,
    i: int,
) -> bool {
    let own = crate::processor::described(points, points.len());
    &&& 0 <= k < points.len()
    &&& 0 <= i < own.len()
    &&& crate::processor::descriptive(points[k])
    &&& stands_at(own[i], points[k])
    &&& config.in_range(own[i])
    &&& config.cell_of(own[i], azimuths[i]) == cell
}

} // verus!
