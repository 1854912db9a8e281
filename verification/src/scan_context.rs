//! Scan Context descriptors for efficient loop closure detection.
//!
//! Computes a compact 2D descriptor (rings x sectors) from an unorganized
//! 3D point cloud by binning points into polar cells and recording max height.
//! Rotation-invariant matching is achieved via column-shift cosine distance.
//!
//! Reference: Kim & Kim, "Scan Context: Egocentric Spatial Descriptor for
//! Place Recognition within 3D Point Cloud Map" (2018).
use vstd::arithmetic::div_mod::*;
use vstd::arithmetic::mul::*;
use vstd::arithmetic::power2::*;
use vstd::prelude::*;

use crate::float::double::F64;
use crate::float::rounding::Format;
use crate::float::single::F32;
use crate::linear::{Vec3, ONE};
use crate::ordering::stable_order;
use crate::transforms::TAU;

verus! {

/// The pattern of 40.0.
pub const MAX_RANGE: u64 = 0x4044_0000_0000_0000;

/// The pattern of 0.1: closer points are left out.
pub const MIN_RANGE: u64 = 0x3fb9_9999_9999_999a;

/// The pattern of 0.3 in single precision.
pub const DESCRIPTOR_THRESHOLD: u32 = 0x3e99_999a;

/// The pattern of 1e-12: shorter vectors have no direction.
pub const LEAST_NORM: u64 = 0x3d71_9799_812d_ea11;

/// The pattern of negative infinity in single precision.
pub const LOWEST: u32 = 0xff80_0000;

/// The pattern of the largest finite number in single precision.
pub const LARGEST: u32 = 0x7f7f_ffff;

/// Configuration for Scan Context descriptors.
#[derive(Clone, Copy, Debug)]
pub struct ScanContextConfig {
    /// Number of radial rings
    pub num_rings: usize,
    /// Number of azimuthal sectors
    pub num_sectors: usize,
    /// Maximum range to consider (meters)
    pub max_range: F64,
    /// Number of top candidates to return from database query
    pub top_k: usize,
    /// Descriptor distance threshold for candidate acceptance
    pub descriptor_threshold: F32,
    /// Number of ring-key pre-filter candidates before full cosine distance
    pub ring_key_prefilter: usize,
}

impl Default for ScanContextConfig {
    fn default() -> (r: ScanContextConfig)
        ensures
            r.num_rings == 20,
            r.num_sectors == 60,
            r.max_range.bits == MAX_RANGE,
            r.top_k == 5,
            r.descriptor_threshold.bits == DESCRIPTOR_THRESHOLD,
            r.ring_key_prefilter == 20,
    {
        ScanContextConfig {
            num_rings: 20,
            num_sectors: 60,
            max_range: F64::from_bits(MAX_RANGE),
            top_k: 5,
            descriptor_threshold: F32::from_bits(DESCRIPTOR_THRESHOLD),
            ring_key_prefilter: 20,
        }
    }
}

impl ScanContextConfig {
    pub open spec fn spec_in_range(self, p: Vec3) -> bool {
        let range = p.x.times(p.x).plus(p.y.times(p.y)).sqrt();
        !range.less(F64::from_bits(MIN_RANGE)) && !self.max_range.less(range)
    }

    /// The horizontal range of a point is neither too short nor too long.
    #[verifier::when_used_as_spec(spec_in_range)]
    pub fn in_range(self, p: Vec3) -> (r: bool)
        ensures
            r == self.in_range(p),
    {
        let range = p.x.times(p.x).plus(p.y.times(p.y)).sqrt();
        !range.less(F64::from_bits(MIN_RANGE)) && !self.max_range.less(range)
    }

    /// The ring of a point: its range in units of the ring width.
    pub open spec fn ring_of(self, p: Vec3) -> usize {
        let range = p.x.times(p.x).plus(p.y.times(p.y)).sqrt();
        let gap = self.max_range.over(F64::from_usize(self.num_rings));
        let ring = range.over(gap).to_usize();
        if ring < self.num_rings {
            ring
        } else {
            (self.num_rings - 1) as usize
        }
    }

    /// The sector of an azimuth, which is first brought to a full turn.
    pub open spec fn sector_of(self, azimuth: F64) -> usize {
        let full = if azimuth.less(F64::from_bits(0)) {
            azimuth.plus(F64::from_bits(TAU))
        } else {
            azimuth
        };
        let gap = F64::from_bits(TAU).over(F64::from_usize(self.num_sectors));
        let sector = full.over(gap).to_usize();
        if sector < self.num_sectors {
            sector
        } else {
            (self.num_sectors - 1) as usize
        }
    }

    /// The cell, in row-major order, that a point falls into.
    pub open spec fn cell_of(self, p: Vec3, azimuth: F64) -> int {
        self.ring_of(p) * self.num_sectors + self.sector_of(azimuth)
    }

    /// There is a cell for every point in range, and all cells can be counted.
    pub open spec fn covers(self, points: Seq<Vec3>) -> bool {
        &&& self.num_rings * self.num_sectors <= usize::MAX
        &&& (exists|i: int| 0 <= i < points.len() && self.in_range(#[trigger] points[i]))
            ==> self.num_rings > 0 && self.num_sectors > 0
    }

    /// The greatest height among the first `n` points of a cell.
    pub open spec fn tallest(
        self,
        points: Seq<Vec3>,
        azimuths: Seq<F64>,
        cell: int,
        n: nat,
    ) -> F32
        decreases n,
    {
        if n == 0 {
            F32::from_bits(LOWEST)
        } else {
            let before = self.tallest(points, azimuths, cell, (n - 1) as nat);
            let p = points[n - 1];
            let z = p.z.to_single();
            if self.in_range(p) && self.cell_of(p, azimuths[n - 1]) == cell && before.less(z) {
                z
            } else {
                before
            }
        }
    }

    /// The height recorded for a cell: zero where it has none.
    pub open spec fn height(self, points: Seq<Vec3>, azimuths: Seq<F64>, cell: int) -> F32 {
        let top = self.tallest(points, azimuths, cell, points.len());
        if top.infinite() {
            F32::from_bits(0)
        } else {
            top
        }
    }

    /// The descriptor holds the heights of the cells, and their means by ring
    /// and by sector.
    pub open spec fn describes(
        self,
        points: Seq<Vec3>,
        azimuths: Seq<F64>,
        r: ScanContextDescriptor,
    ) -> bool {
        &&& r.well_formed()
        &&& r.num_rings == self.num_rings
        &&& r.num_sectors == self.num_sectors
        &&& forall|cell: int|
            0 <= cell < r.matrix@.len() ==> #[trigger] r.matrix@[cell] == self.height(
                points,
                azimuths,
                cell,
            )
        &&& forall|ring: int|
            0 <= ring < self.num_rings ==> #[trigger] r.ring_key@[ring] == strided_sum(
                r.matrix@,
                ring * self.num_sectors,
                1,
                self.num_sectors as nat,
            ).over(F32::from_usize(self.num_sectors))
        &&& forall|sector: int|
            0 <= sector < self.num_sectors ==> #[trigger] r.sector_key@[sector] == strided_sum(
                r.matrix@,
                sector,
                self.num_sectors as int,
                self.num_rings as nat,
            ).over(F32::from_usize(self.num_rings))
    }

    /// The cell of a point in range.
    fn locate(self, p: Vec3, azimuth: F64) -> (r: usize)
        requires
            self.num_rings > 0,
            self.num_sectors > 0,
            self.num_rings * self.num_sectors <= usize::MAX,
        ensures
            r == self.cell_of(p, azimuth),
            r < self.num_rings * self.num_sectors,
    {
        let range = p.x.times(p.x).plus(p.y.times(p.y)).sqrt();
        let ring_gap = self.max_range.over(F64::from_usize(self.num_rings));
        let ring: usize = range.over(ring_gap).to_usize();
        let ring: usize = if ring < self.num_rings { ring } else { self.num_rings - 1 };
        let full = if azimuth.less(F64::from_bits(0)) {
            azimuth.plus(F64::from_bits(TAU))
        } else {
            azimuth
        };
        let sector_gap = F64::from_bits(TAU).over(F64::from_usize(self.num_sectors));
        let sector: usize = full.over(sector_gap).to_usize();
        let sector: usize = if sector < self.num_sectors { sector } else { self.num_sectors - 1 };
        proof {
            lemma_cell(ring as int, sector as int, self.num_rings as int, self.num_sectors as int);
        }
        ring * self.num_sectors + sector
    }
}

/// A row and a column inside a grid make a position inside the grid.
proof fn lemma_cell(row: int, column: int, rows: int, columns: int)
    requires
        0 <= row < rows,
        0 <= column < columns,
    ensures
        0 <= row * columns <= row * columns + column < rows * columns,
        (row * columns + column) / columns == row,
        (row * columns + column) % columns == column,
{
    assert(0 <= row * columns && row * columns + columns <= rows * columns) by (nonlinear_arith)
        requires
            0 <= row < rows,
            0 <= column < columns,
    ;
    lemma_fundamental_div_mod_converse(row * columns + column, columns, row, column);
}

/// The sum of `n` entries of `m`, `stride` apart, from `start` on.
pub open spec fn strided_sum(m: Seq<F32>, start: int, stride: int, n: nat) -> F32
    decreases n,
{
    if n == 0 {
        F32::from_bits(0)
    } else {
        strided_sum(m, start, stride, (n - 1) as nat).plus(m[start + (n - 1) * stride])
    }
}

/// A Scan Context descriptor computed from a point cloud.
#[derive(Debug)]
pub struct ScanContextDescriptor {
    /// Max-height matrix (rings x sectors), stored row-major
    pub matrix: Vec<F32>,
    /// Ring key: mean value per ring (used for fast pre-filtering)
    pub ring_key: Vec<F32>,
    /// Sector key: mean value per sector
    pub sector_key: Vec<F32>,
    /// Number of rings
    pub num_rings: usize,
    /// Number of sectors
    pub num_sectors: usize,
}

impl ScanContextDescriptor {
    /// The three tables have the sizes that the numbers of rings and sectors
    /// ask for.
    pub open spec fn well_formed(self) -> bool {
        &&& self.matrix@.len() == self.num_rings * self.num_sectors
        &&& self.ring_key@.len() == self.num_rings
        &&& self.sector_key@.len() == self.num_sectors
    }

    /// Two descriptors that can be compared.
    pub open spec fn matches(self, other: ScanContextDescriptor) -> bool {
        &&& self.well_formed()
        &&& other.well_formed()
        &&& self.num_rings == other.num_rings
        &&& self.num_sectors == other.num_sectors
    }

    /// The same tables.
    pub open spec fn same_as(self, other: ScanContextDescriptor) -> bool {
        &&& self.matrix@ == other.matrix@
        &&& self.ring_key@ == other.ring_key@
        &&& self.sector_key@ == other.sector_key@
        &&& self.num_rings == other.num_rings
        &&& self.num_sectors == other.num_sectors
    }

    /// Compute a Scan Context descriptor from a 3D point cloud.
    ///
    /// `azimuths` holds the angle of each point around the vertical axis.
    pub fn from_points(points: &Vec<Vec3>, azimuths: &Vec<F64>, config: &ScanContextConfig) -> (r:
        ScanContextDescriptor)
        requires
            azimuths@.len() == points@.len(),
            config.covers(points@),
        ensures
            config.describes(points@, azimuths@, r),
    {
        let matrix = Self::heights(points, azimuths, config);
        let nr: usize = config.num_rings;
        let ns: usize = config.num_sectors;
        let mut ring_key: Vec<F32> = Vec::new();
        let mut ring: usize = 0;
        while ring < nr
            invariant
                ring <= nr,
                nr == config.num_rings,
                ns == config.num_sectors,
                matrix@.len() == nr * ns,
                ring_key@.len() == ring,
                forall|k: int|
                    0 <= k < ring ==> #[trigger] ring_key@[k] == strided_sum(
                        matrix@,
                        k * ns,
                        1,
                        ns as nat,
                    ).over(F32::from_usize(ns)),
            decreases nr - ring,
        {
            proof {
                assert(ring * ns + ns <= nr * ns && 0 <= ring * ns) by (nonlinear_arith)
                    requires
                        ring < nr,
                ;
                assert(matrix.len() == nr * ns);
            }
            let sum = Self::sum_from(&matrix, ring * ns, 1, ns);
            ring_key.push(sum.over(F32::from_usize(ns)));
            ring = ring + 1;
        }
        let mut sector_key: Vec<F32> = Vec::new();
        let mut sector: usize = 0;
        while sector < ns
            invariant
                sector <= ns,
                nr == config.num_rings,
                ns == config.num_sectors,
                matrix@.len() == nr * ns,
                sector_key@.len() == sector,
                forall|k: int|
                    0 <= k < sector ==> #[trigger] sector_key@[k] == strided_sum(
                        matrix@,
                        k,
                        ns as int,
                        nr as nat,
                    ).over(F32::from_usize(nr)),
            decreases ns - sector,
        {
            proof {
                assert(sector + (nr - 1) * ns < nr * ns) by (nonlinear_arith)
                    requires
                        sector < ns,
                ;
            }
            let sum = Self::sum_from(&matrix, sector, ns, nr);
            sector_key.push(sum.over(F32::from_usize(nr)));
            sector = sector + 1;
        }
        ScanContextDescriptor { matrix, ring_key, sector_key, num_rings: nr, num_sectors: ns }
    }

    /// The sum of `n` entries, `stride` apart.
    fn sum_from(m: &Vec<F32>, start: usize, stride: usize, n: usize) -> (r: F32)
        requires
            n > 0 ==> start + (n - 1) * stride < m@.len(),
        ensures
            r == strided_sum(m@, start as int, stride as int, n as nat),
    {
        let mut sum = F32::from_bits(0);
        let mut i: usize = 0;
        while i < n
            invariant
                i <= n,
                n > 0 ==> start + (n - 1) * stride < m.len(),
                sum == strided_sum(m@, start as int, stride as int, i as nat),
            decreases n - i,
        {
            proof {
                assert(0 <= i * stride <= (n - 1) * stride) by (nonlinear_arith)
                    requires
                        0 <= i < n,
                        stride >= 0,
                ;
            }
            sum = sum.plus(m[start + i * stride]);
            i = i + 1;
        }
        sum
    }

    /// The heights of all cells.
    fn heights(points: &Vec<Vec3>, azimuths: &Vec<F64>, config: &ScanContextConfig) -> (r: Vec<
        F32,
    >)
        requires
            azimuths@.len() == points@.len(),
            config.covers(points@),
        ensures
            r@.len() == config.num_rings * config.num_sectors,
            forall|cell: int|
                0 <= cell < r@.len() ==> #[trigger] r@[cell] == config.height(
                    points@,
                    azimuths@,
                    cell,
                ),
    {
        let total: usize = config.num_rings * config.num_sectors;
        let mut matrix: Vec<F32> = Vec::new();
        let mut cell: usize = 0;
        while cell < total
            invariant
                cell <= total,
                matrix@.len() == cell,
                forall|k: int|
                    0 <= k < cell ==> #[trigger] matrix@[k] == config.tallest(
                        points@,
                        azimuths@,
                        k,
                        0,
                    ),
            decreases total - cell,
        {
            matrix.push(F32::from_bits(LOWEST));
            cell = cell + 1;
        }
        let mut n: usize = 0;
        while n < points.len()
            invariant
                n <= points.len(),
                azimuths@.len() == points@.len(),
                config.covers(points@),
                total == config.num_rings * config.num_sectors,
                matrix@.len() == total,
                forall|k: int|
                    0 <= k < total ==> #[trigger] matrix@[k] == config.tallest(
                        points@,
                        azimuths@,
                        k,
                        n as nat,
                    ),
            decreases points.len() - n,
        {
            let p = points[n];
            let ghost before = matrix@;
            if config.in_range(p) {
                assert(config.in_range(points@[n as int]));
                let at: usize = config.locate(p, azimuths[n]);
                let z = p.z.to_single();
                if matrix[at].less(z) {
                    matrix.set(at, z);
                }
            }
            n = n + 1;
            assert forall|k: int| 0 <= k < total implies #[trigger] matrix@[k] == config.tallest(
                points@,
                azimuths@,
                k,
                n as nat,
            ) by {
                assert(before[k] == config.tallest(points@, azimuths@, k, (n - 1) as nat));
            }
        }
        let mut cell: usize = 0;
        while cell < total
            invariant
                cell <= total,
                n == points@.len(),
                matrix@.len() == total,
                forall|k: int|
                    0 <= k < cell ==> #[trigger] matrix@[k] == config.height(points@, azimuths@, k),
                forall|k: int|
                    cell <= k < total ==> #[trigger] matrix@[k] == config.tallest(
                        points@,
                        azimuths@,
                        k,
                        n as nat,
                    ),
            decreases total - cell,
        {
            if matrix[cell].is_infinite() {
                matrix.set(cell, F32::from_bits(0));
            }
            cell = cell + 1;
        }
        matrix
    }
}

/// The position that faces position `k` when the columns are shifted.
pub open spec fn facing(k: int, columns: int, shift: int) -> int {
    (k / columns) * columns + (k % columns + shift) % columns
}

/// The running sums of a cosine.
#[derive(Clone, Copy)]
pub struct Products {
    pub dot: F64,
    pub norm_a: F64,
    pub norm_b: F64,
}

/// The sums over the first `n` cells, with the columns of `b` shifted.
pub open spec fn products(a: Seq<F32>, b: Seq<F32>, columns: int, shift: int, n: nat) -> Products
    decreases n,
{
    if n == 0 {
        let zero = F64::from_bits(0);
        Products { dot: zero, norm_a: zero, norm_b: zero }
    } else {
        let before = products(a, b, columns, shift, (n - 1) as nat);
        let x = a[n - 1].to_double();
        let y = b[facing(n - 1, columns, shift)].to_double();
        Products {
            dot: before.dot.plus(x.times(y)),
            norm_a: before.norm_a.plus(x.times(x)),
            norm_b: before.norm_b.plus(y.times(y)),
        }
    }
}

pub open spec fn spec_held(cosine: F64) -> F64 {
    let one = F64::from_bits(ONE);
    if one.less(cosine) {
        one
    } else if cosine.less(one.negated()) {
        one.negated()
    } else {
        cosine
    }
}

/// The number, held to the range from minus one to one.
#[verifier::when_used_as_spec(spec_held)]
pub fn held(cosine: F64) -> (r: F64)
    ensures
        r == held(cosine),
{
    let one = F64::from_bits(ONE);
    if one.less(cosine) {
        one
    } else if cosine.less(one.negated()) {
        one.negated()
    } else {
        cosine
    }
}

impl Products {
    /// The cosine as the sums give it; a vector without direction counts as
    /// orthogonal. Rounding can carry it a little past one.
    pub open spec fn rough_cosine(self) -> F64 {
        let denom = self.norm_a.times(self.norm_b).sqrt();
        if F64::from_bits(LEAST_NORM).less(denom) {
            self.dot.over(denom)
        } else {
            F64::from_bits(0)
        }
    }

    /// One less the cosine, which is held to the range that cosines have.
    pub open spec fn spec_distance(self) -> F32 {
        F64::from_bits(ONE).minus(held(self.rough_cosine())).to_single()
    }

    /// One less the cosine, which is held to the range that cosines have; a
    /// vector without direction counts as orthogonal.
    #[verifier::when_used_as_spec(spec_distance)]
    pub fn distance(self) -> (r: F32)
        ensures
            r == self.distance(),
    {
        let denom = self.norm_a.times(self.norm_b).sqrt();
        let cosine = if F64::from_bits(LEAST_NORM).less(denom) {
            self.dot.over(denom)
        } else {
            F64::from_bits(0)
        };
        F64::from_bits(ONE).minus(held(cosine)).to_single()
    }
}

/// The cosine distance of two matrices at one column shift.
pub open spec fn shift_distance(a: Seq<F32>, b: Seq<F32>, columns: int, shift: int) -> F32 {
    products(a, b, columns, shift, a.len()).distance()
}

/// The least distance over the first `n` shifts, and the first shift that
/// attains it.
pub open spec fn best_shift(a: Seq<F32>, b: Seq<F32>, columns: int, n: nat) -> (F32, usize)
    decreases n,
{
    if n == 0 {
        (F32::from_bits(LARGEST), 0)
    } else {
        let before = best_shift(a, b, columns, (n - 1) as nat);
        let here = shift_distance(a, b, columns, n - 1);
        if here.less(before.0) {
            (here, (n - 1) as usize)
        } else {
            before
        }
    }
}

/// The sum of squared differences of the first `n` entries.
pub open spec fn squared_gap(a: Seq<F32>, b: Seq<F32>, n: nat) -> F32
    decreases n,
{
    if n == 0 {
        F32::from_bits(0)
    } else {
        let d = a[n - 1].minus(b[n - 1]);
        squared_gap(a, b, (n - 1) as nat).plus(d.times(d))
    }
}

impl ScanContextDescriptor {
    /// The result of `distance`.
    pub open spec fn distance_spec(self, other: ScanContextDescriptor) -> (F32, usize) {
        best_shift(
            self.matrix@,
            other.matrix@,
            self.num_sectors as int,
            self.num_sectors as nat,
        )
    }

    /// The result of `ring_key_distance`.
    pub open spec fn ring_key_distance_spec(self, other: ScanContextDescriptor) -> F32 {
        squared_gap(self.ring_key@, other.ring_key@, self.ring_key@.len()).sqrt()
    }

    /// Compute the column-shift cosine distance to another descriptor.
    pub fn distance(&self, other: &ScanContextDescriptor) -> (r: (F32, usize))
        requires
            self.matches(*other),
        ensures
            r == self.distance_spec(*other),
    {
        let ns: usize = self.num_sectors;
        let mut best: (F32, usize) = (F32::from_bits(LARGEST), 0);
        let mut shift: usize = 0;
        while shift < ns
            invariant
                shift <= ns,
                ns == self.num_sectors,
                self.matches(*other),
                best == best_shift(self.matrix@, other.matrix@, ns as int, shift as nat),
            decreases ns - shift,
        {
            let here = self.products_at(other, shift).distance();
            if here.less(best.0) {
                best = (here, shift);
            }
            shift = shift + 1;
        }
        best
    }

    /// The sums of the cosine at one shift.
    fn products_at(&self, other: &ScanContextDescriptor, shift: usize) -> (r: Products)
        requires
            self.matches(*other),
            shift < self.num_sectors,
        ensures
            r == products(
                self.matrix@,
                other.matrix@,
                self.num_sectors as int,
                shift as int,
                self.matrix@.len(),
            ),
    {
        let ns: usize = self.num_sectors;
        let zero = F64::from_bits(0);
        let mut sums = Products { dot: zero, norm_a: zero, norm_b: zero };
        let mut ring: usize = 0;
        proof {
            lemma_mul_by_zero_is_zero(ns as int);
        }
        while ring < self.num_rings
            invariant
                ring <= self.num_rings,
                ns == self.num_sectors,
                shift < ns,
                self.matches(*other),
                sums == products(
                    self.matrix@,
                    other.matrix@,
                    ns as int,
                    shift as int,
                    (ring * ns) as nat,
                ),
            decreases self.num_rings - ring,
        {
            let mut sector: usize = 0;
            while sector < ns
                invariant
                    ring < self.num_rings,
                    sector <= ns,
                    ns == self.num_sectors,
                    shift < ns,
                    self.matches(*other),
                    sums == products(
                        self.matrix@,
                        other.matrix@,
                        ns as int,
                        shift as int,
                        (ring * ns + sector) as nat,
                    ),
                decreases ns - sector,
            {
                let turned: usize = if sector < ns - shift {
                    sector + shift
                } else {
                    sector - (ns - shift)
                };
                proof {
                    lemma_cell(
                        ring as int,
                        sector as int,
                        self.num_rings as int,
                        ns as int,
                    );
                    lemma_cell(
                        ring as int,
                        turned as int,
                        self.num_rings as int,
                        ns as int,
                    );
                    assert(self.matrix.len() == self.num_rings * ns);
                    lemma_wrap(sector as int, shift as int, ns as int);
                }
                let x = self.matrix[ring * ns + sector].to_double();
                let y = other.matrix[ring * ns + turned].to_double();
                sums = Products {
                    dot: sums.dot.plus(x.times(y)),
                    norm_a: sums.norm_a.plus(x.times(x)),
                    norm_b: sums.norm_b.plus(y.times(y)),
                };
                sector = sector + 1;
            }
            proof {
                assert((ring + 1) * ns == ring * ns + ns) by (nonlinear_arith);
            }
            ring = ring + 1;
        }
        sums
    }

    /// Compute L2 distance between ring keys (fast pre-filter).
    pub fn ring_key_distance(&self, other: &ScanContextDescriptor) -> (r: F32)
        requires
            self.ring_key@.len() == other.ring_key@.len(),
        ensures
            r == self.ring_key_distance_spec(*other),
    {
        let mut sum = F32::from_bits(0);
        let mut i: usize = 0;
        while i < self.ring_key.len()
            invariant
                i <= self.ring_key.len(),
                self.ring_key@.len() == other.ring_key@.len(),
                sum == squared_gap(self.ring_key@, other.ring_key@, i as nat),
            decreases self.ring_key.len() - i,
        {
            let d = self.ring_key[i].minus(other.ring_key[i]);
            sum = sum.plus(d.times(d));
            i = i + 1;
        }
        sum.sqrt()
    }
}

/// A sum of two numbers below `n`, brought below `n`.
proof fn lemma_wrap(a: int, b: int, n: int)
    requires
        0 <= a < n,
        0 <= b < n,
    ensures
        (a + b) % n == if a < n - b { a + b } else { a - (n - b) },
{
    if a < n - b {
        lemma_small_mod((a + b) as nat, n as nat);
    } else {
        lemma_fundamental_div_mod_converse(a + b, n, 1, a + b - n);
    }
}

fn copied(v: &Vec<F32>) -> (r: Vec<F32>)
    ensures
        r@ == v@,
{
    let mut r: Vec<F32> = Vec::new();
    let mut i: usize = 0;
    while i < v.len()
        invariant
            i <= v.len(),
            r@ == v@.take(i as int),
        decreases v.len() - i,
    {
        r.push(v[i]);
        i = i + 1;
        assert(v@.take(i as int) =~= v@.take(i - 1).push(v@[i - 1]));
    }
    assert(v@.take(i as int) =~= v@);
    r
}

impl Clone for ScanContextDescriptor {
    fn clone(&self) -> (r: ScanContextDescriptor)
        ensures
            r.same_as(*self),
    {
        ScanContextDescriptor {
            matrix: copied(&self.matrix),
            ring_key: copied(&self.ring_key),
            sector_key: copied(&self.sector_key),
            num_rings: self.num_rings,
            num_sectors: self.num_sectors,
        }
    }
}

/// A candidate loop closure match from the scan context database.
#[derive(Clone, Copy, Debug)]
pub struct ScanContextCandidate {
    /// Keyframe ID of the candidate
    pub keyframe_id: usize,
    /// Scan context distance (lower = better, range [0, 2])
    pub distance: F32,
    /// Best column shift (corresponds to azimuthal rotation)
    pub best_shift: usize,
}

/// The position of the first entry from `from` on that bears the id.
pub open spec fn first_entry(
    entries: Seq<(usize, ScanContextDescriptor)>,
    id: usize,
    from: int,
) -> int
    decreases entries.len() - from,
{
    if from >= entries.len() || entries[from].0 == id {
        from
    } else {
        first_entry(entries, id, from + 1)
    }
}

/// The ring key distances of all entries to a query.
pub open spec fn ring_distances(
    entries: Seq<(usize, ScanContextDescriptor)>,
    query: ScanContextDescriptor,
) -> Seq<F32> {
    Seq::new(entries.len(), |i: int| query.ring_key_distance_spec(entries[i].1))
}

/// The distances of some candidates.
pub open spec fn distances_of(candidates: Seq<ScanContextCandidate>) -> Seq<F32> {
    Seq::new(candidates.len(), |i: int| candidates[i].distance)
}

/// The chosen candidates, in the order in which they are chosen.
pub open spec fn chosen(
    candidates: Seq<ScanContextCandidate>,
    order: Seq<usize>,
) -> Seq<ScanContextCandidate> {
    Seq::new(order.len(), |i: int| candidates[order[i] as int])
}

/// Of the entries at the first `n` positions of `order`, the candidates that
/// are near enough to the query.
pub open spec fn accepted(
    entries: Seq<(usize, ScanContextDescriptor)>,
    query: ScanContextDescriptor,
    threshold: F32,
    order: Seq<usize>,
    n: nat,
) -> Seq<ScanContextCandidate>
    decreases n,
{
    if n == 0 {
        Seq::empty()
    } else {
        let before = accepted(entries, query, threshold, order, (n - 1) as nat);
        let id = entries[order[n - 1] as int].0;
        let found = query.distance_spec(entries[first_entry(entries, id, 0)].1);
        if found.0.at_most(threshold) {
            before.push(
                ScanContextCandidate {
                    keyframe_id: id,
                    distance: found.0,
                    best_shift: found.1,
                },
            )
        } else {
            before
        }
    }
}

/// The smaller of two numbers.
pub open spec fn lesser(a: int, b: int) -> int {
    if a < b {
        a
    } else {
        b
    }
}

/// Database of Scan Context descriptors for fast candidate retrieval.
pub struct ScanContextDatabase {
    config: ScanContextConfig,
    entries: Vec<(usize, ScanContextDescriptor)>,
}

impl View for ScanContextDatabase {
    type V = Seq<(usize, ScanContextDescriptor)>;

    closed spec fn view(&self) -> Seq<(usize, ScanContextDescriptor)> {
        self.entries@
    }
}

impl ScanContextDatabase {
    /// The configuration that the database was made with.
    pub closed spec fn settings(&self) -> ScanContextConfig {
        self.config
    }

    /// Every entry can be compared with the query.
    pub open spec fn admits(&self, query: ScanContextDescriptor) -> bool {
        forall|i: int| 0 <= i < self@.len() ==> query.matches((#[trigger] self@[i]).1)
    }

    /// What `find_candidates` returns: of the entries with the nearest ring
    /// keys those within the threshold, the nearest first.
    pub open spec fn candidates(&self, query: ScanContextDescriptor) -> Seq<
        ScanContextCandidate,
    > {
        let by_ring = crate::ordering::order_of(ring_distances(self@, query), self@.len());
        let found = accepted(
            self@,
            query,
            self.settings().descriptor_threshold,
            by_ring,
            lesser(self.settings().ring_key_prefilter as int, self@.len() as int) as nat,
        );
        let sorted = chosen(found, crate::ordering::order_of(distances_of(found), found.len()));
        sorted.take(lesser(self.settings().top_k as int, sorted.len() as int))
    }

    /// Create a new empty database.
    pub fn new(config: ScanContextConfig) -> (r: ScanContextDatabase)
        ensures
            r@ == Seq::<(usize, ScanContextDescriptor)>::empty(),
            r.settings() == config,
    {
        ScanContextDatabase { config, entries: Vec::new() }
    }

    /// Insert a descriptor for a keyframe.
    pub fn insert(&mut self, keyframe_id: usize, descriptor: ScanContextDescriptor)
        ensures
            final(self)@ == old(self)@.push((keyframe_id, descriptor)),
            final(self).settings() == old(self).settings(),
    {
        self.entries.push((keyframe_id, descriptor));
    }

    /// Find the top-K candidate keyframe IDs for a query descriptor.
    pub fn find_candidates(&self, query: &ScanContextDescriptor) -> (r: Vec<ScanContextCandidate>)
        requires
            self.admits(*query),
        ensures
            r@ == self.candidates(*query),
    {
        let count: usize = self.entries.len();
        let mut keys: Vec<F32> = Vec::new();
        let mut i: usize = 0;
        while i < count
            invariant
                i <= count,
                count == self.entries.len(),
                self.admits(*query),
                keys@ == ring_distances(self@, *query).take(i as int),
            decreases count - i,
        {
            proof {
                assert(query.matches(self@[i as int].1));
            }
            keys.push(query.ring_key_distance(&self.entries[i].1));
            i = i + 1;
            assert(keys@ =~= ring_distances(self@, *query).take(i as int));
        }
        assert(keys@ =~= ring_distances(self@, *query));
        let by_ring = stable_order(&keys);
        let near: usize = if self.config.ring_key_prefilter < count {
            self.config.ring_key_prefilter
        } else {
            count
        };
        let found = self.screen(query, &by_ring, near);
        let mut distances: Vec<F32> = Vec::new();
        let mut i: usize = 0;
        while i < found.len()
            invariant
                i <= found.len(),
                distances@ == distances_of(found@).take(i as int),
            decreases found.len() - i,
        {
            distances.push(found[i].distance);
            i = i + 1;
            assert(distances@ =~= distances_of(found@).take(i as int));
        }
        assert(distances@ =~= distances_of(found@));
        let order = stable_order(&distances);
        let ghost sorted = chosen(found@, order@);
        let take: usize = if self.config.top_k < order.len() {
            self.config.top_k
        } else {
            order.len()
        };
        let mut r: Vec<ScanContextCandidate> = Vec::new();
        let mut i: usize = 0;
        while i < take
            invariant
                i <= take <= order.len(),
                crate::ordering::is_arrangement(order@, found@.len()),
                sorted == chosen(found@, order@),
                r@ == sorted.take(i as int),
            decreases take - i,
        {
            r.push(found[order[i]]);
            i = i + 1;
            assert(r@ =~= sorted.take(i as int));
        }
        r
    }

    /// The near enough candidates among the entries that come first.
    fn screen(&self, query: &ScanContextDescriptor, order: &Vec<usize>, near: usize) -> (r: Vec<
        ScanContextCandidate,
    >)
        requires
            self.admits(*query),
            crate::ordering::is_arrangement(order@, self@.len()),
            near <= order@.len(),
        ensures
            r@ == accepted(
                self@,
                *query,
                self.settings().descriptor_threshold,
                order@,
                near as nat,
            ),
    {
        let mut r: Vec<ScanContextCandidate> = Vec::new();
        let mut n: usize = 0;
        while n < near
            invariant
                n <= near <= order@.len(),
                self.admits(*query),
                crate::ordering::is_arrangement(order@, self@.len()),
                r@ == accepted(
                    self@,
                    *query,
                    self.settings().descriptor_threshold,
                    order@,
                    n as nat,
                ),
            decreases near - n,
        {
            let id: usize = self.entries[order[n]].0;
            let mut at: usize = 0;
            let ghost here = order@[n as int] as int;
            while self.entries[at].0 != id
                invariant
                    at <= here < self.entries.len(),
                    self.entries@[here].0 == id,
                    first_entry(self@, id, 0) == first_entry(self@, id, at as int),
                decreases self.entries.len() - at,
            {
                at = at + 1;
            }
            proof {
                assert(query.matches(self@[at as int].1));
            }
            let (distance, best_shift) = query.distance(&self.entries[at].1);
            if distance.at_most(self.config.descriptor_threshold) {
                r.push(ScanContextCandidate { keyframe_id: id, distance, best_shift });
            }
            n = n + 1;
        }
        r
    }

    /// Number of entries in the database.
    pub fn len(&self) -> (r: usize)
        ensures
            r == self@.len(),
    {
        self.entries.len()
    }

    /// Check if database is empty.
    pub fn is_empty(&self) -> (r: bool)
        ensures
            r == (self@.len() == 0),
    {
        self.entries.len() == 0
    }

    /// Get all entries (for serialization).
    pub fn entries(&self) -> (r: &Vec<(usize, ScanContextDescriptor)>)
        ensures
            r@ == self@,
    {
        &self.entries
    }

    /// Get the config.
    pub fn config(&self) -> (r: &ScanContextConfig)
        ensures
            *r == self.settings(),
    {
        &self.config
    }
}

proof fn lemma_best(a: Seq<F32>, b: Seq<F32>, columns: int, n: nat)
    requires
        n <= usize::MAX,
    ensures
        ({
            let best = best_shift(a, b, columns, n);
            &&& !best.0.nan()
            &&& forall|s: int|
                0 <= s < n ==> !(#[trigger] shift_distance(a, b, columns, s)).less(best.0)
            &&& forall|s: int|
                0 <= s < best.1 ==> !(#[trigger] shift_distance(a, b, columns, s)).at_most(best.0)
            &&& best.1 < n && best.0 == shift_distance(a, b, columns, best.1 as int) || best == (
                F32::from_bits(LARGEST),
                0usize,
            )
        }),
    decreases n,
{
    reveal(F32::spec_less);
    reveal(F32::spec_at_most);
    if n > 0 {
        lemma_best(a, b, columns, (n - 1) as nat);
    }
}

/// The distance is the least over all column shifts, and the shift is the
/// first that attains it.
pub proof fn distance_is_the_least_over_all_shifts(
    a: ScanContextDescriptor,
    b: ScanContextDescriptor,
)
    ensures
        ({
            let (ma, mb, ns) = (a.matrix@, b.matrix@, a.num_sectors as int);
            let best = a.distance_spec(b);
            &&& forall|s: int|
                0 <= s < ns ==> !(#[trigger] shift_distance(ma, mb, ns, s)).less(best.0)
            &&& forall|s: int|
                0 <= s < best.1 ==> !(#[trigger] shift_distance(ma, mb, ns, s)).at_most(best.0)
            &&& best.1 < ns && best.0 == shift_distance(ma, mb, ns, best.1 as int) || best == (
                F32::from_bits(LARGEST),
                0usize,
            )
        }),
{
    lemma_best(a.matrix@, b.matrix@, a.num_sectors as int, a.num_sectors as nat);
}

/// `turned` is `m` with every row moved on by `by` columns.
pub open spec fn is_turned(m: Seq<F32>, turned: Seq<F32>, columns: int, by: int) -> bool {
    &&& turned.len() == m.len()
    &&& forall|k: int| 0 <= k < m.len() ==> #[trigger] turned[k] == m[facing(k, columns, by)]
}

/// A facing position lies in the same grid, and facing twice adds the shifts.
proof fn lemma_facing(k: int, rows: int, columns: int, first: int, second: int)
    requires
        0 <= k < rows * columns,
        columns > 0,
        0 <= first,
        0 <= second,
    ensures
        0 <= facing(k, columns, first) < rows * columns,
        facing(facing(k, columns, first), columns, second) == facing(
            k,
            columns,
            (first + second) % columns,
        ),
{
    let row = k / columns;
    let column = k % columns;
    lemma_fundamental_div_mod(k, columns);
    assert(0 <= row < rows) by (nonlinear_arith)
        requires
            k == columns * row + column,
            0 <= column < columns,
            0 <= k < rows * columns,
    ;
    let moved = (column + first) % columns;
    lemma_cell(row, moved, rows, columns);
    lemma_add_mod_noop(column + first, second, columns);
    lemma_add_mod_noop(column, first + second, columns);
    lemma_mod_twice(column + first, columns);
    lemma_small_mod(column as nat, columns as nat);
    lemma_add_mod_noop_right(column, first + second, columns);
    assert((moved + second) % columns == (column + first + second) % columns) by {
        lemma_add_mod_noop_right(second, column + first, columns);
    }
}

proof fn lemma_turned_products(
    a: Seq<F32>,
    b: Seq<F32>,
    c: Seq<F32>,
    rows: int,
    columns: int,
    by: int,
    shift: int,
    n: nat,
)
    requires
        b.len() == rows * columns,
        n <= b.len(),
        columns > 0,
        0 <= by,
        0 <= shift,
        is_turned(b, c, columns, by),
    ensures
        products(a, c, columns, shift, n) == products(a, b, columns, (shift + by) % columns, n),
    decreases n,
{
    if n > 0 {
        lemma_turned_products(a, b, c, rows, columns, by, shift, (n - 1) as nat);
        lemma_facing(n - 1, rows, columns, shift, by);
    }
}

/// Turning the sensor by whole sectors before a scan leaves the distance to
/// that scan as it was.
pub proof fn turning_by_sectors_keeps_the_distance(
    a: ScanContextDescriptor,
    b: ScanContextDescriptor,
    c: ScanContextDescriptor,
    by: int,
)
    requires
        a.matches(b),
        a.matches(c),
        0 <= by < a.num_sectors,
        is_turned(b.matrix@, c.matrix@, a.num_sectors as int, by),
    ensures
        !a.distance_spec(b).0.less(a.distance_spec(c).0),
        !a.distance_spec(c).0.less(a.distance_spec(b).0),
{
    let ns = a.num_sectors as int;
    let (ma, mb, mc) = (a.matrix@, b.matrix@, c.matrix@);
    distance_is_the_least_over_all_shifts(a, b);
    distance_is_the_least_over_all_shifts(a, c);
    let to_b = a.distance_spec(b);
    let to_c = a.distance_spec(c);
    let rows = a.num_rings as int;
    if to_c.0.less(to_b.0) {
        lemma_no_more_than_largest(ma, mb, ns, ns as nat);
        if to_c.0 == F32::from_bits(LARGEST) {
            reveal(F32::spec_less);
            reveal(F32::spec_at_most);
        }
        lemma_turned_products(ma, mb, mc, rows, ns, by, to_c.1 as int, ma.len());
        assert(0 <= (to_c.1 + by) % ns < ns);
        assert(to_c.0 == shift_distance(ma, mb, ns, (to_c.1 + by) % ns));
    }
    if to_b.0.less(to_c.0) {
        lemma_no_more_than_largest(ma, mc, ns, ns as nat);
        if to_b.0 == F32::from_bits(LARGEST) {
            reveal(F32::spec_less);
            reveal(F32::spec_at_most);
        }
        let back = (to_b.1 - by) % ns;
        assert(0 <= back < ns);
        lemma_turned_products(ma, mb, mc, rows, ns, by, back, ma.len());
        assert((back + by) % ns == to_b.1) by {
            lemma_add_mod_noop_right(by, to_b.1 - by, ns);
            lemma_small_mod(to_b.1 as nat, ns as nat);
        }
        assert(to_b.0 == shift_distance(ma, mc, ns, back));
    }
}

/// No distance exceeds the largest finite number.
proof fn lemma_no_more_than_largest(a: Seq<F32>, b: Seq<F32>, columns: int, n: nat)
    requires
        n <= usize::MAX,
    ensures
        best_shift(a, b, columns, n).0.at_most(F32::from_bits(LARGEST)),
    decreases n,
{
    reveal(F32::spec_less);
    reveal(F32::spec_at_most);
    if n > 0 {
        lemma_no_more_than_largest(a, b, columns, (n - 1) as nat);
    }
}

/// The candidate stands for an entry: the first one that bears its id.
pub open spec fn stands_for_an_entry(
    entries: Seq<(usize, ScanContextDescriptor)>,
    query: ScanContextDescriptor,
    candidate: ScanContextCandidate,
) -> bool {
    let at = first_entry(entries, candidate.keyframe_id, 0);
    &&& 0 <= at < entries.len()
    &&& entries[at].0 == candidate.keyframe_id
    &&& query.distance_spec(entries[at].1) == (candidate.distance, candidate.best_shift)
}

proof fn lemma_first_entry(
    entries: Seq<(usize, ScanContextDescriptor)>,
    id: usize,
    from: int,
    known: int,
)
    requires
        0 <= from <= known < entries.len(),
        entries[known].0 == id,
    ensures
        from <= first_entry(entries, id, from) <= known,
        entries[first_entry(entries, id, from)].0 == id,
    decreases known - from,
{
    if entries[from].0 != id {
        lemma_first_entry(entries, id, from + 1, known);
    }
}

proof fn lemma_accepted(
    entries: Seq<(usize, ScanContextDescriptor)>,
    query: ScanContextDescriptor,
    threshold: F32,
    order: Seq<usize>,
    n: nat,
)
    requires
        crate::ordering::is_arrangement(order, entries.len()),
        n <= order.len(),
    ensures
        ({
            let r = accepted(entries, query, threshold, order, n);
            &&& r.len() <= n
            &&& forall|i: int|
                0 <= i < r.len() ==> (#[trigger] r[i]).distance.at_most(threshold)
                    && stands_for_an_entry(entries, query, r[i])
        }),
    decreases n,
{
    if n > 0 {
        lemma_accepted(entries, query, threshold, order, (n - 1) as nat);
        let at = order[n - 1] as int;
        lemma_first_entry(entries, entries[at].0, 0, at);
    }
}

/// The candidates are no more than was asked for, each is within the
/// threshold and stands for an entry, and no candidate is followed by a
/// nearer one.
pub proof fn candidates_are_near_and_sorted(
    database: &ScanContextDatabase,
    query: ScanContextDescriptor,
)
    requires
        database@.len() <= usize::MAX,
    ensures
        ({
            let r = database.candidates(query);
            &&& r.len() <= database.settings().top_k
            &&& r.len() <= database.settings().ring_key_prefilter
            &&& r.len() <= database@.len()
            &&& forall|i: int|
                0 <= i < r.len() ==> (#[trigger] r[i]).distance.at_most(
                    database.settings().descriptor_threshold,
                ) && stands_for_an_entry(database@, query, r[i])
            &&& forall|i: int, j: int|
                0 <= i < j < r.len() ==> !(#[trigger] r[j]).distance.less(
                    (#[trigger] r[i]).distance,
                )
        }),
{
    let entries = database@;
    let threshold = database.settings().descriptor_threshold;
    let by_ring = crate::ordering::order_of(ring_distances(entries, query), entries.len());
    crate::ordering::order_is_an_arrangement(ring_distances(entries, query), entries.len());
    let near = lesser(database.settings().ring_key_prefilter as int, entries.len() as int) as nat;
    lemma_accepted(entries, query, threshold, by_ring, near);
    let found = accepted(entries, query, threshold, by_ring, near);
    let keys = distances_of(found);
    assert(crate::ordering::comparable(keys)) by {
        reveal(F32::spec_at_most);
        assert forall|i: int| 0 <= i < keys.len() implies !(#[trigger] keys[i]).nan() by {
            assert(found[i].distance.at_most(threshold));
        }
    }
    crate::ordering::order_is_an_arrangement(keys, keys.len());
    crate::ordering::order_is_sorted_and_stable(keys, keys.len());
    let order = crate::ordering::order_of(keys, keys.len());
    let r = database.candidates(query);
    assert forall|i: int, j: int| 0 <= i < j < r.len() implies !(#[trigger] r[j]).distance.less(
        (#[trigger] r[i]).distance,
    ) by {
        reveal(F32::spec_less);
        assert(crate::ordering::comes_first(keys, order[i], order[j]));
        assert(keys[order[i] as int] == r[i].distance);
        assert(keys[order[j] as int] == r[j].distance);
    }
    assert forall|i: int| 0 <= i < r.len() implies (#[trigger] r[i]).distance.at_most(threshold)
        && stands_for_an_entry(entries, query, r[i]) by {
        assert(r[i] == found[order[i] as int]);
    }
}

/// No two entries bear the same id.
pub open spec fn has_distinct_ids(entries: Seq<(usize, ScanContextDescriptor)>) -> bool {
    forall|i: int, j: int|
        0 <= i < j < entries.len() ==> (#[trigger] entries[i]).0 != (#[trigger] entries[j]).0
}

/// The candidate that an entry makes.
pub open spec fn candidate_of(
    entry: (usize, ScanContextDescriptor),
    query: ScanContextDescriptor,
) -> ScanContextCandidate {
    let found = query.distance_spec(entry.1);
    ScanContextCandidate { keyframe_id: entry.0, distance: found.0, best_shift: found.1 }
}

impl ScanContextDatabase {
    /// The entry at a position is among those with the nearest ring keys.
    pub open spec fn passes_the_filter(&self, query: ScanContextDescriptor, p: int) -> bool {
        let by_ring = crate::ordering::order_of(ring_distances(self@, query), self@.len());
        let near = lesser(self.settings().ring_key_prefilter as int, self@.len() as int);
        exists|q: int| 0 <= q < near && #[trigger] by_ring[q] == p
    }
}

/// The position of the entry that an accepted candidate stands for.
proof fn lemma_accepted_from(
    entries: Seq<(usize, ScanContextDescriptor)>,
    query: ScanContextDescriptor,
    threshold: F32,
    order: Seq<usize>,
    n: nat,
    i: int,
) -> (k: int)
    requires
        n <= order.len(),
        0 <= i < accepted(entries, query, threshold, order, n).len(),
    ensures
        0 <= k < n,
        accepted(entries, query, threshold, order, n)[i].keyframe_id == entries[order[k] as int].0,
    decreases n,
{
    let m = (n - 1) as nat;
    if i < accepted(entries, query, threshold, order, m).len() {
        lemma_accepted_from(entries, query, threshold, order, m, i)
    } else {
        n - 1
    }
}

proof fn lemma_accepted_distinct(
    entries: Seq<(usize, ScanContextDescriptor)>,
    query: ScanContextDescriptor,
    threshold: F32,
    order: Seq<usize>,
    n: nat,
)
    requires
        crate::ordering::is_arrangement(order, entries.len()),
        has_distinct_ids(entries),
        n <= order.len(),
    ensures
        ({
            let r = accepted(entries, query, threshold, order, n);
            forall|i: int, j: int|
                0 <= i < j < r.len() ==> (#[trigger] r[i]).keyframe_id != (
                #[trigger] r[j]).keyframe_id
        }),
    decreases n,
{
    if n > 0 {
        let m = (n - 1) as nat;
        lemma_accepted_distinct(entries, query, threshold, order, m);
        let before = accepted(entries, query, threshold, order, m);
        let r = accepted(entries, query, threshold, order, n);
        assert forall|i: int, j: int| 0 <= i < j < r.len() implies (
        #[trigger] r[i]).keyframe_id != (#[trigger] r[j]).keyframe_id by {
            assert(r[i] == before[i]);
            if j < before.len() {
                assert(r[j] == before[j]);
            } else {
                let k = lemma_accepted_from(entries, query, threshold, order, m, i);
                let (p, q) = (order[k] as int, order[m as int] as int);
                assert(p != q);
                assert(entries[p].0 != entries[q].0);
            }
        }
    }
}

/// The place of an entry's candidate among the accepted ones.
proof fn lemma_accepted_holds(
    entries: Seq<(usize, ScanContextDescriptor)>,
    query: ScanContextDescriptor,
    threshold: F32,
    order: Seq<usize>,
    n: nat,
    k: int,
) -> (a: int)
    requires
        crate::ordering::is_arrangement(order, entries.len()),
        has_distinct_ids(entries),
        0 <= k < n <= order.len(),
        candidate_of(entries[order[k] as int], query).distance.at_most(threshold),
    ensures
        0 <= a < accepted(entries, query, threshold, order, n).len(),
        accepted(entries, query, threshold, order, n)[a] == candidate_of(
            entries[order[k] as int],
            query,
        ),
    decreases n,
{
    let m = (n - 1) as nat;
    if k < m {
        lemma_accepted_holds(entries, query, threshold, order, m, k)
    } else {
        let p = order[k] as int;
        lemma_first_entry(entries, entries[p].0, 0, p);
        let first = first_entry(entries, entries[p].0, 0);
        assert(first == p) by {
            if first < p {
                assert(entries[first].0 != entries[p].0);
            }
        }
        accepted(entries, query, threshold, order, m).len() as int
    }
}

/// Where the ids of the entries are distinct, so are those of the candidates.
pub proof fn candidates_are_distinct(database: &ScanContextDatabase, query: ScanContextDescriptor)
    requires
        database@.len() <= usize::MAX,
        has_distinct_ids(database@),
    ensures
        ({
            let r = database.candidates(query);
            forall|i: int, j: int|
                0 <= i < j < r.len() ==> (#[trigger] r[i]).keyframe_id != (
                #[trigger] r[j]).keyframe_id
        }),
{
    let entries = database@;
    let threshold = database.settings().descriptor_threshold;
    let by_ring = crate::ordering::order_of(ring_distances(entries, query), entries.len());
    crate::ordering::order_is_an_arrangement(ring_distances(entries, query), entries.len());
    let near = lesser(database.settings().ring_key_prefilter as int, entries.len() as int) as nat;
    lemma_accepted(entries, query, threshold, by_ring, near);
    lemma_accepted_distinct(entries, query, threshold, by_ring, near);
    let found = accepted(entries, query, threshold, by_ring, near);
    let order = crate::ordering::order_of(distances_of(found), found.len());
    crate::ordering::order_is_an_arrangement(distances_of(found), found.len());
    let r = database.candidates(query);
    assert forall|i: int, j: int| 0 <= i < j < r.len() implies (#[trigger] r[i]).keyframe_id != (
    #[trigger] r[j]).keyframe_id by {
        let (p, q) = (order[i] as int, order[j] as int);
        assert(r[i] == found[p] && r[j] == found[q]);
        assert(p != q);
        if p < q {
            assert(found[p].keyframe_id != found[q].keyframe_id);
        } else {
            assert(found[q].keyframe_id != found[p].keyframe_id);
        }
    }
}

/// No near entry is passed over: one that passes the filter and lies within the
/// threshold is among the candidates, unless as many as were asked for are
/// shown and none of them is farther away.
pub proof fn near_entries_are_found(
    database: &ScanContextDatabase,
    query: ScanContextDescriptor,
    p: int,
)
    requires
        database@.len() <= usize::MAX,
        has_distinct_ids(database@),
        0 <= p < database@.len(),
        database.passes_the_filter(query, p),
        candidate_of(database@[p], query).distance.at_most(
            database.settings().descriptor_threshold,
        ),
    ensures
        ({
            let r = database.candidates(query);
            let own = candidate_of(database@[p], query);
            ||| r.contains(own)
            ||| r.len() == database.settings().top_k && forall|i: int|
                0 <= i < r.len() ==> !own.distance.less((#[trigger] r[i]).distance)
        }),
{
    let entries = database@;
    let threshold = database.settings().descriptor_threshold;
    let by_ring = crate::ordering::order_of(ring_distances(entries, query), entries.len());
    crate::ordering::order_is_an_arrangement(ring_distances(entries, query), entries.len());
    let near = lesser(database.settings().ring_key_prefilter as int, entries.len() as int) as nat;
    lemma_accepted(entries, query, threshold, by_ring, near);
    let found = accepted(entries, query, threshold, by_ring, near);
    let q = choose|q: int| 0 <= q < near && #[trigger] by_ring[q] == p;
    let a = lemma_accepted_holds(entries, query, threshold, by_ring, near, q);
    let keys = distances_of(found);
    assert(crate::ordering::comparable(keys)) by {
        reveal(F32::spec_at_most);
        assert forall|i: int| 0 <= i < keys.len() implies !(#[trigger] keys[i]).nan() by {
            assert(found[i].distance.at_most(threshold));
        }
    }
    crate::ordering::order_is_an_arrangement(keys, keys.len());
    crate::ordering::order_is_sorted_and_stable(keys, keys.len());
    crate::ordering::order_leaves_nothing_out(keys, keys.len(), a as usize);
    let order = crate::ordering::order_of(keys, keys.len());
    let at = choose|at: int| 0 <= at < order.len() && order[at] == a;
    let r = database.candidates(query);
    let own = candidate_of(entries[p], query);
    if at < r.len() {
        assert(r[at] == own);
    } else {
        assert forall|i: int| 0 <= i < r.len() implies !own.distance.less(
            (#[trigger] r[i]).distance,
        ) by {
            reveal(F32::spec_less);
            assert(crate::ordering::comes_first(keys, order[i], order[at]));
            assert(keys[order[i] as int] == r[i].distance);
            assert(keys[a] == own.distance);
        }
    }
}

/// The filter keeps the entries with the nearest ring keys: one that it drops
/// has as many as are kept before it, none of them farther away.
pub proof fn the_filter_keeps_the_nearest(
    database: &ScanContextDatabase,
    query: ScanContextDescriptor,
    p: int,
) -> (kept: Seq<int>)
    requires
        database@.len() <= usize::MAX,
        0 <= p < database@.len(),
        !database.passes_the_filter(query, p),
        forall|i: int|
            0 <= i < database@.len() ==> !query.ring_key_distance_spec(
                (#[trigger] database@[i]).1,
            ).nan(),
    ensures
        kept.len() == database.settings().ring_key_prefilter,
        forall|i: int, j: int| 0 <= i < j < kept.len() ==> #[trigger] kept[i] != #[trigger] kept[j],
        forall|i: int|
            0 <= i < kept.len() ==> 0 <= #[trigger] kept[i] < database@.len()
                && database.passes_the_filter(query, kept[i]) && !query.ring_key_distance_spec(
                database@[p].1,
            ).less(query.ring_key_distance_spec(database@[kept[i]].1)),
{
    let entries = database@;
    let keys = ring_distances(entries, query);
    let by_ring = crate::ordering::order_of(keys, entries.len());
    assert(crate::ordering::comparable(keys)) by {
        assert forall|i: int| 0 <= i < keys.len() implies !(#[trigger] keys[i]).nan() by {
            assert(!query.ring_key_distance_spec(entries[i].1).nan());
        }
    }
    crate::ordering::order_is_an_arrangement(keys, entries.len());
    crate::ordering::order_is_sorted_and_stable(keys, entries.len());
    crate::ordering::order_leaves_nothing_out(keys, entries.len(), p as usize);
    let at = choose|at: int| 0 <= at < by_ring.len() && by_ring[at] == p;
    let near = lesser(database.settings().ring_key_prefilter as int, entries.len() as int);
    assert(at >= near) by {
        if at < near {
            assert(by_ring[at] == p);
        }
    }
    let kept = Seq::new(near as nat, |i: int| by_ring[i] as int);
    assert forall|i: int| 0 <= i < kept.len() implies 0 <= #[trigger] kept[i] < entries.len()
        && database.passes_the_filter(query, kept[i]) && !query.ring_key_distance_spec(
        entries[p].1,
    ).less(query.ring_key_distance_spec(entries[kept[i]].1)) by {
        assert(by_ring[i] == kept[i]);
        assert(crate::ordering::comes_first(keys, by_ring[i], by_ring[at]));
        reveal(F32::spec_less);
        assert(keys[kept[i]] == query.ring_key_distance_spec(entries[kept[i]].1));
        assert(keys[p] == query.ring_key_distance_spec(entries[p].1));
    }
    kept
}

/// Whether a point is in range depends on its horizontal distance alone: the
/// point is left out where that is less than the least or greater than the
/// greatest range, whatever its height.
pub proof fn ranges_are_horizontal(config: ScanContextConfig, p: Vec3)
    requires
        config.max_range.finite(),
        (crate::linear::Vec2 { x: p.x, y: p.y }).norm().finite(),
    ensures
        ({
            let square = p.x.value() * p.x.value() + p.y.value() * p.y.value();
            let (near, far) = (F64::from_bits(MIN_RANGE).value(), config.max_range.value());
            let rest = 0x1000_0000_0000 * crate::nearness::one_unit();
            &&& config.in_range(p) == (near <= (crate::linear::Vec2 {
                x: p.x,
                y: p.y,
            }).norm().value() <= far)
            &&& config.in_range(p) ==> far >= 0 && 0x80_0000_0000 * (near * near) <= square
                * 0x80_0000_0001 + rest && square * 0x7f_ffff_ffff <= 0x80_0000_0000 * (far * far)
                + rest
            &&& !config.in_range(p) ==> square * 0x7f_ffff_ffff <= 0x80_0000_0000 * (near * near)
                + rest || far < 0 || 0x80_0000_0000 * (far * far) < square * 0x80_0000_0001 + rest
            &&& forall|z: F64| #[trigger] config.in_range(Vec3 { z, ..p }) == config.in_range(p)
        }),
{
    let v = crate::linear::Vec2 { x: p.x, y: p.y };
    reveal(crate::linear::Vec2::spec_dot);
    let range = v.norm();
    let near = F64::from_bits(MIN_RANGE);
    crate::values::plane_lengths(v);
    crate::values::order_is_by_value(range, near);
    crate::values::order_is_by_value(config.max_range, range);
    crate::values::lemma_square(p.x.value());
    crate::values::lemma_square(p.y.value());
    lemma_pow2_pos(1074);
    let square = p.x.value() * p.x.value() + p.y.value() * p.y.value();
    let (n, r, m) = (range.value(), near.value(), config.max_range.value());
    assert(crate::values::spans(n, square));
    crate::values::lemma_bounded_span(n, square, r);
    crate::values::lemma_bounded_span(n, square, m);
    if n >= r {
        assert(r * r <= n * n) by (nonlinear_arith)
            requires
                0 <= r <= n,
        ;
    }
}

/// A whole part of a quotient, held below a limit.
proof fn lemma_share_of(a: F64, b: F64, limit: usize)
    requires
        a.finite(),
        b.finite(),
        !b.zero(),
        a.over(b).finite(),
        0 <= a.over(b).value(),
        limit > 0,
    ensures
        ({
            let n = a.over(b).to_usize();
            let q = a.over(b).value();
            let u = crate::nearness::one_unit();
            &&& n < limit ==> n * u <= q < (n + 1) * u
            &&& n >= limit ==> limit * u <= q
        }),
{
    let f = Format::double();
    let q = a.over(b).value();
    let u = crate::nearness::one_unit();
    reveal(F64::spec_to_usize);
    lemma_pow2_pos(1074);
    f.lemma_zero();
    crate::float::double::zero_has_no_value(a.over(b));
    vstd::arithmetic::div_mod::lemma_fundamental_div_mod(q, u);
    vstd::arithmetic::div_mod::lemma_mod_bound(q, u);
    vstd::arithmetic::div_mod::lemma_div_pos_is_pos(q, u);
    let n = q / u;
    assert(n * u <= q < (n + 1) * u) by (nonlinear_arith)
        requires
            q == u * n + q % u,
            0 <= q % u < u,
    ;
    if a.over(b).bits >= 0x8000_0000_0000_0000 {
        assert(q == 0);
        assert(n == 0) by (nonlinear_arith)
            requires
                q == u * n + q % u,
                0 <= q % u,
                q == 0,
                u > 0,
                n >= 0,
        ;
    }
    let m = a.over(b).to_usize();
    if m >= limit {
        assert(limit * u <= q) by (nonlinear_arith)
            requires
                n * u <= q,
                n >= limit,
                u > 0,
        ;
    }
}

/// The ring of a point is the number of whole ring widths in its horizontal
/// range, or the last ring; the width is the greatest range over the number of
/// rings.
pub proof fn rings_are_widths_apart(config: ScanContextConfig, p: Vec3)
    requires
        0 < config.num_rings < 0x20_0000_0000_0000,
        ({
            let gap = config.max_range.over(F64::from_usize(config.num_rings));
            let range = (crate::linear::Vec2 { x: p.x, y: p.y }).norm();
            &&& config.max_range.finite()
            &&& gap.finite()
            &&& gap.value() > 0
            &&& range.finite()
            &&& range.over(gap).finite()
            &&& range.over(gap).value() >= 0
        }),
    ensures
        ({
            let (u, e) = (crate::nearness::one_unit(), 0x10_0000_0000_0000int);
            let gap = config.max_range.over(F64::from_usize(config.num_rings)).value();
            let range = (crate::linear::Vec2 { x: p.x, y: p.y }).norm().value();
            let ring = config.ring_of(p);
            let q = (crate::linear::Vec2 { x: p.x, y: p.y }).norm().over(
                config.max_range.over(F64::from_usize(config.num_rings)),
            ).value();
            &&& ring < config.num_rings
            &&& ring * u <= q
            &&& ring < config.num_rings - 1 ==> q < (ring + 1) * u
            &&& crate::nearness::magnitude_of(q * gap - range * u) * e <= range * u + e * gap
            &&& crate::nearness::magnitude_of(
                gap * (config.num_rings * u) - config.max_range.value() * u,
            ) * e <= crate::nearness::magnitude_of(config.max_range.value()) * u + e * (
            config.num_rings * u)
        }),
{
    reveal(crate::linear::Vec2::spec_dot);
    let count = F64::from_usize(config.num_rings);
    let gap = config.max_range.over(count);
    let range = (crate::linear::Vec2 { x: p.x, y: p.y }).norm();
    lemma_pow2_pos(1074);
    let u = crate::nearness::one_unit();
    crate::values::whole_numbers_are_exact(config.num_rings);
    assert(config.num_rings * u > 0) by (nonlinear_arith)
        requires
            config.num_rings > 0,
            u > 0,
    ;
    crate::float::double::zero_has_no_value(count);
    crate::float::double::zero_has_no_value(gap);
    crate::values::quotients_are_about_exact(config.max_range, count);
    crate::values::quotients_are_about_exact(range, gap);
    crate::values::plane_lengths(crate::linear::Vec2 { x: p.x, y: p.y });
    lemma_share_of(range, gap, config.num_rings);
    let n = range.over(gap).to_usize();
    let q = range.over(gap).value();
    if n >= config.num_rings {
        assert((config.num_rings - 1) * u <= q) by (nonlinear_arith)
            requires
                config.num_rings * u <= q,
                u > 0,
        ;
    }
}

/// The sector of an azimuth is the number of whole sector widths in it, counted
/// around from zero to a full turn, or the last sector.
pub proof fn sectors_are_widths_apart(config: ScanContextConfig, azimuth: F64)
    requires
        0 < config.num_sectors < 0x20_0000_0000_0000,
        azimuth.finite(),
        ({
            let gap = F64::from_bits(TAU).over(F64::from_usize(config.num_sectors));
            let full = around(azimuth);
            &&& gap.finite()
            &&& gap.value() > 0
            &&& full.finite()
            &&& full.over(gap).finite()
            &&& full.over(gap).value() >= 0
        }),
    ensures
        ({
            let (u, e) = (crate::nearness::one_unit(), 0x10_0000_0000_0000int);
            let turn = F64::from_bits(TAU);
            let gap = turn.over(F64::from_usize(config.num_sectors));
            let full = around(azimuth);
            let sector = config.sector_of(azimuth);
            let q = full.over(gap).value();
            &&& sector < config.num_sectors
            &&& sector * u <= q
            &&& sector < config.num_sectors - 1 ==> q < (sector + 1) * u
            &&& crate::nearness::magnitude_of(q * gap.value() - full.value() * u) * e
                <= crate::nearness::magnitude_of(full.value()) * u + e * gap.value()
            &&& azimuth.value() >= 0 ==> full == azimuth
            &&& azimuth.value() < 0 ==> crate::values::about(
                full.value(),
                azimuth.value() + turn.value(),
                1,
                1,
            )
        }),
{
    let count = F64::from_usize(config.num_sectors);
    let gap = F64::from_bits(TAU).over(count);
    let full = around(azimuth);
    lemma_pow2_pos(1074);
    let u = crate::nearness::one_unit();
    crate::values::order_is_by_value(azimuth, F64::from_bits(0));
    crate::float::double::zero_has_no_value(F64::from_bits(0));
    if azimuth.value() < 0 {
        crate::values::sums_are_about_exact(azimuth, F64::from_bits(TAU));
    }
    crate::float::double::zero_has_no_value(gap);
    crate::values::quotients_are_about_exact(full, gap);
    lemma_share_of(full, gap, config.num_sectors);
    let n = full.over(gap).to_usize();
    let q = full.over(gap).value();
    if n >= config.num_sectors {
        assert((config.num_sectors - 1) * u <= q) by (nonlinear_arith)
            requires
                config.num_sectors * u <= q,
                u > 0,
        ;
    }
}

/// An azimuth, counted from zero to a full turn.
pub open spec fn around(azimuth: F64) -> F64 {
    if azimuth.less(F64::from_bits(0)) {
        azimuth.plus(F64::from_bits(TAU))
    } else {
        azimuth
    }
}

proof fn lemma_gap_commutes(a: Seq<F32>, b: Seq<F32>, n: nat)
    ensures
        squared_gap(a, b, n) == squared_gap(b, a, n),
    decreases n,
{
    if n > 0 {
        lemma_gap_commutes(a, b, (n - 1) as nat);
        crate::float::single::squared_gaps_commute(a[n - 1], b[n - 1]);
    }
}

/// The ring key distance is the same in both directions.
pub proof fn ring_key_distance_is_symmetric(a: ScanContextDescriptor, b: ScanContextDescriptor)
    requires
        a.ring_key@.len() == b.ring_key@.len(),
    ensures
        a.ring_key_distance_spec(b) == b.ring_key_distance_spec(a),
{
    lemma_gap_commutes(a.ring_key@, b.ring_key@, a.ring_key@.len());
}

/// The height recorded for a cell before the zeros are filled in is the
/// greatest of the heights of its points.
pub proof fn heights_are_the_greatest(
    config: ScanContextConfig,
    points: Seq<Vec3>,
    azimuths: Seq<F64>,
    cell: int,
    n: nat,
)
    requires
        n <= points.len(),
    ensures
        ({
            let top = config.tallest(points, azimuths, cell, n);
            &&& !top.nan()
            &&& forall|i: int|
                0 <= i < n && config.in_range(#[trigger] points[i]) && config.cell_of(
                    points[i],
                    azimuths[i],
                ) == cell ==> !top.less(points[i].z.to_single())
            &&& top == F32::from_bits(LOWEST) || exists|i: int|
                0 <= i < n && config.in_range(#[trigger] points[i]) && config.cell_of(
                    points[i],
                    azimuths[i],
                ) == cell && top == points[i].z.to_single()
        }),
    decreases n,
{
    reveal(F32::spec_less);
    if n > 0 {
        heights_are_the_greatest(config, points, azimuths, cell, (n - 1) as nat);
    }
}

/// Nothing summed up and divided by a number of cells is nothing.
proof fn lemma_no_sum(m: Seq<F32>, start: int, stride: int, n: nat, count: usize)
    requires
        forall|k: int| 0 <= k < n ==> m[#[trigger] (start + k * stride)].bits == 0,
        count > 0,
    ensures
        strided_sum(m, start, stride, n).bits == 0,
        strided_sum(m, start, stride, n).over(F32::from_usize(count)).bits == 0,
    decreases n,
{
    let f = Format::single();
    f.lemma_zero();
    if n > 0 {
        lemma_no_sum(m, start, stride, (n - 1) as nat, count);
        reveal(F32::spec_plus);
        let at = start + (n - 1) * stride;
        assert(m[at].bits == 0);
    }
    reveal(F32::spec_over);
    reveal(F32::spec_from_usize);
    vstd::arithmetic::power2::lemma2_to64();
    vstd::arithmetic::power2::lemma_pow2_pos(149);
    f.lemma_whole(count as nat);
    let size = f.size(F32::from_usize(count).bits as u64);
    f.lemma_power_of_two(0);
    f.lemma_monotone(0, f.encoded(F32::from_usize(count).bits as u64));
    let q = f.lemma_quantum_exists(0, 1);
    assert(0 * size == 0 * 1) by (nonlinear_arith);
    f.lemma_rounded_equal(q, 0, 1, 0, size);
    assert(0 * vstd::arithmetic::power2::pow2(149) == 0) by (nonlinear_arith);
}

/// A cloud without points has a descriptor of zeros.
pub proof fn empty_clouds_have_zero_descriptors(
    config: ScanContextConfig,
    r: ScanContextDescriptor,
)
    requires
        config.num_rings > 0,
        config.num_sectors > 0,
        config.describes(Seq::empty(), Seq::empty(), r),
    ensures
        forall|cell: int| 0 <= cell < r.matrix@.len() ==> (#[trigger] r.matrix@[cell]).bits == 0,
        forall|ring: int|
            0 <= ring < r.ring_key@.len() ==> (#[trigger] r.ring_key@[ring]).bits == 0,
        forall|sector: int|
            0 <= sector < r.sector_key@.len() ==> (#[trigger] r.sector_key@[sector]).bits == 0,
{
    let (rows, columns) = (config.num_rings as int, config.num_sectors as int);
    assert forall|cell: int| 0 <= cell < r.matrix@.len() implies (
    #[trigger] r.matrix@[cell]).bits == 0 by {
        assert(config.height(Seq::empty(), Seq::empty(), cell).bits == 0);
    }
    assert forall|ring: int| 0 <= ring < r.ring_key@.len() implies (
    #[trigger] r.ring_key@[ring]).bits == 0 by {
        assert forall|k: int| 0 <= k < columns implies r.matrix@[#[trigger] (ring * columns + k
            * 1)].bits == 0 by {
            lemma_cell(ring, k, rows, columns);
        }
        lemma_no_sum(r.matrix@, ring * columns, 1, columns as nat, config.num_sectors);
    }
    assert forall|sector: int| 0 <= sector < r.sector_key@.len() implies (
    #[trigger] r.sector_key@[sector]).bits == 0 by {
        assert forall|k: int| 0 <= k < rows implies r.matrix@[#[trigger] (sector + k
            * columns)].bits == 0 by {
            lemma_cell(k, sector, rows, columns);
        }
        lemma_no_sum(r.matrix@, sector, columns, rows as nat, config.num_rings);
    }
}

/// A height in double precision is below two to the power 128.
proof fn lemma_widened(x: F32)
    requires
        x.finite(),
    ensures
        x.to_double().finite(),
        Format::double().size(x.to_double().bits) <= pow2(1202),
{
    let (f, g) = (Format::single(), Format::double());
    reveal(F32::spec_to_double);
    let size = f.size(x.bits as u64);
    f.lemma_monotone(f.encoded(x.bits as u64), 0x7f80_0000);
    lemma2_to64();
    lemma2_to64_rest();
    assert(0x7f80_0000nat / 0x80_0000 == 255);
    lemma_pow2_adds(23, 254);
    assert(size <= pow2(277));
    lemma_pow2_adds(277, 1074);
    lemma_pow2_adds(1202, 149);
    lemma_pow2_pos(149);
    assert((size * pow2(1074)) * 1 <= pow2(1202) * pow2(149)) by (nonlinear_arith)
        requires
            size <= pow2(277),
            pow2(277) * pow2(1074) == pow2(1351),
            pow2(1202) * pow2(149) == pow2(1351),
    ;
    g.rounding_keeps_order(size * pow2(1074), pow2(149), pow2(1202), 1);
    g.lemma_double_power(1202);
    let r = g.rounded(size * pow2(1074), pow2(149));
    g.lemma_signed(f.negative(x.bits as u64), r);
    if r < g.rounded(pow2(1202), 1) {
        g.lemma_monotone(r, g.rounded(pow2(1202), 1));
    }
}

/// The product of two heights is below two to the power 256.
proof fn lemma_product(x: F64, y: F64)
    requires
        x.finite(),
        y.finite(),
        Format::double().size(x.bits) <= pow2(1202),
        Format::double().size(y.bits) <= pow2(1202),
    ensures
        x.times(y).finite(),
        Format::double().size(x.times(y).bits) <= pow2(1330),
{
    let g = Format::double();
    reveal(F64::spec_times);
    let (a, b) = (g.size(x.bits), g.size(y.bits));
    lemma_pow2_adds(1202, 1202);
    lemma_pow2_adds(1330, 1074);
    lemma_pow2_pos(1074);
    assert((a * b) * 1 <= pow2(1330) * pow2(1074)) by (nonlinear_arith)
        requires
            a <= pow2(1202),
            b <= pow2(1202),
            pow2(1202) * pow2(1202) == pow2(1330) * pow2(1074),
    ;
    g.rounding_keeps_order(a * b, pow2(1074), pow2(1330), 1);
    g.lemma_double_power(1330);
    let r = g.rounded(a * b, pow2(1074));
    g.lemma_signed(g.negative(x.bits) != g.negative(y.bits), r);
    if r < g.rounded(pow2(1330), 1) {
        g.lemma_monotone(r, g.rounded(pow2(1330), 1));
    }
}

/// A sum that has grown very large no longer grows.
proof fn lemma_sum_stays(s: F64, t: F64)
    requires
        s.finite(),
        t.finite(),
        Format::double().size(s.bits) <= pow2(1384),
        Format::double().size(t.bits) <= pow2(1330),
    ensures
        s.plus(t).finite(),
        Format::double().size(s.plus(t).bits) <= pow2(1384),
{
    let g = Format::double();
    reveal(F64::spec_plus);
    let exact = s.value() + t.value();
    let n: nat = if exact < 0 {
        (-exact) as nat
    } else {
        exact as nat
    };
    g.lemma_zero();
    g.lemma_absorbed(1384, 1330);
    g.rounding_keeps_order(n, 1, pow2(1384) + pow2(1330), 1);
    g.lemma_double_power(1384);
    let r = g.rounded(n, 1);
    g.lemma_signed(true, r);
    g.lemma_signed(false, r);
    g.lemma_signed(true, 0);
    g.lemma_signed(false, 0);
    lemma_pow2_pos(1384);
    if r < g.rounded(pow2(1384), 1) {
        g.lemma_monotone(r, g.rounded(pow2(1384), 1));
    }
}

/// All heights are finite.
pub open spec fn all_finite(m: Seq<F32>) -> bool {
    forall|k: int| 0 <= k < m.len() ==> (#[trigger] m[k]).finite()
}

proof fn lemma_dot_is_finite(
    a: Seq<F32>,
    b: Seq<F32>,
    rows: int,
    columns: int,
    shift: int,
    n: nat,
)
    requires
        all_finite(a),
        all_finite(b),
        a.len() == rows * columns,
        b.len() == rows * columns,
        columns > 0,
        0 <= shift,
        n <= a.len(),
    ensures
        products(a, b, columns, shift, n).dot.finite(),
        Format::double().size(products(a, b, columns, shift, n).dot.bits) <= pow2(1384),
    decreases n,
{
    if n == 0 {
        Format::double().lemma_zero();
        lemma_pow2_pos(1384);
    } else {
        lemma_dot_is_finite(a, b, rows, columns, shift, (n - 1) as nat);
        lemma_facing(n - 1, rows, columns, shift, 0);
        let (x, y) = (a[n - 1], b[facing(n - 1, columns, shift)]);
        lemma_widened(x);
        lemma_widened(y);
        lemma_product(x.to_double(), y.to_double());
        lemma_sum_stays(
            products(a, b, columns, shift, (n - 1) as nat).dot,
            x.to_double().times(y.to_double()),
        );
    }
}

/// A number with a value is held to at most one in size.
proof fn lemma_held(c: F64)
    requires
        !c.nan(),
    ensures
        held(c).finite(),
        Format::double().size(held(c).bits) <= pow2(1074),
{
    let g = Format::double();
    reveal(F64::spec_less);
    crate::float::double::lemma_one();
    if !c.finite() {
        g.lemma_monotone(ONE as nat, 0x7ff0_0000_0000_0000);
    }
}

/// One less a number held to that range lies between nothing and two.
proof fn lemma_distance_range(p: Products)
    requires
        p.dot.finite(),
    ensures
        p.distance().bits <= 0x4000_0000,
{
    let (f, g) = (Format::single(), Format::double());
    let denom = p.norm_a.times(p.norm_b).sqrt();
    let c = p.rough_cosine();
    assert(!c.nan()) by {
        reveal(F64::spec_less);
        reveal(F64::spec_over);
        g.lemma_zero();
        let (a, b) = (p.dot.bits, denom.bits);
        g.lemma_rounded_bound(g.size(a) * pow2(1074), g.size(b));
        g.lemma_signed(true, g.rounded(g.size(a) * pow2(1074), g.size(b)));
        g.lemma_signed(false, g.rounded(g.size(a) * pow2(1074), g.size(b)));
        g.lemma_signed(true, 0);
        g.lemma_signed(false, 0);
        g.lemma_signed(true, g.infinity as nat);
        g.lemma_signed(false, g.infinity as nat);
        if F64::from_bits(LEAST_NORM).less(denom) {
            g.lemma_monotone(0, LEAST_NORM as nat);
        }
    }
    lemma_held(c);
    let h = held(c);
    let one = F64::from_bits(ONE);
    let gap = one.minus(h);
    reveal(F64::spec_plus);
    crate::float::double::lemma_one();
    lemma_pow2_unfold(1075);
    let exact = one.value() - h.value();
    assert(one.value() + h.negated().value() == exact);
    assert(0 <= exact <= pow2(1075));
    g.rounding_keeps_order(exact as nat, 1, pow2(1075), 1);
    g.lemma_double_power(1075);
    g.lemma_signed(false, g.rounded(exact as nat, 1));
    g.lemma_signed(false, 0);
    g.lemma_zero();
    let r = g.encoded(gap.bits);
    assert(r <= g.rounded(pow2(1075), 1));
    if r < g.rounded(pow2(1075), 1) {
        g.lemma_monotone(r, g.rounded(pow2(1075), 1));
    }
    let size = g.size(gap.bits);
    assert(size <= pow2(1075));
    reveal(F64::spec_to_single);
    lemma_pow2_adds(1075, 149);
    lemma_pow2_adds(150, 1074);
    lemma_pow2_pos(149);
    lemma_pow2_pos(1074);
    assert((size * pow2(149)) * 1 <= pow2(150) * pow2(1074)) by (nonlinear_arith)
        requires
            size <= pow2(1075),
            pow2(1075) * pow2(149) == pow2(150) * pow2(1074),
    ;
    f.rounding_keeps_order(size * pow2(149), pow2(1074), pow2(150), 1);
    f.lemma_power_of_two(1);
    f.lemma_signed(false, f.rounded(size * pow2(149), pow2(1074)));
}

proof fn lemma_best_range(a: Seq<F32>, b: Seq<F32>, rows: int, columns: int, n: nat)
    requires
        all_finite(a),
        all_finite(b),
        a.len() == rows * columns,
        b.len() == rows * columns,
        columns > 0,
        0 < n <= usize::MAX,
    ensures
        best_shift(a, b, columns, n).0.bits <= 0x4000_0000,
    decreases n,
{
    let shift = n - 1;
    lemma_dot_is_finite(a, b, rows, columns, shift, a.len());
    lemma_distance_range(products(a, b, columns, shift, a.len()));
    if n > 1 {
        lemma_best_range(a, b, rows, columns, (n - 1) as nat);
    } else {
        let d = shift_distance(a, b, columns, 0);
        assert(best_shift(a, b, columns, 0) == (F32::from_bits(LARGEST), 0usize));
        reveal(F32::spec_less);
        Format::single().lemma_monotone(d.bits as nat, LARGEST as nat);
    }
}

/// The distance of finite descriptors lies between nothing and two.
pub proof fn distances_are_in_range(a: ScanContextDescriptor, b: ScanContextDescriptor)
    requires
        a.matches(b),
        all_finite(a.matrix@),
        all_finite(b.matrix@),
        a.num_sectors >= 1,
    ensures
        a.distance_spec(b).0.bits <= 0x4000_0000,
        !a.distance_spec(b).0.less(F32::from_bits(0)),
        !F32::from_bits(0x4000_0000).less(a.distance_spec(b).0),
{
    let ns = a.num_sectors as int;
    lemma_best_range(a.matrix@, b.matrix@, a.num_rings as int, ns, ns as nat);
    let d = a.distance_spec(b).0;
    reveal(F32::spec_less);
    Format::single().lemma_zero();
    if d.bits < 0x4000_0000 {
        Format::single().lemma_monotone(d.bits as nat, 0x4000_0000);
    }
}

} // verus!
