//! The spread of points around each point, as a matrix.
use vstd::prelude::*;

use crate::float::double::F64;
use crate::linear::{Mat3, Vec3};

verus! {

/// The pattern of 0.01: the variance assumed where neighbours are missing.
pub const LONELY_VARIANCE: u64 = 0x3f84_7ae1_47ae_147b;

/// The pattern of 1e-3: no direction spreads less than this share of the
/// widest one.
pub const LEAST_SPREAD: u64 = 0x3f50_624d_d2f1_a9fc;

/// A singular value decomposition; the singular values come largest first.
#[derive(Clone, Copy, Debug)]
pub struct Decomposition {
    pub u: Option<Mat3>,
    pub singular_values: Vec3,
    pub v_t: Option<Mat3>,
}

/// The sum of the first `n` neighbours.
pub open spec fn neighbour_sum(points: Seq<Vec3>, neighbours: Seq<usize>, n: nat) -> Vec3
    decreases n,
{
    if n == 0 {
        Vec3::zeros()
    } else {
        neighbour_sum(points, neighbours, (n - 1) as nat).plus(points[neighbours[n - 1] as int])
    }
}

/// The mean of the neighbours.
pub open spec fn centroid(points: Seq<Vec3>, neighbours: Seq<usize>) -> Vec3 {
    neighbour_sum(points, neighbours, neighbours.len()).over(
        F64::from_usize(neighbours.len() as usize),
    )
}

/// The sum of the squared offsets of the first `n` neighbours from a center.
pub open spec fn offset_sum(
    points: Seq<Vec3>,
    neighbours: Seq<usize>,
    center: Vec3,
    n: nat,
) -> Mat3
    decreases n,
{
    if n == 0 {
        Mat3::zeros()
    } else {
        let diff = points[neighbours[n - 1] as int].minus(center);
        offset_sum(points, neighbours, center, (n - 1) as nat).plus(diff.outer(diff))
    }
}

/// The covariance of the neighbours, where there are three of them.
pub open spec fn spread(points: Seq<Vec3>, neighbours: Seq<usize>) -> Option<Mat3> {
    if neighbours.len() < 3 {
        None
    } else {
        let center = centroid(points, neighbours);
        Some(
            offset_sum(points, neighbours, center, neighbours.len()).over(
                F64::from_usize(neighbours.len() as usize),
            ),
        )
    }
}

/// Every neighbour is one of the points.
pub open spec fn known(points: Seq<Vec3>, neighbours: Seq<usize>) -> bool {
    forall|i: int| 0 <= i < neighbours.len() ==> (#[trigger] neighbours[i]) < points.len()
}

/// The covariance of the neighbours of a point; `None` for fewer than three.
pub fn neighbour_spread(points: &Vec<Vec3>, neighbours: &Vec<usize>) -> (r: Option<Mat3>)
    requires
        known(points@, neighbours@),
    ensures
        r == spread(points@, neighbours@),
{
    let count: usize = neighbours.len();
    if count < 3 {
        return None;
    }
    let mut sum = Vec3::zeros();
    let mut n: usize = 0;
    while n < count
        invariant
            n <= count == neighbours.len(),
            known(points@, neighbours@),
            sum == neighbour_sum(points@, neighbours@, n as nat),
        decreases count - n,
    {
        sum = sum.plus(points[neighbours[n]]);
        n = n + 1;
    }
    let center = sum.over(F64::from_usize(count));
    let mut total = Mat3::zeros();
    let mut n: usize = 0;
    while n < count
        invariant
            n <= count == neighbours.len(),
            known(points@, neighbours@),
            total == offset_sum(points@, neighbours@, center, n as nat),
        decreases count - n,
    {
        let diff = points[neighbours[n]].minus(center);
        total = total.plus(diff.outer(diff));
        n = n + 1;
    }
    Some(total.over(F64::from_usize(count)))
}

impl Decomposition {
    pub open spec fn spec_flattened(self) -> Mat3 {
        let s = self.singular_values;
        let least = s.x.times(F64::from_bits(LEAST_SPREAD));
        let kept = Vec3::new(s.x.max(least), s.y.max(least), s.z.max(least));
        let u = match self.u {
            Some(m) => m,
            None => Mat3::identity(),
        };
        let v_t = match self.v_t {
            Some(m) => m,
            None => Mat3::identity(),
        };
        u.times(Mat3::diagonal(kept)).times(v_t)
    }

    /// The matrix with the small singular values raised.
    #[verifier::when_used_as_spec(spec_flattened)]
    pub fn flattened(self) -> (r: Mat3)
        ensures
            r == self.flattened(),
    {
        let s = self.singular_values;
        let least = s.x.times(F64::from_bits(LEAST_SPREAD));
        let kept = Vec3::new(s.x.max(least), s.y.max(least), s.z.max(least));
        let u = match self.u {
            Some(m) => m,
            None => Mat3::identity(),
        };
        let v_t = match self.v_t {
            Some(m) => m,
            None => Mat3::identity(),
        };
        u.times(Mat3::diagonal(kept)).times(v_t)
    }
}

/// The neighbourhoods that the covariances of `points` are taken from: none
/// where there are fewer points than neighbours wanted.
pub open spec fn fits_points(points: Seq<Vec3>, k: usize, neighbours: Seq<Vec<usize>>) -> bool {
    points.len() >= k ==> {
        &&& neighbours.len() == points.len()
        &&& forall|i: int| 0 <= i < neighbours.len() ==> known(points, (#[trigger] neighbours[i])@)
    }
}

/// The spread of the neighbourhood of point `i`.
pub open spec fn spread_at(
    points: Seq<Vec3>,
    k: usize,
    neighbours: Seq<Vec<usize>>,
    i: int,
) -> Option<Mat3> {
    if points.len() < k {
        None
    } else {
        spread(points, neighbours[i]@)
    }
}

/// The spread around each point, from its `k` nearest neighbours.
pub fn neighbour_spreads(points: &Vec<Vec3>, k: usize, neighbours: &Vec<Vec<usize>>) -> (r: Vec<
    Option<Mat3>,
>)
    requires
        fits_points(points@, k, neighbours@),
    ensures
        r@.len() == points@.len(),
        forall|i: int|
            0 <= i < r@.len() ==> #[trigger] r@[i] == spread_at(points@, k, neighbours@, i),
{
    let mut r: Vec<Option<Mat3>> = Vec::new();
    let few = points.len() < k;
    let mut i: usize = 0;
    while i < points.len()
        invariant
            i <= points.len(),
            few == (points.len() < k),
            fits_points(points@, k, neighbours@),
            r@.len() == i,
            forall|j: int|
                0 <= j < i ==> #[trigger] r@[j] == spread_at(points@, k, neighbours@, j),
        decreases points.len() - i,
    {
        if few {
            r.push(None);
        } else {
            assert(known(points@, neighbours@[i as int]@));
            r.push(neighbour_spread(points, &neighbours[i]));
        }
        i = i + 1;
    }
    r
}

/// The covariance of a point: its flattened spread, or a fixed one where it
/// has too few neighbours.
pub open spec fn covariance_of(spread: Option<Mat3>, decomposition: Option<Decomposition>) -> Mat3 {
    match (spread, decomposition) {
        (Some(_), Some(d)) => d.flattened(),
        _ => Mat3::identity().scaled(F64::from_bits(LONELY_VARIANCE)),
    }
}

/// Every spread comes with its decomposition.
pub open spec fn decomposed(
    spreads: Seq<Option<Mat3>>,
    decompositions: Seq<Option<Decomposition>>,
) -> bool {
    &&& spreads.len() == decompositions.len()
    &&& forall|i: int|
        0 <= i < spreads.len() ==> (#[trigger] spreads[i]).is_some()
            == decompositions[i].is_some()
}

/// Estimate local covariance matrices for each point, from the singular value
/// decompositions of the spreads.
pub fn estimate_covariances(
    spreads: &Vec<Option<Mat3>>,
    decompositions: &Vec<Option<Decomposition>>,
) -> (r: Vec<Mat3>)
    requires
        decomposed(spreads@, decompositions@),
    ensures
        r@.len() == spreads@.len(),
        forall|i: int|
            0 <= i < r@.len() ==> #[trigger] r@[i] == covariance_of(
                spreads@[i],
                decompositions@[i],
            ),
{
    let mut r: Vec<Mat3> = Vec::new();
    let mut i: usize = 0;
    while i < spreads.len()
        invariant
            i <= spreads.len(),
            decomposed(spreads@, decompositions@),
            r@.len() == i,
            forall|j: int|
                0 <= j < i ==> #[trigger] r@[j] == covariance_of(spreads@[j], decompositions@[j]),
        decreases spreads.len() - i,
    {
        let one = match (spreads[i], decompositions[i]) {
            (Some(_), Some(d)) => d.flattened(),
            _ => Mat3::identity().scaled(F64::from_bits(LONELY_VARIANCE)),
        };
        r.push(one);
        i = i + 1;
    }
    r
}

/// The matrix equals its mirror image.
pub open spec fn symmetric(m: Mat3) -> bool {
    m.transpose() == m
}

proof fn lemma_offsets_are_symmetric(
    points: Seq<Vec3>,
    neighbours: Seq<usize>,
    center: Vec3,
    n: nat,
)
    ensures
        symmetric(offset_sum(points, neighbours, center, n)),
    decreases n,
{
    if n > 0 {
        lemma_offsets_are_symmetric(points, neighbours, center, (n - 1) as nat);
        let diff = points[neighbours[n - 1] as int].minus(center);
        crate::float::double::products_commute(diff.x, diff.y);
        crate::float::double::products_commute(diff.x, diff.z);
        crate::float::double::products_commute(diff.y, diff.z);
    }
}

/// A spread is symmetric, as a covariance is, without any rounding error.
pub proof fn spreads_are_symmetric(points: Seq<Vec3>, neighbours: Seq<usize>)
    ensures
        spread(points, neighbours) matches Some(m) ==> symmetric(m),
{
    let center = centroid(points, neighbours);
    lemma_offsets_are_symmetric(points, neighbours, center, neighbours.len());
}

} // verus!
