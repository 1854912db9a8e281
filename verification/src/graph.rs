//! The pose graph: keyframes, the constraints between them, and the linear
//! system that brings the poses closer to the constraints.
//!
//! Matrices and vectors over all keyframes are held in blocks of three: x, y
//! and heading.
use std::sync::Arc;

use vstd::arithmetic::power2::*;
use vstd::prelude::*;

use crate::float::double::F64;
use crate::float::rounding::Format;
use crate::linear::{Mat3, Vec3, ONE};
use crate::scan_context::ScanContextDescriptor;
use crate::transforms::{normalize_angle, Rotation2, Transform2D};
use crate::types::PointCloud;

verus! {

/// The pattern of 1e-6: the step of the difference quotients.
pub const EPSILON: u64 = 0x3eb0_c6f7_a0b5_ed8d;

/// The pattern of 2e-6.
pub const TWO_EPSILON: u64 = 0x3ec0_c6f7_a0b5_ed8d;

/// The pattern of 1e-3: what is added to the whole diagonal.
pub const DAMPING: u64 = 0x3f50_624d_d2f1_a9fc;

/// The pattern of 1e10: what holds the first keyframe in place.
pub const ANCHOR: u64 = 0x4202_a05f_2000_0000;

/// The number of differences that are taken of an edge.
pub const PROBES: usize = 13;

/// A keyframe in the pose graph.
#[derive(Debug)]
pub struct Keyframe {
    /// Unique identifier
    pub id: usize,
    /// Pose in world frame (optimized)
    pub pose: Transform2D,
    /// Associated LiDAR scan
    pub scan: Arc<PointCloud>,
    /// Time when keyframe was created, in nanoseconds of a monotonic clock
    pub timestamp: u64,
    /// Scan context descriptor for fast loop closure retrieval
    pub descriptor: Option<ScanContextDescriptor>,
}

impl Clone for Keyframe {
    fn clone(&self) -> (r: Keyframe)
        ensures
            r.id == self.id,
            r.pose == self.pose,
            r.scan == self.scan,
            r.timestamp == self.timestamp,
            match (r.descriptor, self.descriptor) {
                (Some(d), Some(own)) => d.same_as(own),
                (None, None) => true,
                _ => false,
            },
    {
        let descriptor = match &self.descriptor {
            Some(d) => Some(d.clone()),
            None => None,
        };
        Keyframe {
            id: self.id,
            pose: self.pose,
            scan: self.scan.clone(),
            timestamp: self.timestamp,
            descriptor,
        }
    }
}

/// An edge (constraint) in the pose graph.
#[derive(Clone, Copy, Debug)]
pub struct PoseGraphEdge {
    /// Source keyframe ID
    pub from_id: usize,
    /// Target keyframe ID
    pub to_id: usize,
    /// Relative pose measurement (from -> to)
    pub measurement: Transform2D,
    /// Information matrix (inverse covariance)
    pub information: Mat3,
    /// Whether this is a loop closure edge
    pub is_loop_closure: bool,
}

/// The rotations by a small angle, and back.
#[derive(Clone, Copy, Debug)]
pub struct Nudges {
    pub on: Rotation2,
    pub back: Rotation2,
}

/// What an edge adds to the linear system.
#[derive(Clone, Copy, Debug)]
pub struct EdgeTerms {
    pub h_ii: Mat3,
    pub h_ij: Mat3,
    pub h_jj: Mat3,
    pub b_i: Vec3,
    pub b_j: Vec3,
}

/// A linear system over all keyframes: the blocks of a square matrix, row by
/// row, and those of a vector.
#[derive(Debug)]
pub struct GraphSystem {
    /// Number of keyframes
    pub size: usize,
    pub h: Vec<Vec<Mat3>>,
    pub b: Vec<Vec3>,
}

/// The ids are the positions, and every edge leads to a later keyframe.
pub open spec fn is_graph(keyframes: Seq<Keyframe>, edges: Seq<PoseGraphEdge>) -> bool {
    &&& forall|i: int| 0 <= i < keyframes.len() ==> (#[trigger] keyframes[i]).id == i
    &&& forall|e: int|
        0 <= e < edges.len() ==> (#[trigger] edges[e]).from_id < edges[e].to_id
            < keyframes.len()
}

pub open spec fn spec_residual_delta(plus: F64, minus: F64, row: usize) -> F64 {
    if row == 2 {
        normalize_angle(plus.minus(minus))
    } else {
        plus.minus(minus)
    }
}

/// The difference of two residuals; in the last row the shortest way around.
#[verifier::when_used_as_spec(spec_residual_delta)]
pub fn residual_delta(plus: F64, minus: F64, row: usize) -> (r: F64)
    ensures
        r == residual_delta(plus, minus, row),
{
    if row == 2 {
        normalize_angle(plus.minus(minus))
    } else {
        plus.minus(minus)
    }
}

pub open spec fn spec_huber_weight(residual_norm: F64, threshold: F64) -> F64 {
    if residual_norm.at_most(threshold) {
        F64::from_bits(ONE)
    } else {
        threshold.over(residual_norm)
    }
}

/// Huber robust loss weight function.
#[verifier::when_used_as_spec(spec_huber_weight)]
pub fn huber_weight(residual_norm: F64, threshold: F64) -> (r: F64)
    ensures
        r == huber_weight(residual_norm, threshold),
{
    if residual_norm.at_most(threshold) {
        F64::from_bits(ONE)
    } else {
        threshold.over(residual_norm)
    }
}

pub open spec fn spec_nudge(nudges: &Nudges, axis: usize, forward: bool) -> Transform2D {
    let step = F64::from_bits(EPSILON);
    let signed = if forward {
        step
    } else {
        step.negated()
    };
    let zero = F64::from_bits(0);
    if axis == 0 {
        Transform2D::new(signed, zero, Rotation2::identity())
    } else if axis == 1 {
        Transform2D::new(zero, signed, Rotation2::identity())
    } else {
        Transform2D::new(zero, zero, if forward {
            nudges.on
        } else {
            nudges.back
        })
    }
}

/// A small step along one axis.
#[verifier::when_used_as_spec(spec_nudge)]
pub fn nudge(nudges: &Nudges, axis: usize, forward: bool) -> (r: Transform2D)
    ensures
        r == nudge(nudges, axis, forward),
{
    let step = F64::from_bits(EPSILON);
    let signed = if forward {
        step
    } else {
        step.negated()
    };
    let zero = F64::from_bits(0);
    if axis == 0 {
        Transform2D::new(signed, zero, Rotation2::identity())
    } else if axis == 1 {
        Transform2D::new(zero, signed, Rotation2::identity())
    } else if forward {
        Transform2D::new(zero, zero, nudges.on)
    } else {
        Transform2D::new(zero, zero, nudges.back)
    }
}

#[verifier::opaque]
pub open spec fn spec_edge_difference(
    pose_i: &Transform2D,
    pose_j: &Transform2D,
    measured: &Transform2D,
) -> Transform2D {
    pose_i.relative_to(pose_j).relative_to(measured)
}

/// From the predicted relative pose of two keyframes to the measured one.
#[verifier::when_used_as_spec(spec_edge_difference)]
pub fn edge_difference(
    pose_i: &Transform2D,
    pose_j: &Transform2D,
    measured: &Transform2D,
) -> (r: Transform2D)
    ensures
        r == edge_difference(pose_i, pose_j, measured),
{
    proof {
        reveal(spec_edge_difference);
    }
    pose_i.relative_to(pose_j).relative_to(measured)
}

pub open spec fn spec_probe(
    pose_i: &Transform2D,
    pose_j: &Transform2D,
    measured: &Transform2D,
    nudges: &Nudges,
    slot: usize,
) -> Transform2D {
    if slot == 0 {
        edge_difference(pose_i, pose_j, measured)
    } else {
        let axis = ((slot - 1) / 4) as usize;
        let kind = (slot - 1) % 4;
        let step = nudge(nudges, axis, kind == 0 || kind == 2);
        if kind < 2 {
            edge_difference(&pose_i.compose(&step), pose_j, measured)
        } else {
            edge_difference(pose_i, &pose_j.compose(&step), measured)
        }
    }
}

/// The difference of an edge as it stands (slot 0), and with one of its ends
/// moved: for each axis the first end on and back, then the second end on and
/// back.
#[verifier::when_used_as_spec(spec_probe)]
pub fn probe(
    pose_i: &Transform2D,
    pose_j: &Transform2D,
    measured: &Transform2D,
    nudges: &Nudges,
    slot: usize,
) -> (r: Transform2D)
    ensures
        r == probe(pose_i, pose_j, measured, nudges, slot),
{
    if slot == 0 {
        return edge_difference(pose_i, pose_j, measured);
    }
    let axis: usize = (slot - 1) / 4;
    let kind: usize = (slot - 1) % 4;
    let step = nudge(nudges, axis, kind == 0 || kind == 2);
    if kind < 2 {
        edge_difference(&pose_i.compose(&step), pose_j, measured)
    } else {
        edge_difference(pose_i, &pose_j.compose(&step), measured)
    }
}

pub open spec fn spec_compute_edge_error(diff: &Transform2D, angle: F64) -> Vec3 {
    Vec3::new(diff.shift.x, diff.shift.y, normalize_angle(angle))
}

/// The error of an edge, from its difference and the angle of its rotation.
#[verifier::when_used_as_spec(spec_compute_edge_error)]
pub fn compute_edge_error(diff: &Transform2D, angle: F64) -> (r: Vec3)
    ensures
        r == compute_edge_error(diff, angle),
{
    Vec3::new(diff.shift.x, diff.shift.y, normalize_angle(angle))
}

pub open spec fn spec_central_slope(plus: Vec3, minus: Vec3) -> Vec3 {
    let width = F64::from_bits(TWO_EPSILON);
    Vec3::new(
        residual_delta(plus.x, minus.x, 0).over(width),
        residual_delta(plus.y, minus.y, 1).over(width),
        residual_delta(plus.z, minus.z, 2).over(width),
    )
}

/// The central difference quotient of an error.
#[verifier::when_used_as_spec(spec_central_slope)]
pub fn central_slope(plus: Vec3, minus: Vec3) -> (r: Vec3)
    ensures
        r == central_slope(plus, minus),
{
    let width = F64::from_bits(TWO_EPSILON);
    Vec3::new(
        residual_delta(plus.x, minus.x, 0).over(width),
        residual_delta(plus.y, minus.y, 1).over(width),
        residual_delta(plus.z, minus.z, 2).over(width),
    )
}

impl PoseGraphEdge {
    /// The difference of the edge in one of its slots.
    pub open spec fn probe_at(
        &self,
        keyframes: Seq<Keyframe>,
        nudges: &Nudges,
        slot: usize,
    ) -> Transform2D {
        probe(
            &keyframes[self.from_id as int].pose,
            &keyframes[self.to_id as int].pose,
            &self.measurement,
            nudges,
            slot,
        )
    }

    /// The error of the edge in one of its slots.
    pub open spec fn error_at(
        &self,
        keyframes: Seq<Keyframe>,
        nudges: &Nudges,
        angles: Seq<F64>,
        slot: usize,
    ) -> Vec3 {
        compute_edge_error(&self.probe_at(keyframes, nudges, slot), angles[slot as int])
    }

    /// The derivatives of the error by the first or by the second end.
    pub open spec fn jacobian(
        &self,
        keyframes: Seq<Keyframe>,
        nudges: &Nudges,
        angles: Seq<F64>,
        second: bool,
    ) -> Mat3 {
        let first: int = if second {
            3
        } else {
            1
        };
        Mat3 {
            r0: central_slope(
                self.error_at(keyframes, nudges, angles, first as usize),
                self.error_at(keyframes, nudges, angles, (first + 1) as usize),
            ),
            r1: central_slope(
                self.error_at(keyframes, nudges, angles, (first + 4) as usize),
                self.error_at(keyframes, nudges, angles, (first + 5) as usize),
            ),
            r2: central_slope(
                self.error_at(keyframes, nudges, angles, (first + 8) as usize),
                self.error_at(keyframes, nudges, angles, (first + 9) as usize),
            ),
        }.transpose()
    }

    pub open spec fn spec_omega(&self, error: Vec3, threshold: F64) -> Mat3 {
        if self.is_loop_closure {
            self.information.scaled(huber_weight(error.norm(), threshold))
        } else {
            self.information
        }
    }

    /// The weight of the edge; a loop closure far off counts less.
    #[verifier::when_used_as_spec(spec_omega)]
    pub fn omega(&self, error: Vec3, threshold: F64) -> (r: Mat3)
        ensures
            r == self.omega(error, threshold),
    {
        if self.is_loop_closure {
            self.information.scaled(huber_weight(error.norm(), threshold))
        } else {
            self.information
        }
    }

    /// What the edge adds to the linear system.
    pub open spec fn terms(
        &self,
        keyframes: Seq<Keyframe>,
        nudges: &Nudges,
        angles: Seq<F64>,
        threshold: F64,
    ) -> EdgeTerms {
        let error = self.error_at(keyframes, nudges, angles, 0);
        normal_terms(
            self.jacobian(keyframes, nudges, angles, false),
            self.jacobian(keyframes, nudges, angles, true),
            self.omega(error, threshold),
            error,
        )
    }

    /// The error of the edge in one of its slots.
    fn error_in(
        &self,
        keyframes: &Vec<Keyframe>,
        nudges: &Nudges,
        angles: &Vec<F64>,
        slot: usize,
    ) -> (r: Vec3)
        requires
            self.from_id < keyframes@.len(),
            self.to_id < keyframes@.len(),
            slot < angles@.len(),
        ensures
            r == self.error_at(keyframes@, nudges, angles@, slot),
    {
        let diff = probe(
            &keyframes[self.from_id].pose,
            &keyframes[self.to_id].pose,
            &self.measurement,
            nudges,
            slot,
        );
        compute_edge_error(&diff, angles[slot])
    }

    /// The derivatives of the error by the first and by the second end.
    pub fn compute_jacobians(
        &self,
        keyframes: &Vec<Keyframe>,
        nudges: &Nudges,
        angles: &Vec<F64>,
    ) -> (r: (Mat3, Mat3))
        requires
            self.from_id < keyframes@.len(),
            self.to_id < keyframes@.len(),
            angles@.len() == PROBES,
        ensures
            r.0 == self.jacobian(keyframes@, nudges, angles@, false),
            r.1 == self.jacobian(keyframes@, nudges, angles@, true),
    {
        let i_rows = Mat3 {
            r0: central_slope(
                self.error_in(keyframes, nudges, angles, 1),
                self.error_in(keyframes, nudges, angles, 2),
            ),
            r1: central_slope(
                self.error_in(keyframes, nudges, angles, 5),
                self.error_in(keyframes, nudges, angles, 6),
            ),
            r2: central_slope(
                self.error_in(keyframes, nudges, angles, 9),
                self.error_in(keyframes, nudges, angles, 10),
            ),
        };
        let j_rows = Mat3 {
            r0: central_slope(
                self.error_in(keyframes, nudges, angles, 3),
                self.error_in(keyframes, nudges, angles, 4),
            ),
            r1: central_slope(
                self.error_in(keyframes, nudges, angles, 7),
                self.error_in(keyframes, nudges, angles, 8),
            ),
            r2: central_slope(
                self.error_in(keyframes, nudges, angles, 11),
                self.error_in(keyframes, nudges, angles, 12),
            ),
        };
        (i_rows.transpose(), j_rows.transpose())
    }

    /// What the edge adds to the linear system.
    pub fn compute_terms(
        &self,
        keyframes: &Vec<Keyframe>,
        nudges: &Nudges,
        angles: &Vec<F64>,
        threshold: F64,
    ) -> (r: EdgeTerms)
        requires
            self.from_id < keyframes@.len(),
            self.to_id < keyframes@.len(),
            angles@.len() == PROBES,
        ensures
            r == self.terms(keyframes@, nudges, angles@, threshold),
    {
        let error = self.error_in(keyframes, nudges, angles, 0);
        let (j_i, j_j) = self.compute_jacobians(keyframes, nudges, angles);
        normal_terms(j_i, j_j, self.omega(error, threshold), error)
    }
}

#[verifier::opaque]
pub open spec fn spec_normal_terms(j_i: Mat3, j_j: Mat3, omega: Mat3, error: Vec3) -> EdgeTerms {
    let left_i = j_i.transpose().times(omega);
    let left_j = j_j.transpose().times(omega);
    EdgeTerms {
        h_ii: left_i.times(j_i),
        h_ij: left_i.times(j_j),
        h_jj: left_j.times(j_j),
        b_i: left_i.apply(error),
        b_j: left_j.apply(error),
    }
}

/// The blocks of the normal equations of one edge.
#[verifier::when_used_as_spec(spec_normal_terms)]
pub fn normal_terms(j_i: Mat3, j_j: Mat3, omega: Mat3, error: Vec3) -> (r: EdgeTerms)
    ensures
        r == normal_terms(j_i, j_j, omega, error),
{
    proof {
        reveal(spec_normal_terms);
    }
    let left_i = j_i.transpose().times(omega);
    let left_j = j_j.transpose().times(omega);
    EdgeTerms {
        h_ii: left_i.times(j_i),
        h_ij: left_i.times(j_j),
        h_jj: left_j.times(j_j),
        b_i: left_i.apply(error),
        b_j: left_j.apply(error),
    }
}

/// What an edge adds to a block of the matrix.
pub open spec fn block_term(
    edge: PoseGraphEdge,
    terms: EdgeTerms,
    row: int,
    column: int,
) -> Option<Mat3> {
    let (i, j) = (edge.from_id as int, edge.to_id as int);
    if row == i && column == i {
        Some(terms.h_ii)
    } else if row == i && column == j {
        Some(terms.h_ij)
    } else if row == j && column == i {
        Some(terms.h_ij.transpose())
    } else if row == j && column == j {
        Some(terms.h_jj)
    } else {
        None
    }
}

/// A block of the matrix, after the first `n` edges.
pub open spec fn block_sum(
    edges: Seq<PoseGraphEdge>,
    terms: Seq<EdgeTerms>,
    row: int,
    column: int,
    n: nat,
) -> Mat3
    decreases n,
{
    if n == 0 {
        Mat3::zeros()
    } else {
        let before = block_sum(edges, terms, row, column, (n - 1) as nat);
        match block_term(edges[n - 1], terms[n - 1], row, column) {
            Some(m) => before.plus(m),
            None => before,
        }
    }
}

/// A block of the vector, after the first `n` edges.
pub open spec fn side_sum(
    edges: Seq<PoseGraphEdge>,
    terms: Seq<EdgeTerms>,
    row: int,
    n: nat,
) -> Vec3
    decreases n,
{
    if n == 0 {
        Vec3::zeros()
    } else {
        let before = side_sum(edges, terms, row, (n - 1) as nat);
        if row == edges[n - 1].from_id {
            before.plus(terms[n - 1].b_i)
        } else if row == edges[n - 1].to_id {
            before.plus(terms[n - 1].b_j)
        } else {
            before
        }
    }
}

/// What each edge adds to the linear system.
pub open spec fn all_terms(
    keyframes: Seq<Keyframe>,
    edges: Seq<PoseGraphEdge>,
    nudges: &Nudges,
    angles: Seq<Vec<F64>>,
    threshold: F64,
) -> Seq<EdgeTerms> {
    Seq::new(edges.len(), |e: int| edges[e].terms(keyframes, nudges, angles[e]@, threshold))
}

/// There is an angle for each difference of each edge.
pub open spec fn has_angles(edges: Seq<PoseGraphEdge>, angles: Seq<Vec<F64>>) -> bool {
    &&& angles.len() == edges.len()
    &&& forall|e: int| 0 <= e < angles.len() ==> (#[trigger] angles[e])@.len() == PROBES
}

impl GraphSystem {
    pub open spec fn well_formed(&self) -> bool {
        &&& self.h@.len() == self.size
        &&& forall|row: int|
            0 <= row < self.h@.len() ==> (#[trigger] self.h@[row])@.len() == self.size
        &&& self.b@.len() == self.size
    }

    /// The block of the matrix in a row and a column.
    pub open spec fn block(&self, row: int, column: int) -> Mat3 {
        self.h@[row]@[column]
    }

    /// The system holds the sums of the first `n` edges.
    pub open spec fn holds(
        &self,
        edges: Seq<PoseGraphEdge>,
        terms: Seq<EdgeTerms>,
        n: nat,
    ) -> bool {
        &&& forall|row: int, column: int|
            0 <= row < self.size && 0 <= column < self.size ==> #[trigger] self.block(row, column)
                == block_sum(edges, terms, row, column, n)
        &&& forall|row: int|
            0 <= row < self.size ==> #[trigger] self.b@[row] == side_sum(edges, terms, row, n)
    }

    /// The system of no edges.
    fn empty(size: usize) -> (r: GraphSystem)
        ensures
            r.well_formed(),
            r.size == size,
            forall|row: int, column: int|
                0 <= row < size && 0 <= column < size ==> #[trigger] r.block(row, column)
                    == Mat3::zeros(),
            forall|row: int| 0 <= row < size ==> #[trigger] r.b@[row] == Vec3::zeros(),
    {
        let mut h: Vec<Vec<Mat3>> = Vec::new();
        while h.len() < size
            invariant
                h@.len() <= size,
                forall|row: int| 0 <= row < h@.len() ==> (#[trigger] h@[row])@.len() == size,
                forall|row: int, column: int|
                    0 <= row < h@.len() && 0 <= column < size ==> #[trigger] h@[row]@[column]
                        == Mat3::zeros(),
            decreases size - h.len(),
        {
            let mut line: Vec<Mat3> = Vec::new();
            while line.len() < size
                invariant
                    line@.len() <= size,
                    forall|k: int| 0 <= k < line@.len() ==> #[trigger] line@[k] == Mat3::zeros(),
                decreases size - line.len(),
            {
                line.push(Mat3::zeros());
            }
            h.push(line);
        }
        let mut b: Vec<Vec3> = Vec::new();
        let mut n: usize = 0;
        while n < size
            invariant
                n <= size,
                b@.len() == n,
                forall|k: int| 0 <= k < n ==> #[trigger] b@[k] == Vec3::zeros(),
            decreases size - n,
        {
            b.push(Vec3::zeros());
            n = n + 1;
        }
        GraphSystem { size, h, b }
    }

    /// Replace one block of the matrix.
    fn put(&mut self, row: usize, column: usize, m: Mat3)
        requires
            old(self).well_formed(),
            row < old(self).size,
            column < old(self).size,
        ensures
            final(self).well_formed(),
            final(self).size == old(self).size,
            final(self).b == old(self).b,
            forall|r: int, c: int|
                0 <= r < old(self).size && 0 <= c < old(self).size ==> #[trigger] final(self).block(
                    r,
                    c,
                ) == if r == row && c == column {
                    m
                } else {
                    old(self).block(r, c)
                },
    {
        self.h[row][column] = m;
    }

    /// The block in a row and a column.
    pub fn get(&self, row: usize, column: usize) -> (r: Mat3)
        requires
            self.well_formed(),
            row < self.size,
            column < self.size,
        ensures
            r == self.block(row as int, column as int),
    {
        self.h[row][column]
    }

    /// Add what an edge adds.
    fn take_in(&mut self, edge: &PoseGraphEdge, terms: &EdgeTerms)
        requires
            old(self).well_formed(),
            edge.from_id < edge.to_id < old(self).size,
        ensures
            final(self).well_formed(),
            final(self).size == old(self).size,
            forall|r: int, c: int|
                0 <= r < old(self).size && 0 <= c < old(self).size ==> #[trigger] final(self).block(
                    r,
                    c,
                ) == match block_term(*edge, *terms, r, c) {
                    Some(m) => old(self).block(r, c).plus(m),
                    None => old(self).block(r, c),
                },
            forall|r: int|
                0 <= r < old(self).size ==> #[trigger] final(self).b@[r] == if r == edge.from_id {
                    old(self).b@[r].plus(terms.b_i)
                } else if r == edge.to_id {
                    old(self).b@[r].plus(terms.b_j)
                } else {
                    old(self).b@[r]
                },
    {
        let i: usize = edge.from_id;
        let j: usize = edge.to_id;
        let ii = self.get(i, i).plus(terms.h_ii);
        let ij = self.get(i, j).plus(terms.h_ij);
        let ji = self.get(j, i).plus(terms.h_ij.transpose());
        let jj = self.get(j, j).plus(terms.h_jj);
        let ghost s0 = *self;
        self.put(i, i, ii);
        let ghost s1 = *self;
        self.put(i, j, ij);
        let ghost s2 = *self;
        self.put(j, i, ji);
        let ghost s3 = *self;
        self.put(j, j, jj);
        let ghost s4 = *self;
        let b_i = self.b[i].plus(terms.b_i);
        let b_j = self.b[j].plus(terms.b_j);
        self.b.set(i, b_i);
        self.b.set(j, b_j);
        assert forall|r: int, c: int|
            0 <= r < s0.size && 0 <= c < s0.size implies #[trigger] self.block(
            r,
            c,
        ) == match block_term(*edge, *terms, r, c) {
            Some(m) => s0.block(r, c).plus(m),
            None => s0.block(r, c),
        } by {
            assert(self.block(r, c) == s4.block(r, c));
            assert(r == j && c == j || s4.block(r, c) == s3.block(r, c));
            assert(r == j && c == i || s3.block(r, c) == s2.block(r, c));
            assert(r == i && c == j || s2.block(r, c) == s1.block(r, c));
            assert(r == i && c == i || s1.block(r, c) == s0.block(r, c));
        }
    }

    /// A block of the damped matrix: the diagonal is raised a little, and that
    /// of the first keyframe so much that the keyframe stays in place.
    pub open spec fn damped_block(&self, row: int, column: int) -> Mat3 {
        if row != column {
            self.block(row, column)
        } else if row == 0 {
            raised(
                raised(self.block(0, 0), F64::from_bits(DAMPING)),
                F64::from_bits(ANCHOR),
            )
        } else {
            raised(self.block(row, row), F64::from_bits(DAMPING))
        }
    }

    /// The system with damping on the diagonal, and the first keyframe held
    /// in place.
    pub fn damped(self) -> (r: GraphSystem)
        requires
            self.well_formed(),
            self.size > 0,
        ensures
            r.well_formed(),
            r.size == self.size,
            r.b@ == self.b@,
            forall|row: int, column: int|
                0 <= row < self.size && 0 <= column < self.size ==> #[trigger] r.block(row, column)
                    == self.damped_block(row, column),
    {
        let mut r = self;
        let mut i: usize = 0;
        while i < r.size
            invariant
                i <= r.size,
                r.well_formed(),
                r.size == self.size,
                r.b@ == self.b@,
                forall|row: int, column: int|
                    0 <= row < r.size && 0 <= column < r.size ==> #[trigger] r.block(row, column)
                        == if row == column && row < i {
                        raised(self.block(row, row), F64::from_bits(DAMPING))
                    } else {
                        self.block(row, column)
                    },
            decreases r.size - i,
        {
            let m = raised(r.get(i, i), F64::from_bits(DAMPING));
            r.put(i, i, m);
            i = i + 1;
        }
        let m = raised(r.get(0, 0), F64::from_bits(ANCHOR));
        r.put(0, 0, m);
        r
    }

    /// The negated vector.
    pub fn right_hand_side(&self) -> (r: Vec<Vec3>)
        ensures
            r@.len() == self.b@.len(),
            forall|i: int| 0 <= i < r@.len() ==> #[trigger] r@[i] == self.b@[i].negated(),
    {
        let mut r: Vec<Vec3> = Vec::new();
        let mut i: usize = 0;
        while i < self.b.len()
            invariant
                i <= self.b.len(),
                r@.len() == i,
                forall|k: int| 0 <= k < i ==> #[trigger] r@[k] == self.b@[k].negated(),
            decreases self.b.len() - i,
        {
            r.push(self.b[i].negated());
            i = i + 1;
        }
        r
    }
}

pub open spec fn spec_raised(m: Mat3, by: F64) -> Mat3 {
    Mat3 {
        r0: Vec3 { x: m.r0.x.plus(by), ..m.r0 },
        r1: Vec3 { y: m.r1.y.plus(by), ..m.r1 },
        r2: Vec3 { z: m.r2.z.plus(by), ..m.r2 },
    }
}

/// The matrix with its diagonal raised.
#[verifier::when_used_as_spec(spec_raised)]
pub fn raised(m: Mat3, by: F64) -> (r: Mat3)
    ensures
        r == raised(m, by),
{
    Mat3 {
        r0: Vec3::new(m.r0.x.plus(by), m.r0.y, m.r0.z),
        r1: Vec3::new(m.r1.x, m.r1.y.plus(by), m.r1.z),
        r2: Vec3::new(m.r2.x, m.r2.y, m.r2.z.plus(by)),
    }
}

/// The differences of all edges whose angles the linear system asks for.
pub fn edge_probes(keyframes: &Vec<Keyframe>, edges: &Vec<PoseGraphEdge>, nudges: &Nudges) -> (r:
    Vec<Vec<Transform2D>>)
    requires
        is_graph(keyframes@, edges@),
    ensures
        r@.len() == edges@.len(),
        forall|e: int| 0 <= e < r@.len() ==> (#[trigger] r@[e])@.len() == PROBES,
        forall|e: int, slot: usize|
            0 <= e < r@.len() && slot < PROBES ==> (#[trigger] r@[e]@[slot as int])
                == edges@[e].probe_at(keyframes@, nudges, slot),
{
    let mut r: Vec<Vec<Transform2D>> = Vec::new();
    let mut e: usize = 0;
    while e < edges.len()
        invariant
            e <= edges.len(),
            is_graph(keyframes@, edges@),
            r@.len() == e,
            forall|k: int| 0 <= k < r@.len() ==> (#[trigger] r@[k])@.len() == PROBES,
            forall|k: int, slot: usize|
                0 <= k < r@.len() && slot < PROBES ==> (#[trigger] r@[k]@[slot as int])
                    == edges@[k].probe_at(keyframes@, nudges, slot),
        decreases edges.len() - e,
    {
        let edge = edges[e];
        assert(edges@[e as int] == edge);
        let mut row: Vec<Transform2D> = Vec::new();
        let mut slot: usize = 0;
        while slot < PROBES
            invariant
                slot <= PROBES,
                edge.from_id < keyframes@.len(),
                edge.to_id < keyframes@.len(),
                row@.len() == slot,
                forall|s: usize|
                    s < slot ==> (#[trigger] row@[s as int]) == edge.probe_at(
                        keyframes@,
                        nudges,
                        s,
                    ),
            decreases PROBES - slot,
        {
            row.push(
                probe(
                    &keyframes[edge.from_id].pose,
                    &keyframes[edge.to_id].pose,
                    &edge.measurement,
                    nudges,
                    slot,
                ),
            );
            slot = slot + 1;
        }
        let ghost done = r@;
        r.push(row);
        assert(forall|k: int| 0 <= k < e ==> r@[k] == done[k]);
        e = e + 1;
    }
    r
}

/// The linear system of the pose graph, from the angles of the differences of
/// all edges.
pub fn build_linear_system(
    keyframes: &Vec<Keyframe>,
    edges: &Vec<PoseGraphEdge>,
    nudges: &Nudges,
    angles: &Vec<Vec<F64>>,
    threshold: F64,
) -> (r: GraphSystem)
    requires
        is_graph(keyframes@, edges@),
        has_angles(edges@, angles@),
    ensures
        r.well_formed(),
        r.size == keyframes@.len(),
        r.holds(
            edges@,
            all_terms(keyframes@, edges@, nudges, angles@, threshold),
            edges@.len(),
        ),
{
    let ghost terms = all_terms(keyframes@, edges@, nudges, angles@, threshold);
    let mut r = GraphSystem::empty(keyframes.len());
    let mut e: usize = 0;
    while e < edges.len()
        invariant
            e <= edges.len(),
            is_graph(keyframes@, edges@),
            has_angles(edges@, angles@),
            terms == all_terms(keyframes@, edges@, nudges, angles@, threshold),
            r.well_formed(),
            r.size == keyframes@.len(),
            r.holds(edges@, terms, e as nat),
        decreases edges.len() - e,
    {
        let edge = edges[e];
        assert(edges@[e as int] == edge);
        assert(angles@[e as int]@.len() == PROBES);
        let own = edge.compute_terms(keyframes, nudges, &angles[e], threshold);
        assert(own == terms[e as int]);
        r.take_in(&edge, &own);
        e = e + 1;
    }
    r
}

/// The keyframe with another pose and all else kept.
pub open spec fn moved(keyframe: Keyframe, delta: Vec3, turn: Rotation2) -> Keyframe {
    Keyframe {
        pose: keyframe.pose.compose(&Transform2D::new(delta.x, delta.y, turn)),
        ..keyframe
    }
}

/// Move every keyframe by its part of the solution; `turns` holds the
/// rotations by the angles in it.
pub fn apply_update(keyframes: &mut Vec<Keyframe>, dx: &Vec<Vec3>, turns: &Vec<Rotation2>)
    requires
        dx@.len() == old(keyframes)@.len(),
        turns@.len() == old(keyframes)@.len(),
    ensures
        final(keyframes)@.len() == old(keyframes)@.len(),
        forall|i: int|
            0 <= i < old(keyframes)@.len() ==> #[trigger] final(keyframes)@[i] == moved(
                old(keyframes)@[i],
                dx@[i],
                turns@[i],
            ),
{
    let mut i: usize = 0;
    while i < keyframes.len()
        invariant
            i <= keyframes.len(),
            keyframes@.len() == old(keyframes)@.len(),
            dx@.len() == old(keyframes)@.len(),
            turns@.len() == old(keyframes)@.len(),
            forall|k: int|
                0 <= k < i ==> #[trigger] keyframes@[k] == moved(
                    old(keyframes)@[k],
                    dx@[k],
                    turns@[k],
                ),
            forall|k: int|
                i <= k < keyframes@.len() ==> #[trigger] keyframes@[k] == old(keyframes)@[k],
        decreases keyframes.len() - i,
    {
        let delta = Transform2D::new(dx[i].x, dx[i].y, turns[i]);
        let pose = keyframes[i].pose.compose(&delta);
        keyframes[i].pose = pose;
        i = i + 1;
    }
}

proof fn lemma_mirrored(
    edges: Seq<PoseGraphEdge>,
    terms: Seq<EdgeTerms>,
    row: int,
    column: int,
    n: nat,
)
    requires
        row != column,
    ensures
        block_sum(edges, terms, column, row, n) == block_sum(
            edges,
            terms,
            row,
            column,
            n,
        ).transpose(),
    decreases n,
{
    if n > 0 {
        lemma_mirrored(edges, terms, row, column, (n - 1) as nat);
    }
}

/// The blocks of the matrix away from the diagonal mirror each other.
pub proof fn the_matrix_is_mirrored(
    system: GraphSystem,
    edges: Seq<PoseGraphEdge>,
    terms: Seq<EdgeTerms>,
    row: int,
    column: int,
)
    requires
        system.holds(edges, terms, edges.len()),
        0 <= row < system.size,
        0 <= column < system.size,
        row != column,
    ensures
        system.block(column, row) == system.block(row, column).transpose(),
{
    lemma_mirrored(edges, terms, row, column, edges.len());
}

/// Keyframes that no edge joins do not see each other in the matrix.
pub proof fn strangers_share_no_block(
    system: GraphSystem,
    edges: Seq<PoseGraphEdge>,
    terms: Seq<EdgeTerms>,
    row: int,
    column: int,
)
    requires
        system.holds(edges, terms, edges.len()),
        0 <= row < system.size,
        0 <= column < system.size,
        row != column,
        forall|e: int|
            0 <= e < edges.len() ==> !((#[trigger] edges[e]).from_id == row && edges[e].to_id
                == column) && !(edges[e].from_id == column && edges[e].to_id == row),
    ensures
        system.block(row, column) == Mat3::zeros(),
{
    lemma_untouched(edges, terms, row, column, edges.len());
}

proof fn lemma_untouched(
    edges: Seq<PoseGraphEdge>,
    terms: Seq<EdgeTerms>,
    row: int,
    column: int,
    n: nat,
)
    requires
        n <= edges.len(),
        row != column,
        forall|e: int|
            0 <= e < edges.len() ==> !((#[trigger] edges[e]).from_id == row && edges[e].to_id
                == column) && !(edges[e].from_id == column && edges[e].to_id == row),
    ensures
        block_sum(edges, terms, row, column, n) == Mat3::zeros(),
    decreases n,
{
    if n > 0 {
        lemma_untouched(edges, terms, row, column, (n - 1) as nat);
        assert(edges[n - 1].from_id == edges[n - 1].from_id);
    }
}

/// Moving the keyframes keeps their number, their ids, scans, times and
/// descriptors, and with them the graph.
pub proof fn updates_keep_the_graph(
    before: Seq<Keyframe>,
    after: Seq<Keyframe>,
    edges: Seq<PoseGraphEdge>,
    dx: Seq<Vec3>,
    turns: Seq<Rotation2>,
)
    requires
        is_graph(before, edges),
        after.len() == before.len(),
        forall|i: int|
            0 <= i < before.len() ==> #[trigger] after[i] == moved(before[i], dx[i], turns[i]),
    ensures
        is_graph(after, edges),
        forall|i: int|
            0 <= i < before.len() ==> (#[trigger] after[i]).id == before[i].id && after[i].scan
                == before[i].scan && after[i].timestamp == before[i].timestamp
                && after[i].descriptor == before[i].descriptor,
{
}

/// No residual is given more than its full weight: the weight of a finite
/// residual under a positive finite threshold lies between nothing and one,
/// and is one where the residual does not exceed the threshold.
pub proof fn huber_weights_are_at_most_one(residual_norm: F64, threshold: F64)
    requires
        residual_norm.finite(),
        residual_norm.value() >= 0,
        threshold.finite(),
        threshold.value() > 0,
    ensures
        huber_weight(residual_norm, threshold).bits <= ONE,
        residual_norm.at_most(threshold) ==> huber_weight(residual_norm, threshold).bits == ONE,
{
    let f = Format::double();
    reveal(F64::spec_at_most);
    if !residual_norm.at_most(threshold) {
        let (a, b) = (threshold.bits, residual_norm.bits);
        let unit = pow2(1074);
        reveal(F64::spec_over);
        lemma_pow2_pos(1074);
        f.lemma_zero();
        crate::float::double::zero_has_no_value(residual_norm);
        assert((f.size(a) * unit) * 1 <= unit * f.size(b)) by (nonlinear_arith)
            requires
                f.size(a) <= f.size(b),
                unit > 0,
        ;
        f.rounding_keeps_order(f.size(a) * unit, f.size(b), unit, 1);
        crate::float::double::lemma_one();
        f.rounding_keeps_numbers(ONE as nat);
        f.lemma_signed(false, f.rounded(f.size(a) * unit, f.size(b)));
    }
}

/// The difference of two headings is taken the shortest way around.
pub proof fn heading_differences_are_in_range(plus: F64, minus: F64)
    requires
        plus.minus(minus).finite(),
    ensures
        -F64::from_bits(crate::transforms::PI).value() <= residual_delta(plus, minus, 2).value()
            < F64::from_bits(crate::transforms::PI).value(),
{
    crate::transforms::normalized_angles_are_in_range(plus.minus(minus));
}

} // verus!
