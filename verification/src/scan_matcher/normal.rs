//! The normal equations of one matching step.
//!
//! Six unknowns: a shift along the three axes and a turn by roll, pitch and
//! yaw. Matrices and vectors over them are held in blocks of three.
use vstd::prelude::*;

use crate::float::double::F64;
use crate::float::single::F32;
use crate::linear::{Mat3, Vec3};
use crate::transforms::Rotation2;

verus! {

/// The pattern of 1e-6: the step of the difference quotients, and what is
/// added to a diagonal before it is inverted.
pub const SMALL: u64 = 0x3eb0_c6f7_a0b5_ed8d;

/// The pattern of -1.0.
pub const MINUS_ONE: u64 = 0xbff0_0000_0000_0000;

/// A vector over the six unknowns.
#[derive(Clone, Copy, Debug)]
pub struct Vec6 {
    pub shift: Vec3,
    pub turn: Vec3,
}

/// A matrix over the six unknowns.
#[derive(Clone, Copy, Debug)]
pub struct Mat6 {
    pub shift_shift: Mat3,
    pub shift_turn: Mat3,
    pub turn_shift: Mat3,
    pub turn_turn: Mat3,
}

impl Vec6 {
    pub open spec fn spec_zeros() -> Vec6 {
        Vec6 { shift: Vec3::zeros(), turn: Vec3::zeros() }
    }

    /// The vector without length.
    #[verifier::when_used_as_spec(spec_zeros)]
    pub fn zeros() -> (r: Vec6)
        ensures
            r == Vec6::zeros(),
    {
        Vec6 { shift: Vec3::zeros(), turn: Vec3::zeros() }
    }

    pub open spec fn spec_plus(self, other: Vec6) -> Vec6 {
        Vec6 { shift: self.shift.plus(other.shift), turn: self.turn.plus(other.turn) }
    }

    /// `self + other`.
    #[verifier::when_used_as_spec(spec_plus)]
    pub fn plus(self, other: Vec6) -> (r: Vec6)
        ensures
            r == self.plus(other),
    {
        Vec6 { shift: self.shift.plus(other.shift), turn: self.turn.plus(other.turn) }
    }

    pub open spec fn spec_negated(self) -> Vec6 {
        Vec6 { shift: self.shift.negated(), turn: self.turn.negated() }
    }

    /// `-self`.
    #[verifier::when_used_as_spec(spec_negated)]
    pub fn negated(self) -> (r: Vec6)
        ensures
            r == self.negated(),
    {
        Vec6 { shift: self.shift.negated(), turn: self.turn.negated() }
    }

    pub open spec fn spec_norm(self) -> F64 {
        let (s, t) = (self.shift, self.turn);
        s.x.times(s.x).plus(s.y.times(s.y)).plus(s.z.times(s.z)).plus(t.x.times(t.x)).plus(
            t.y.times(t.y),
        ).plus(t.z.times(t.z)).sqrt()
    }

    /// The length, its squares summed from the first component on.
    #[verifier::when_used_as_spec(spec_norm)]
    pub fn norm(self) -> (r: F64)
        ensures
            r == self.norm(),
    {
        let (s, t) = (self.shift, self.turn);
        s.x.times(s.x).plus(s.y.times(s.y)).plus(s.z.times(s.z)).plus(t.x.times(t.x)).plus(
            t.y.times(t.y),
        ).plus(t.z.times(t.z)).sqrt()
    }
}

impl Mat6 {
    pub open spec fn spec_zeros() -> Mat6 {
        let zeros = Mat3::zeros();
        Mat6 { shift_shift: zeros, shift_turn: zeros, turn_shift: zeros, turn_turn: zeros }
    }

    /// The matrix without entries.
    #[verifier::when_used_as_spec(spec_zeros)]
    pub fn zeros() -> (r: Mat6)
        ensures
            r == Mat6::zeros(),
    {
        let zeros = Mat3::zeros();
        Mat6 { shift_shift: zeros, shift_turn: zeros, turn_shift: zeros, turn_turn: zeros }
    }

    pub open spec fn spec_plus(self, other: Mat6) -> Mat6 {
        Mat6 {
            shift_shift: self.shift_shift.plus(other.shift_shift),
            shift_turn: self.shift_turn.plus(other.shift_turn),
            turn_shift: self.turn_shift.plus(other.turn_shift),
            turn_turn: self.turn_turn.plus(other.turn_turn),
        }
    }

    /// `self + other`.
    #[verifier::when_used_as_spec(spec_plus)]
    pub fn plus(self, other: Mat6) -> (r: Mat6)
        ensures
            r == self.plus(other),
    {
        Mat6 {
            shift_shift: self.shift_shift.plus(other.shift_shift),
            shift_turn: self.shift_turn.plus(other.shift_turn),
            turn_shift: self.turn_shift.plus(other.turn_shift),
            turn_turn: self.turn_turn.plus(other.turn_turn),
        }
    }

    pub open spec fn spec_uniform(k: F64) -> Mat6 {
        Mat6 {
            shift_shift: Mat3::identity().scaled(k),
            shift_turn: Mat3::zeros().scaled(k),
            turn_shift: Mat3::zeros().scaled(k),
            turn_turn: Mat3::identity().scaled(k),
        }
    }

    /// The identity times `k`.
    #[verifier::when_used_as_spec(spec_uniform)]
    pub fn uniform(k: F64) -> (r: Mat6)
        ensures
            r == Mat6::uniform(k),
    {
        Mat6 {
            shift_shift: Mat3::identity().scaled(k),
            shift_turn: Mat3::zeros().scaled(k),
            turn_shift: Mat3::zeros().scaled(k),
            turn_turn: Mat3::identity().scaled(k),
        }
    }

    pub open spec fn spec_regularized(self) -> Mat6 {
        self.plus(Mat6::uniform(F64::from_bits(SMALL)))
    }

    /// The matrix with a little added to its diagonal.
    #[verifier::when_used_as_spec(spec_regularized)]
    pub fn regularized(self) -> (r: Mat6)
        ensures
            r == self.regularized(),
    {
        self.plus(Mat6::uniform(F64::from_bits(SMALL)))
    }
}

#[verifier::opaque]
pub open spec fn spec_rotation_from_euler(
    roll: Rotation2,
    pitch: Rotation2,
    yaw: Rotation2,
) -> Mat3 {
    let (sr, cr) = (roll.sin, roll.cos);
    let (sp, cp) = (pitch.sin, pitch.cos);
    let (sy, cy) = (yaw.sin, yaw.cos);
    Mat3 {
        r0: Vec3::new(
            cy.times(cp),
            cy.times(sp).times(sr).minus(sy.times(cr)),
            cy.times(sp).times(cr).plus(sy.times(sr)),
        ),
        r1: Vec3::new(
            sy.times(cp),
            sy.times(sp).times(sr).plus(cy.times(cr)),
            sy.times(sp).times(cr).minus(cy.times(sr)),
        ),
        r2: Vec3::new(sp.negated(), cp.times(sr), cp.times(cr)),
    }
}

/// Compute rotation matrix from Euler angles (roll, pitch, yaw).
#[verifier::when_used_as_spec(spec_rotation_from_euler)]
pub fn rotation_from_euler(roll: Rotation2, pitch: Rotation2, yaw: Rotation2) -> (r: Mat3)
    ensures
        r == rotation_from_euler(roll, pitch, yaw),
{
    proof {
        reveal(spec_rotation_from_euler);
    }
    let (sr, cr) = (roll.sin, roll.cos);
    let (sp, cp) = (pitch.sin, pitch.cos);
    let (sy, cy) = (yaw.sin, yaw.cos);
    Mat3 {
        r0: Vec3::new(
            cy.times(cp),
            cy.times(sp).times(sr).minus(sy.times(cr)),
            cy.times(sp).times(cr).plus(sy.times(sr)),
        ),
        r1: Vec3::new(
            sy.times(cp),
            sy.times(sp).times(sr).plus(cy.times(cr)),
            sy.times(sp).times(cr).minus(cy.times(sr)),
        ),
        r2: Vec3::new(sp.negated(), cp.times(sr), cp.times(cr)),
    }
}

/// The rotations by the three angles of a pose, and by each angle a small
/// step further on.
#[derive(Clone, Copy, Debug)]
pub struct Turns {
    pub roll: Rotation2,
    pub pitch: Rotation2,
    pub yaw: Rotation2,
    pub roll_on: Rotation2,
    pub pitch_on: Rotation2,
    pub yaw_on: Rotation2,
}

/// The rotation of a pose, and the rotations a small step further on.
#[derive(Clone, Copy, Debug)]
pub struct Attitude {
    pub rot: Mat3,
    pub on_roll: Mat3,
    pub on_pitch: Mat3,
    pub on_yaw: Mat3,
}

impl Turns {
    pub open spec fn spec_attitude(self) -> Attitude {
        Attitude {
            rot: rotation_from_euler(self.roll, self.pitch, self.yaw),
            on_roll: rotation_from_euler(self.roll_on, self.pitch, self.yaw),
            on_pitch: rotation_from_euler(self.roll, self.pitch_on, self.yaw),
            on_yaw: rotation_from_euler(self.roll, self.pitch, self.yaw_on),
        }
    }

    /// The four rotation matrices.
    #[verifier::when_used_as_spec(spec_attitude)]
    pub fn attitude(self) -> (r: Attitude)
        ensures
            r == self.attitude(),
    {
        Attitude {
            rot: rotation_from_euler(self.roll, self.pitch, self.yaw),
            on_roll: rotation_from_euler(self.roll_on, self.pitch, self.yaw),
            on_pitch: rotation_from_euler(self.roll, self.pitch_on, self.yaw),
            on_yaw: rotation_from_euler(self.roll, self.pitch, self.yaw_on),
        }
    }
}

/// The derivatives of a residual by the shift and by the turn.
#[derive(Clone, Copy, Debug)]
pub struct Jacobian {
    pub shift: Mat3,
    pub turn: Mat3,
}

#[verifier::opaque]
pub open spec fn spec_slope(on: Vec3, from: Vec3) -> Vec3 {
    on.minus(from).negated().over(F64::from_bits(SMALL))
}

/// The difference quotient of a residual, which falls as the point moves on.
#[verifier::when_used_as_spec(spec_slope)]
pub fn slope(on: Vec3, from: Vec3) -> (r: Vec3)
    ensures
        r == slope(on, from),
{
    proof {
        reveal(spec_slope);
    }
    on.minus(from).negated().over(F64::from_bits(SMALL))
}

pub open spec fn spec_compute_jacobian(cur_pt: Vec3, at: Attitude) -> Jacobian {
    let turned = at.rot.apply(cur_pt);
    let less = F64::from_bits(MINUS_ONE);
    Jacobian {
        shift: Mat3::diagonal(Vec3::new(less, less, less)),
        turn: Mat3 {
            r0: slope(at.on_roll.apply(cur_pt), turned),
            r1: slope(at.on_pitch.apply(cur_pt), turned),
            r2: slope(at.on_yaw.apply(cur_pt), turned),
        }.transpose(),
    }
}

/// Compute Jacobian of residual w.r.t. pose parameters.
#[verifier::when_used_as_spec(spec_compute_jacobian)]
pub fn compute_jacobian(cur_pt: Vec3, at: Attitude) -> (r: Jacobian)
    ensures
        r == compute_jacobian(cur_pt, at),
{
    let turned = at.rot.apply(cur_pt);
    let less = F64::from_bits(MINUS_ONE);
    let rows = Mat3 {
        r0: slope(at.on_roll.apply(cur_pt), turned),
        r1: slope(at.on_pitch.apply(cur_pt), turned),
        r2: slope(at.on_yaw.apply(cur_pt), turned),
    };
    Jacobian { shift: Mat3::diagonal(Vec3::new(less, less, less)), turn: rows.transpose() }
}

impl Jacobian {
    #[verifier::opaque]
    pub open spec fn spec_normal(self, weight: Mat3) -> Mat6 {
        let top = self.shift.transpose().times(weight);
        let low = self.turn.transpose().times(weight);
        Mat6 {
            shift_shift: top.times(self.shift),
            shift_turn: top.times(self.turn),
            turn_shift: low.times(self.shift),
            turn_turn: low.times(self.turn),
        }
    }

    /// `J^T * weight * J`.
    #[verifier::when_used_as_spec(spec_normal)]
    pub fn normal(self, weight: Mat3) -> (r: Mat6)
        ensures
            r == self.normal(weight),
    {
        proof {
            reveal(Jacobian::spec_normal);
        }
        let top = self.shift.transpose().times(weight);
        let low = self.turn.transpose().times(weight);
        Mat6 {
            shift_shift: top.times(self.shift),
            shift_turn: top.times(self.turn),
            turn_shift: low.times(self.shift),
            turn_turn: low.times(self.turn),
        }
    }

    #[verifier::opaque]
    pub open spec fn spec_pull(self, force: Vec3) -> Vec6 {
        Vec6 {
            shift: self.shift.transpose().apply(force),
            turn: self.turn.transpose().apply(force),
        }
    }

    /// `J^T * force`.
    #[verifier::when_used_as_spec(spec_pull)]
    pub fn pull(self, force: Vec3) -> (r: Vec6)
        ensures
            r == self.pull(force),
    {
        proof {
            reveal(Jacobian::spec_pull);
        }
        Vec6 {
            shift: self.shift.transpose().apply(force),
            turn: self.turn.transpose().apply(force),
        }
    }
}

#[verifier::opaque]
pub open spec fn spec_match_weight(c_ref: Mat3, c_cur: Mat3, rot: Mat3) -> Mat3 {
    let combined = c_ref.plus(rot.times(c_cur).times(rot.transpose()));
    match combined.plus(Mat3::identity().scaled(F64::from_bits(SMALL))).try_inverse() {
        Some(inverse) => inverse,
        None => Mat3::identity(),
    }
}

/// The weight of a correspondence: the inverse of the combined covariances.
#[verifier::when_used_as_spec(spec_match_weight)]
pub fn match_weight(c_ref: Mat3, c_cur: Mat3, rot: Mat3) -> (r: Mat3)
    ensures
        r == match_weight(c_ref, c_cur, rot),
{
    proof {
        reveal(spec_match_weight);
    }
    let combined = c_ref.plus(rot.times(c_cur).times(rot.transpose()));
    match combined.plus(Mat3::identity().scaled(F64::from_bits(SMALL))).try_inverse() {
        Some(inverse) => inverse,
        None => Mat3::identity(),
    }
}

/// The reference point nearest to a query, and its squared distance.
#[derive(Clone, Copy, Debug)]
pub struct Nearest {
    pub item: usize,
    pub distance: F32,
}

/// Two downsampled scans with the covariances of their points.
#[derive(Debug)]
pub struct Scans {
    pub reference: Vec<Vec3>,
    pub current: Vec<Vec3>,
    pub reference_covariances: Vec<Mat3>,
    pub current_covariances: Vec<Mat3>,
    /// Squared distance beyond which points do not correspond
    pub max_dist_sq: F32,
}

/// What the correspondences add up to.
#[derive(Clone, Copy, Debug)]
pub struct Tally {
    pub h: Mat6,
    pub b: Vec6,
    pub valid: usize,
}

impl Scans {
    /// Each point has a covariance.
    pub open spec fn well_formed(self) -> bool {
        &&& self.reference_covariances@.len() == self.reference@.len()
        &&& self.current_covariances@.len() == self.current@.len()
    }

    /// There is an answer for each current point, and it names a reference
    /// point.
    pub open spec fn answered(self, nearest: Seq<Nearest>) -> bool {
        &&& nearest.len() == self.current@.len()
        &&& forall|j: int|
            0 <= j < nearest.len() ==> (#[trigger] nearest[j]).item < self.reference@.len()
    }

    /// The tally of the first `n` current points.
    pub open spec fn tally(
        self,
        at: Attitude,
        trans: Vec3,
        nearest: Seq<Nearest>,
        n: nat,
    ) -> Tally
        decreases n,
    {
        if n == 0 {
            Tally { h: Mat6::zeros(), b: Vec6::zeros(), valid: 0 }
        } else {
            let before = self.tally(at, trans, nearest, (n - 1) as nat);
            let nn = nearest[n - 1];
            if self.max_dist_sq.less(nn.distance) {
                before
            } else {
                let cur_pt = self.current@[n - 1];
                let weight = match_weight(
                    self.reference_covariances@[nn.item as int],
                    self.current_covariances@[n - 1],
                    at.rot,
                );
                let residual = self.reference@[nn.item as int].minus(
                    at.rot.apply(cur_pt).plus(trans),
                );
                let jac = compute_jacobian(cur_pt, at);
                Tally {
                    h: before.h.plus(jac.normal(weight)),
                    b: before.b.plus(jac.pull(weight.apply(residual))),
                    valid: (before.valid + 1) as usize,
                }
            }
        }
    }

    /// Where the current points come to lie, in single precision.
    pub open spec fn places(self, at: Attitude, trans: Vec3) -> Seq<(F32, F32, F32)> {
        Seq::new(
            self.current@.len(),
            |j: int|
                {
                    let p = at.rot.apply(self.current@[j]).plus(trans);
                    (p.x.to_single(), p.y.to_single(), p.z.to_single())
                },
        )
    }

    /// Where the current points come to lie, in single precision.
    pub fn queries(&self, at: &Attitude, trans: Vec3) -> (r: Vec<(F32, F32, F32)>)
        ensures
            r@ == self.places(*at, trans),
    {
        let mut r: Vec<(F32, F32, F32)> = Vec::new();
        let mut j: usize = 0;
        while j < self.current.len()
            invariant
                j <= self.current.len(),
                r@.len() == j,
                forall|k: int|
                    0 <= k < j ==> #[trigger] r@[k] == ({
                        let p = at.rot.apply(self.current@[k]).plus(trans);
                        (p.x.to_single(), p.y.to_single(), p.z.to_single())
                    }),
            decreases self.current.len() - j,
        {
            let p = at.rot.apply(self.current[j]).plus(trans);
            r.push((p.x.to_single(), p.y.to_single(), p.z.to_single()));
            j = j + 1;
        }
        assert(r@ =~= self.places(*at, trans));
        r
    }

    /// Add up the correspondences of all current points.
    pub fn tally_all(&self, at: &Attitude, trans: Vec3, nearest: &Vec<Nearest>) -> (r: Tally)
        requires
            self.well_formed(),
            self.answered(nearest@),
        ensures
            r == self.tally(*at, trans, nearest@, self.current@.len()),
            r.valid <= self.current@.len(),
    {
        let mut sums = Tally { h: Mat6::zeros(), b: Vec6::zeros(), valid: 0 };
        let mut j: usize = 0;
        while j < self.current.len()
            invariant
                j <= self.current.len(),
                self.well_formed(),
                self.answered(nearest@),
                sums == self.tally(*at, trans, nearest@, j as nat),
                sums.valid <= j,
            decreases self.current.len() - j,
        {
            let nn = nearest[j];
            if !self.max_dist_sq.less(nn.distance) {
                let cur_pt = self.current[j];
                let weight = match_weight(
                    self.reference_covariances[nn.item],
                    self.current_covariances[j],
                    at.rot,
                );
                let residual = self.reference[nn.item].minus(at.rot.apply(cur_pt).plus(trans));
                let jac = compute_jacobian(cur_pt, *at);
                sums = Tally {
                    h: sums.h.plus(jac.normal(weight)),
                    b: sums.b.plus(jac.pull(weight.apply(residual))),
                    valid: sums.valid + 1,
                };
            }
            j = j + 1;
        }
        sums
    }
}

} // verus!
