//! What the edges of the map ask for, and what an optimization does to a graph
//! that agrees with its poses up to rounding.
use vstd::arithmetic::power2::*;
use vstd::prelude::*;

use crate::error::SlamError;
use crate::float::double::F64;
use crate::graph::{GraphSystem, Keyframe, Nudges, PoseGraphEdge, EPSILON};
use crate::linear::{Mat3, Vec3};
use crate::optimizer::{GraphAnswer, GraphNext, GraphStage, GraphStep};
use crate::processor::SlamProcessor;
use crate::transforms::{Transform2D, PI};

verus! {

/// A finite number of at most `bound` units.
pub open spec fn is_bounded(x: F64, bound: int) -> bool {
    x.finite() && crate::nearness::magnitude_of(x.value()) <= bound
}

/// A vector of such numbers.
pub open spec fn is_bounded_vector(v: Vec3, bound: int) -> bool {
    is_bounded(v.x, bound) && is_bounded(v.y, bound) && is_bounded(v.z, bound)
}

/// A matrix of such numbers.
pub open spec fn is_bounded_matrix(m: Mat3, bound: int) -> bool {
    &&& is_bounded_vector(m.r0, bound)
    &&& is_bounded_vector(m.r1, bound)
    &&& is_bounded_vector(m.r2, bound)
}

impl SlamProcessor {
    /// Every edge agrees with the poses that it joins within `2^52 * g` units
    /// of its error.
    pub open spec fn nearly_agrees(
        &self,
        nudges: &Nudges,
        angles: Seq<Vec<F64>>,
        g: int,
    ) -> bool {
        forall|e: int|
            0 <= e < self.edges@.len() ==> is_bounded_vector(
                (#[trigger] self.edges@[e]).error_at(self.keyframes@, nudges, angles[e]@, 0),
                0x10_0000_0000_0000 * g,
            )
    }

    /// The weighted derivatives of every edge are at most `c`.
    pub open spec fn has_bounded_slopes(
        &self,
        nudges: &Nudges,
        angles: Seq<Vec<F64>>,
        c: int,
    ) -> bool {
        forall|e: int|
            0 <= e < self.edges@.len() ==> {
                let edge = #[trigger] self.edges@[e];
                let error = edge.error_at(self.keyframes@, nudges, angles[e]@, 0);
                let omega = edge.omega(error, self.config.huber_threshold);
                let j_i = edge.jacobian(self.keyframes@, nudges, angles[e]@, false);
                let j_j = edge.jacobian(self.keyframes@, nudges, angles[e]@, true);
                let unit = crate::nearness::one_unit();
                &&& is_bounded_matrix(j_i.transpose().times(omega), c * unit)
                &&& is_bounded_matrix(j_j.transpose().times(omega), c * unit)
            }
    }
}

/// The error of an edge is small where the way between its poses agrees with
/// its measurement: within `k` last places of the rotation and `e` units of the
/// shift. The first of the angles is that of the difference.
pub proof fn agreeing_edges_have_small_errors(
    edge: PoseGraphEdge,
    keyframes: Seq<Keyframe>,
    nudges: Nudges,
    angles: Seq<F64>,
    w: int,
    k: int,
    e: int,
    g: int,
)
    requires
        edge.from_id < keyframes.len(),
        edge.to_id < keyframes.len(),
        angles.len() == crate::graph::PROBES,
        ({
            let way = keyframes[edge.from_id as int].pose.relative_to(
                &keyframes[edge.to_id as int].pose,
            );
            &&& crate::nearness::within(edge.measurement, 2, w)
            &&& crate::nearness::within(way, 2, w)
            &&& crate::nearness::agree(way, edge.measurement, k, e)
            &&& crate::nearness::has_finite_shift(way.relative_to(&edge.measurement))
        }),
        1 <= w,
        4 * e + 32 * w <= 0x10_0000_0000_0000 * g,
        is_bounded(angles[0], 0x10_0000_0000_0000 * g),
        -F64::from_bits(PI).value() <= angles[0].value() < F64::from_bits(PI).value(),
    ensures
        is_bounded_vector(
            edge.error_at(keyframes, &nudges, angles, 0),
            0x10_0000_0000_0000 * g,
        ),
{
    let way = keyframes[edge.from_id as int].pose.relative_to(
        &keyframes[edge.to_id as int].pose,
    );
    crate::nearness::transforms_that_agree_are_not_far_apart(way, edge.measurement, w, k, e);
    crate::transforms::angles_in_range_are_kept(angles[0]);
    reveal(crate::graph::spec_edge_difference);
}

/// An inner product of bounded vectors.
proof fn lemma_bounded_product(row: Vec3, v: Vec3, c: int, g: int)
    requires
        1 <= c,
        1 <= g,
        4 * (c * g) <= pow2(2044),
        is_bounded_vector(row, c * crate::nearness::one_unit()),
        is_bounded_vector(v, 0x10_0000_0000_0000 * g),
    ensures
        is_bounded(row.dot(v), 0x10_0000_0000_0000 * (4 * (c * g))),
{
    let t = c * g;
    reveal(Vec3::spec_dot);
    crate::nearness::lemma_product_size(row.x, v.x, c, g);
    crate::nearness::lemma_product_size(row.y, v.y, c, g);
    crate::nearness::lemma_product_size(row.z, v.z, c, g);
    crate::nearness::lemma_product_fits(row.x, v.x, t);
    crate::nearness::lemma_product_fits(row.y, v.y, t);
    crate::nearness::lemma_product_fits(row.z, v.z, t);
    crate::nearness::lemma_one_product(row.x, v.x, c, g);
    crate::nearness::lemma_one_product(row.y, v.y, c, g);
    crate::nearness::lemma_one_product(row.z, v.z, c, g);
    let (p, q, r) = (row.x.times(v.x), row.y.times(v.y), row.z.times(v.z));
    crate::nearness::lemma_sum_fits(p, q, 3 * t);
    crate::nearness::lemma_sum_error(p, q, 3 * t);
    crate::nearness::lemma_sum_fits(p.plus(q), r, 4 * t);
    crate::nearness::lemma_sum_error(p.plus(q), r, 4 * t);
}

proof fn lemma_bounded_pull(m: Mat3, v: Vec3, c: int, g: int)
    requires
        1 <= c,
        1 <= g,
        4 * (c * g) <= pow2(2044),
        is_bounded_matrix(m, c * crate::nearness::one_unit()),
        is_bounded_vector(v, 0x10_0000_0000_0000 * g),
    ensures
        is_bounded_vector(m.apply(v), 0x10_0000_0000_0000 * (4 * (c * g))),
{
    lemma_bounded_product(m.r0, v, c, g);
    lemma_bounded_product(m.r1, v, c, g);
    lemma_bounded_product(m.r2, v, c, g);
}

/// One more term of a sum of `n`.
proof fn lemma_bounded_sum(a: F64, b: F64, n: int, t: int)
    requires
        1 <= n <= 0x8_0000_0000_0000,
        1 <= t,
        8 * (n * t) <= pow2(2044),
        is_bounded(a, 0x10_0000_0000_0000 * (8 * ((n - 1) * t))),
        is_bounded(b, 0x10_0000_0000_0000 * (4 * t)),
    ensures
        is_bounded(a.plus(b), 0x10_0000_0000_0000 * (8 * (n * t))),
{
    let w = 8 * (n * t) - 4 * t;
    assert((n - 1) * t == n * t - t) by (nonlinear_arith);
    assert(n * t >= t) by (nonlinear_arith)
        requires
            n >= 1,
            t >= 1,
    ;
    assert(n * t <= 0x8_0000_0000_0000 * t) by (nonlinear_arith)
        requires
            n <= 0x8_0000_0000_0000,
            t >= 1,
    ;
    crate::nearness::lemma_sum_fits(a, b, w);
    crate::nearness::lemma_sum_error(a, b, w);
}

proof fn lemma_bounded_vector_sum(a: Vec3, b: Vec3, n: int, t: int)
    requires
        1 <= n <= 0x8_0000_0000_0000,
        1 <= t,
        8 * (n * t) <= pow2(2044),
        is_bounded_vector(a, 0x10_0000_0000_0000 * (8 * ((n - 1) * t))),
        is_bounded_vector(b, 0x10_0000_0000_0000 * (4 * t)),
    ensures
        is_bounded_vector(a.plus(b), 0x10_0000_0000_0000 * (8 * (n * t))),
{
    lemma_bounded_sum(a.x, b.x, n, t);
    lemma_bounded_sum(a.y, b.y, n, t);
    lemma_bounded_sum(a.z, b.z, n, t);
}

proof fn lemma_bounded_side(
    slam: SlamProcessor,
    nudges: &Nudges,
    angles: Seq<Vec<F64>>,
    c: int,
    g: int,
    row: int,
    n: nat,
)
    requires
        slam.nearly_agrees(nudges, angles, g),
        slam.has_bounded_slopes(nudges, angles, c),
        n <= slam.edges@.len() <= 0x8_0000_0000_0000,
        1 <= c,
        1 <= g,
        8 * (slam.edges@.len() * (c * g)) <= pow2(2044),
    ensures
        is_bounded_vector(
            crate::graph::side_sum(
                slam.edges@,
                crate::graph::all_terms(
                    slam.keyframes@,
                    slam.edges@,
                    nudges,
                    angles,
                    slam.config.huber_threshold,
                ),
                row,
                n,
            ),
            0x10_0000_0000_0000 * (8 * (n * (c * g))),
        ),
    decreases n,
{
    let edges = slam.edges@;
    let t = c * g;
    assert(t >= 1) by (nonlinear_arith)
        requires
            t == c * g,
            c >= 1,
            g >= 1,
    ;
    let terms = crate::graph::all_terms(
        slam.keyframes@,
        edges,
        nudges,
        angles,
        slam.config.huber_threshold,
    );
    if n > 0 {
        let m = (n - 1) as nat;
        lemma_bounded_side(slam, nudges, angles, c, g, row, m);
        let edge = edges[m as int];
        let own = angles[m as int]@;
        let before = crate::graph::side_sum(edges, terms, row, m);
        let error = edge.error_at(slam.keyframes@, nudges, own, 0);
        let omega = edge.omega(error, slam.config.huber_threshold);
        let j_i = edge.jacobian(slam.keyframes@, nudges, own, false);
        let j_j = edge.jacobian(slam.keyframes@, nudges, own, true);
        assert(terms[m as int] == edge.terms(
            slam.keyframes@,
            nudges,
            own,
            slam.config.huber_threshold,
        ));
        reveal(crate::graph::spec_normal_terms);
        assert(n * t <= edges.len() * t && t <= n * t && m * t <= n * t && 0 <= m * t)
            by (nonlinear_arith)
            requires
                1 <= n <= edges.len(),
                m == n - 1,
                t >= 1,
        ;
        lemma_bounded_pull(j_i.transpose().times(omega), error, c, g);
        lemma_bounded_pull(j_j.transpose().times(omega), error, c, g);
        lemma_bounded_vector_sum(before, terms[m as int].b_i, n as int, t);
        lemma_bounded_vector_sum(before, terms[m as int].b_j, n as int, t);
    } else {
        assert(0 * t == 0);
        crate::float::double::zero_has_no_value(F64::from_bits(0));
    }
}

/// Small errors ask for a small step: where every error is at most `2^52 * g`
/// units and every weighted derivative at most `c`, no entry of the right-hand
/// side exceeds the number of edges times `8 * c` times that bound. The number
/// of edges is one that a memory can hold, and the bound far from overflow.
pub proof fn small_errors_ask_for_small_steps(
    slam: SlamProcessor,
    taken: usize,
    nudges: Nudges,
    probes: Vec<Vec<Transform2D>>,
    angles: Vec<Vec<F64>>,
    after: SlamProcessor,
    outcome: Result<GraphNext, SlamError>,
    c: int,
    g: int,
)
    requires
        slam.nearly_agrees(&nudges, angles@, g),
        slam.has_bounded_slopes(&nudges, angles@, c),
        slam.edges@.len() <= 0x8_0000_0000_0000,
        1 <= c,
        1 <= g,
        8 * (slam.edges@.len() * (c * g)) <= pow2(2044),
        GraphStage::Probe(taken, nudges, probes).leads_to(
            &slam,
            GraphAnswer::Angles(angles),
            &after,
            outcome,
        ),
    ensures
        after == slam,
        outcome matches Ok(GraphNext::Ask(GraphStage::Solve(_, _, _, right))) && {
            &&& right@.len() == slam.keyframes@.len()
            &&& forall|i: int|
                0 <= i < right@.len() ==> is_bounded_vector(
                    #[trigger] right@[i],
                    0x10_0000_0000_0000 * (8 * (slam.edges@.len() * (c * g))),
                )
        },
{
    if let Ok(GraphNext::Ask(GraphStage::Solve(_, _, damped, right))) = outcome {
        let system = choose|system: GraphSystem| #[trigger]
            slam.is_system(&nudges, angles@, system) && crate::optimizer::is_prepared(
                system,
                damped,
                right@,
            );
        assert forall|i: int| 0 <= i < right@.len() implies is_bounded_vector(
            #[trigger] right@[i],
            0x10_0000_0000_0000 * (8 * (slam.edges@.len() * (c * g))),
        ) by {
            lemma_bounded_side(slam, &nudges, angles@, c, g, i, slam.edges@.len());
            let side = system.b@[i];
            assert(right@[i] == side.negated());
            crate::nearness::lemma_negated(side.x);
            crate::nearness::lemma_negated(side.y);
            crate::nearness::lemma_negated(side.z);
        }
    }
}

/// An optimization leaves a graph whose edges agree with its poses up to
/// rounding as it is, where the small right-hand side has a small solution: it
/// ends without an error, the keyframes and edges stay, and the filter takes up
/// the pose of the last keyframe. Doing so again changes nothing.
pub proof fn nearly_agreeing_graphs_stay_as_they_are(
    slam: SlamProcessor,
    nudges: Nudges,
    angles: Vec<Vec<F64>>,
    step: GraphStep,
    angle: F64,
    states: Seq<SlamProcessor>,
    stages: Seq<GraphStage>,
    outcomes: Seq<Result<GraphNext, SlamError>>,
    c: int,
    g: int,
)
    requires
        slam.keyframes@.len() >= 2,
        slam.nearly_agrees(&nudges, angles@, g),
        slam.has_bounded_slopes(&nudges, angles@, c),
        slam.edges@.len() <= 0x8_0000_0000_0000,
        1 <= c,
        1 <= g,
        8 * (slam.edges@.len() * (c * g)) <= pow2(2044),
        step.is_small(),
        states.len() == 5,
        stages.len() == 4,
        outcomes.len() == 4,
        states[0] == slam,
        stages[0] == GraphStage::Nudge(F64::from_bits(EPSILON)),
        forall|k: int|
            0 <= k < 3 ==> #[trigger] outcomes[k] == Ok::<GraphNext, SlamError>(
                GraphNext::Ask(stages[k + 1]),
            ),
        stages[0].leads_to(&states[0], GraphAnswer::Nudges(nudges), &states[1], outcomes[0]),
        stages[1].leads_to(&states[1], GraphAnswer::Angles(angles), &states[2], outcomes[1]),
        stages[2].leads_to(
            &states[2],
            GraphAnswer::Solution(Some(step)),
            &states[3],
            outcomes[2],
        ),
        stages[3].leads_to(&states[3], GraphAnswer::Angle(angle), &states[4], outcomes[3]),
    ensures
        outcomes[3] == Ok::<GraphNext, SlamError>(GraphNext::Done),
        stages[2] matches GraphStage::Solve(_, _, _, right) && forall|i: int|
            0 <= i < right@.len() ==> is_bounded_vector(
                #[trigger] right@[i],
                0x10_0000_0000_0000 * (8 * (slam.edges@.len() * (c * g))),
            ),
        states[4].keyframes == slam.keyframes,
        states[4].edges == slam.edges,
        states[4] == slam.at_last_keyframe(angle),
        states[4].at_last_keyframe(angle) == states[4],
{
    assert(outcomes[0] == Ok::<GraphNext, SlamError>(GraphNext::Ask(stages[1])));
    assert(outcomes[1] == Ok::<GraphNext, SlamError>(GraphNext::Ask(stages[2])));
    assert(outcomes[2] == Ok::<GraphNext, SlamError>(GraphNext::Ask(stages[3])));
    if let GraphStage::Probe(taken, own, probes) = stages[1] {
        small_errors_ask_for_small_steps(
            slam,
            taken,
            own,
            probes,
            angles,
            states[2],
            outcomes[1],
            c,
            g,
        );
    }
    crate::optimizer::small_steps_leave_the_graph(
        slam,
        stages[2],
        step,
        states[3],
        outcomes[2],
        angle,
        states[4],
        outcomes[3],
    );
}

/// All entries are finite.
pub open spec fn is_finite(m: Mat3) -> bool {
    forall|row: int, column: int|
        0 <= row < 3 && 0 <= column < 3 ==> (#[trigger] m.entry(row, column)).finite()
}

/// An edge weighs what its own information says. A loop closure whose error is
/// longer than the threshold weighs less, in every entry by the ratio of the
/// two, up to rounding; the length is that of all three parts of the error.
pub proof fn edges_weigh_as_measured(
    edge: PoseGraphEdge,
    error: Vec3,
    threshold: F64,
    row: int,
    column: int,
)
    requires
        0 <= row < 3,
        0 <= column < 3,
        is_finite(edge.information),
        error.norm().finite(),
        threshold.finite(),
    ensures
        ({
            let (u, e) = (crate::nearness::one_unit(), 0x10_0000_0000_0000int);
            let (n, t) = (error.norm().value(), threshold.value());
            let i = edge.information.entry(row, column).value();
            let weight = edge.omega(error, threshold).entry(row, column);
            let (o, product) = (weight.value(), crate::nearness::magnitude_of(i * t));
            &&& crate::values::is_length(
                n,
                error.x.value() * error.x.value() + error.y.value() * error.y.value()
                    + error.z.value() * error.z.value(),
            )
            &&& !edge.is_loop_closure || n <= t ==> weight == edge.information.entry(row, column)
            &&& edge.is_loop_closure && n > t && weight.finite() ==> (
            crate::nearness::magnitude_of(o * n - i * t) * e) * u <= 4 * (product * u) + e * (n * u
                + 2 * (crate::nearness::magnitude_of(i) * n))
        }),
{
    let norm = error.norm();
    let own = edge.information.entry(row, column);
    crate::values::space_lengths(error);
    crate::values::order_is_by_value(norm, threshold);
    crate::float::double::one_is_neutral(own);
    let weight = crate::graph::huber_weight(norm, threshold);
    assert(edge.is_loop_closure ==> edge.omega(error, threshold).entry(row, column) == own.times(
        weight,
    ));
    if edge.is_loop_closure && norm.value() > threshold.value() && own.times(weight).finite() {
        lemma_weighed(own, threshold, norm);
    }
}

/// A number times a ratio.
proof fn lemma_weighed(a: F64, t: F64, n: F64)
    requires
        a.finite(),
        t.finite(),
        n.finite(),
        n.value() >= 0,
        a.times(t.over(n)).finite(),
    ensures
        ({
            let (u, e) = (crate::nearness::one_unit(), 0x10_0000_0000_0000int);
            let (i, v) = (a.value(), n.value());
            let product = crate::nearness::magnitude_of(i * t.value());
            (crate::nearness::magnitude_of(a.times(t.over(n)).value() * v - i * t.value()) * e) * u
                <= 4 * (product * u) + e * (v * u + 2 * (crate::nearness::magnitude_of(i) * v))
        }),
{
    let (u, e) = (crate::nearness::one_unit(), 0x10_0000_0000_0000int);
    let ratio = t.over(n);
    lemma_pow2_pos(1074);
    crate::values::products_are_about_exact(a, ratio);
    assert(!n.zero()) by {
        let f = crate::float::rounding::Format::double();
        reveal(F64::spec_over);
        f.lemma_signed(true, f.infinity as nat);
        f.lemma_signed(false, f.infinity as nat);
    }
    crate::values::quotients_are_about_exact(t, n);
    let (o, i, r, v, w) = (
        a.times(ratio).value(),
        a.value(),
        ratio.value(),
        n.value(),
        t.value(),
    );
    let (m, k) = (crate::nearness::magnitude_of(i), crate::nearness::magnitude_of(w));
    // First the product with the ratio, then the ratio itself.
    let first = o * u - i * r;
    let second = r * v - w * u;
    assert((o * v - i * w) * u == first * v + i * second) by {
        let (ov, iw, ou, ir, rv, wu) = (o * v, i * w, o * u, i * r, r * v, w * u);
        assert((ov - iw) * u == ov * u - iw * u) by (nonlinear_arith);
        assert((ou - ir) * v == ou * v - ir * v) by (nonlinear_arith);
        assert(i * (rv - wu) == i * rv - i * wu) by (nonlinear_arith);
        assert((o * v) * u == (o * u) * v) by (nonlinear_arith);
        assert((i * r) * v == i * (r * v)) by (nonlinear_arith);
        assert((i * w) * u == i * (w * u)) by (nonlinear_arith);
    }
    let (p, q) = (
        crate::nearness::magnitude_of(first),
        crate::nearness::magnitude_of(second),
    );
    let (ir, ip) = (crate::nearness::magnitude_of(i * r), crate::nearness::magnitude_of(i * w));
    crate::nearness::lemma_abs_product(first, v, p, v);
    crate::nearness::lemma_abs_product(i, second, m, q);
    assert(ip == m * k) by (nonlinear_arith)
        requires
            i == m || i == -m,
            w == k || w == -k,
            m >= 0,
            k >= 0,
            ip == i * w || ip == -(i * w),
            ip >= 0,
    ;
    assert((p * v) * e <= ir * v + (e * u) * v) by (nonlinear_arith)
        requires
            p * e <= ir + u * e,
            v >= 0,
    ;
    assert((m * q) * e <= (m * k) * u + (m * v) * e) by (nonlinear_arith)
        requires
            q * e <= k * u + e * v,
            m >= 0,
    ;
    // The product of all three, from the ratio.
    assert(ir * v <= (m * k) * u + m * q) by {
        assert((i * r) * v == i * second + (i * w) * u) by (nonlinear_arith)
            requires
                second == r * v - w * u,
        ;
        assert(ir * v == crate::nearness::magnitude_of((i * r) * v)) by (nonlinear_arith)
            requires
                ir == i * r || ir == -(i * r),
                ir >= 0,
                v >= 0,
                crate::nearness::magnitude_of((i * r) * v) == (i * r) * v
                    || crate::nearness::magnitude_of((i * r) * v) == -((i * r) * v),
                crate::nearness::magnitude_of((i * r) * v) >= 0,
        ;
        assert(crate::nearness::magnitude_of((i * w) * u) <= ip * u) by {
            crate::nearness::lemma_abs_product(i * w, u, ip, u);
        }
    }
    let d = o * v - i * w;
    assert((crate::nearness::magnitude_of(d) * e) * u == crate::nearness::magnitude_of(d * u) * e)
        by {
        let z = crate::nearness::magnitude_of(d);
        assert(d * u == z * u || d * u == -(z * u)) by (nonlinear_arith)
            requires
                d == z || d == -z,
        ;
        assert(z * u >= 0 && (z * e) * u == (z * u) * e) by (nonlinear_arith)
            requires
                z >= 0,
                u > 0,
        ;
    }
    assert((e * u) * v == e * (v * u)) by (nonlinear_arith);
    assert((m * k) * u >= 0 && m * v >= 0 && m * q >= 0) by (nonlinear_arith)
        requires
            m >= 0,
            k >= 0,
            u >= 0,
            v >= 0,
            q >= 0,
    ;
}

/// The values of an inner product, before rounding.
pub open spec fn exact_dot(a: Vec3, b: Vec3) -> int {
    a.x.value() * b.x.value() + a.y.value() * b.y.value() + a.z.value() * b.z.value()
}

/// An inner product of bounded vectors is near the exact one.
pub proof fn lemma_near_dot(row: Vec3, v: Vec3, c: int, g: int)
    requires
        1 <= c,
        1 <= g,
        4 * (c * g) <= pow2(2044),
        is_bounded_vector(row, c * crate::nearness::one_unit()),
        is_bounded_vector(v, 0x10_0000_0000_0000 * g),
    ensures
        is_bounded(row.dot(v), 0x10_0000_0000_0000 * (4 * (c * g))),
        row.dot(v) == v.dot(row),
        crate::nearness::magnitude_of(
            row.dot(v).value() * crate::nearness::one_unit() - exact_dot(row, v),
        ) <= 10 * ((c * g) * crate::nearness::one_unit()),
{
    let t = c * g;
    let u = crate::nearness::one_unit();
    lemma_pow2_pos(1074);
    lemma_bounded_product(row, v, c, g);
    reveal(Vec3::spec_dot);
    crate::nearness::lemma_product_size(row.x, v.x, c, g);
    crate::nearness::lemma_product_size(row.y, v.y, c, g);
    crate::nearness::lemma_product_size(row.z, v.z, c, g);
    crate::nearness::lemma_product_fits(row.x, v.x, t);
    crate::nearness::lemma_product_fits(row.y, v.y, t);
    crate::nearness::lemma_product_fits(row.z, v.z, t);
    crate::nearness::lemma_one_product(row.x, v.x, c, g);
    crate::nearness::lemma_one_product(row.y, v.y, c, g);
    crate::nearness::lemma_one_product(row.z, v.z, c, g);
    crate::float::double::products_commute(row.x, v.x);
    crate::float::double::products_commute(row.y, v.y);
    crate::float::double::products_commute(row.z, v.z);
    let (p, q, r) = (row.x.times(v.x), row.y.times(v.y), row.z.times(v.z));
    crate::nearness::lemma_sum_parts(p.plus(q), r);
    crate::nearness::lemma_sum_error(p, q, 3 * t);
    crate::nearness::lemma_sum_error(p.plus(q), r, 4 * t);
    let two = p.plus(q).value();
    let all = p.plus(q).plus(r).value();
    let (a, b) = (two - (p.value() + q.value()), all - (two + r.value()));
    crate::nearness::lemma_abs_product(a, u, 3 * t, u);
    crate::nearness::lemma_abs_product(b, u, 4 * t, u);
    assert(a * u == two * u - p.value() * u - q.value() * u) by (nonlinear_arith)
        requires
            a == two - (p.value() + q.value()),
    ;
    assert(b * u == all * u - two * u - r.value() * u) by (nonlinear_arith)
        requires
            b == all - (two + r.value()),
    ;
    assert((3 * t) * u == 3 * (t * u) && (4 * t) * u == 4 * (t * u)) by (nonlinear_arith);
}

/// The values of a vector times a matrix times a vector, before rounding.
pub open spec fn exact_form(a: Vec3, m: Mat3, b: Vec3) -> int {
    exact_dot(a, m.column(0)) * b.x.value() + exact_dot(a, m.column(1)) * b.y.value() + exact_dot(
        a,
        m.column(2),
    ) * b.z.value()
}

/// A vector times a matrix times a vector, with one rounding after another.
pub proof fn lemma_near_form(a: Vec3, m: Mat3, b: Vec3, c: int, g: int, s: int)
    requires
        1 <= c,
        1 <= g,
        1 <= s,
        16 * (s * (4 * (c * g))) <= pow2(2044),
        is_bounded_vector(a, c * crate::nearness::one_unit()),
        is_bounded_matrix(m, 0x10_0000_0000_0000 * g),
        is_bounded_vector(b, s * crate::nearness::one_unit()),
    ensures
        ({
            let row = Vec3 { x: a.dot(m.column(0)), y: a.dot(m.column(1)), z: a.dot(m.column(2)) };
            crate::nearness::near(
                row.dot(b).value(),
                exact_form(a, m, b),
                2,
                70 * (s * (c * g)),
            )
        }),
{
    let u = crate::nearness::one_unit();
    let t = c * g;
    let row = Vec3 { x: a.dot(m.column(0)), y: a.dot(m.column(1)), z: a.dot(m.column(2)) };
    lemma_pow2_pos(1074);
    lemma_pow2_adds(1074, 1074);
    assert(crate::nearness::up(2) == u * u);
    assert(1 <= t && t <= s * t && s * (4 * t) == 4 * (s * t)) by (nonlinear_arith)
        requires
            t == c * g,
            c >= 1,
            g >= 1,
            s >= 1,
    ;
    lemma_near_dot(a, m.column(0), c, g);
    lemma_near_dot(a, m.column(1), c, g);
    lemma_near_dot(a, m.column(2), c, g);
    lemma_near_dot(b, row, s, 4 * t);
    let h = row.dot(b).value();
    let (x, y, z) = (b.x.value(), b.y.value(), b.z.value());
    let (i, j, k) = (
        row.x.value() * u - exact_dot(a, m.column(0)),
        row.y.value() * u - exact_dot(a, m.column(1)),
        row.z.value() * u - exact_dot(a, m.column(2)),
    );
    let bound = 10 * (t * u);
    crate::nearness::lemma_abs_product(x, i, s * u, bound);
    crate::nearness::lemma_abs_product(y, j, s * u, bound);
    crate::nearness::lemma_abs_product(z, k, s * u, bound);
    assert((s * u) * bound == 10 * ((s * t) * (u * u))) by (nonlinear_arith)
        requires
            bound == 10 * (t * u),
    ;
    let d = h * u - exact_dot(b, row);
    crate::nearness::lemma_abs_product(d, u, 10 * ((s * (4 * t)) * u), u);
    assert((10 * ((s * (4 * t)) * u)) * u == 40 * ((s * t) * (u * u))) by (nonlinear_arith);
    assert(d * u == h * (u * u) - (x * (row.x.value() * u) + y * (row.y.value() * u) + z * (
    row.z.value() * u))) by {
        let (p, q, r) = (row.x.value(), row.y.value(), row.z.value());
        let (xp, yq, zr) = (x * p, y * q, z * r);
        assert((h * u - (xp + yq + zr)) * u == (h * u) * u - xp * u - yq * u - zr * u)
            by (nonlinear_arith);
        assert((h * u) * u == h * (u * u)) by (nonlinear_arith);
        assert(xp * u == x * (p * u)) by (nonlinear_arith)
            requires
                xp == x * p,
        ;
        assert(yq * u == y * (q * u)) by (nonlinear_arith)
            requires
                yq == y * q,
        ;
        assert(zr * u == z * (r * u)) by (nonlinear_arith)
            requires
                zr == z * r,
        ;
    }
    assert(x * i == x * (row.x.value() * u) - exact_dot(a, m.column(0)) * x) by (nonlinear_arith)
        requires
            i == row.x.value() * u - exact_dot(a, m.column(0)),
    ;
    assert(y * j == y * (row.y.value() * u) - exact_dot(a, m.column(1)) * y) by (nonlinear_arith)
        requires
            j == row.y.value() * u - exact_dot(a, m.column(1)),
    ;
    assert(z * k == z * (row.z.value() * u) - exact_dot(a, m.column(2)) * z) by (nonlinear_arith)
        requires
            k == row.z.value() * u - exact_dot(a, m.column(2)),
    ;
    assert(70 * (s * t) * (u * u) == 70 * ((s * t) * (u * u))) by (nonlinear_arith);
}

/// What an edge adds to the linear system: the derivatives by the two ends,
/// weighed by the whole of the weight matrix, against each other and against
/// the error, up to rounding.
pub proof fn edges_add_weighed_derivatives(
    j_i: Mat3,
    j_j: Mat3,
    omega: Mat3,
    error: Vec3,
    c: int,
    g: int,
    row: int,
    column: int,
)
    requires
        1 <= c,
        1 <= g,
        16 * (c * (4 * (c * g))) <= pow2(2044),
        is_bounded_matrix(j_i, c * crate::nearness::one_unit()),
        is_bounded_matrix(j_j, c * crate::nearness::one_unit()),
        is_bounded_matrix(omega, 0x10_0000_0000_0000 * g),
        is_bounded_vector(error, c * crate::nearness::one_unit()),
        0 <= row < 3,
        0 <= column < 3,
    ensures
        ({
            let r = crate::graph::normal_terms(j_i, j_j, omega, error);
            let e = 70 * (c * (c * g));
            let (a, b) = (j_i.column(row), j_j.column(row));
            let (p, q) = (j_i.column(column), j_j.column(column));
            &&& crate::nearness::near(
                r.h_ii.entry(row, column).value(),
                exact_form(a, omega, p),
                2,
                e,
            )
            &&& crate::nearness::near(
                r.h_ij.entry(row, column).value(),
                exact_form(a, omega, q),
                2,
                e,
            )
            &&& crate::nearness::near(
                r.h_jj.entry(row, column).value(),
                exact_form(b, omega, q),
                2,
                e,
            )
            &&& crate::nearness::near(r.b_i.part(row).value(), exact_form(a, omega, error), 2, e)
            &&& crate::nearness::near(r.b_j.part(row).value(), exact_form(b, omega, error), 2, e)
        }),
{
    reveal(crate::graph::spec_normal_terms);
    reveal(Mat3::spec_times);
    let (a, b) = (j_i.column(row), j_j.column(row));
    let (p, q) = (j_i.column(column), j_j.column(column));
    lemma_near_form(a, omega, p, c, g, c);
    lemma_near_form(a, omega, q, c, g, c);
    lemma_near_form(b, omega, q, c, g, c);
    lemma_near_form(a, omega, error, c, g, c);
    lemma_near_form(b, omega, error, c, g, c);
}

/// A step moves a keyframe in its own frame, and leaves all else of it.
pub proof fn updates_move_keyframes_in_their_frame(
    keyframe: Keyframe,
    delta: Vec3,
    turn: crate::transforms::Rotation2,
)
    ensures
        ({
            let after = crate::graph::moved(keyframe, delta, turn);
            let place = keyframe.pose.transform_point(
                crate::linear::Vec2 { x: delta.x, y: delta.y },
            );
            &&& after.pose.shift == place
            &&& after.pose.turn == keyframe.pose.turn.compose(turn)
            &&& after.id == keyframe.id
            &&& after.scan == keyframe.scan
            &&& after.timestamp == keyframe.timestamp
            &&& after.descriptor == keyframe.descriptor
        }),
{
    let turned = keyframe.pose.turn.rotate(crate::linear::Vec2 { x: delta.x, y: delta.y });
    crate::float::double::sums_commute(turned.x, keyframe.pose.shift.x);
    crate::float::double::sums_commute(turned.y, keyframe.pose.shift.y);
}

/// The small steps: along one axis only, forward and back by the same amount.
pub proof fn nudges_are_along_one_axis(nudges: Nudges, axis: usize)
    requires
        axis < 3,
    ensures
        ({
            let on = crate::graph::nudge(&nudges, axis, true);
            let back = crate::graph::nudge(&nudges, axis, false);
            let step = F64::from_bits(EPSILON).value();
            let one = |t: crate::transforms::Rotation2|
                t.cos.value() == crate::nearness::one_unit() && t.sin.value() == 0;
            &&& on.shift.x.value() == if axis == 0 {
                step
            } else {
                0
            }
            &&& on.shift.y.value() == if axis == 1 {
                step
            } else {
                0
            }
            &&& back.shift.x.value() == -on.shift.x.value()
            &&& back.shift.y.value() == -on.shift.y.value()
            &&& axis < 2 ==> one(on.turn) && one(back.turn)
            &&& axis == 2 ==> on.turn == nudges.on && back.turn == nudges.back
        }),
{
    crate::float::double::lemma_one();
    crate::float::double::zero_has_no_value(F64::from_bits(0));
    crate::nearness::lemma_negated(F64::from_bits(EPSILON));
}

/// The damped system: what joins different keyframes, or different axes of one,
/// stays; every diagonal entry grows by the damping, and those of the first
/// keyframe by the anchor too.
pub proof fn damping_is_on_the_diagonal(
    system: GraphSystem,
    row: int,
    column: int,
    i: int,
    j: int,
)
    requires
        0 <= i < 3,
        0 <= j < 3,
    ensures
        ({
            let before = system.block(row, column).entry(i, j);
            let after = system.damped_block(row, column).entry(i, j);
            let damping = F64::from_bits(crate::graph::DAMPING).value();
            let anchor = F64::from_bits(crate::graph::ANCHOR).value();
            &&& row != column || i != j ==> after == before
            &&& row == column && i == j && row != 0 && after.finite() ==> crate::values::about(
                after.value(),
                before.value() + damping,
                1,
                1,
            )
            &&& row == column && i == j && row == 0 && after.finite() ==> {
                let own = before.value() + damping;
                crate::nearness::magnitude_of(after.value() - (own + anchor))
                    * 0x10_0000_0000_0000 <= 3 * (crate::nearness::magnitude_of(own) + anchor) + 3
                    * 0x10_0000_0000_0000
            }
        }),
{
    let before = system.block(row, column).entry(i, j);
    let after = system.damped_block(row, column).entry(i, j);
    let (damping, anchor) = (
        F64::from_bits(crate::graph::DAMPING),
        F64::from_bits(crate::graph::ANCHOR),
    );
    if row == column && i == j && after.finite() {
        if row == 0 {
            crate::values::sums_are_about_exact(before.plus(damping), anchor);
            crate::values::sums_are_about_exact(before, damping);
        } else {
            crate::values::sums_are_about_exact(before, damping);
        }
    }
}

/// A difference quotient times its width is the difference, up to rounding; for
/// headings it is the shortest way around.
pub proof fn slopes_are_difference_quotients(plus: Vec3, minus: Vec3, k: int)
    requires
        0 <= k < 3,
        crate::graph::central_slope(plus, minus).part(k).finite(),
        plus.part(k).minus(minus.part(k)).finite(),
    ensures
        ({
            let (u, e) = (crate::nearness::one_unit(), 0x10_0000_0000_0000int);
            let width = F64::from_bits(crate::graph::TWO_EPSILON).value();
            let slope = crate::graph::central_slope(plus, minus).part(k).value();
            let gap = plus.part(k).minus(minus.part(k));
            let way = if k == 2 {
                crate::transforms::normalize_angle(gap).value()
            } else {
                gap.value()
            };
            &&& crate::nearness::magnitude_of(slope * width - way * u) * e
                <= crate::nearness::magnitude_of(way) * u + e * width
            &&& crate::values::about(
                gap.value(),
                plus.part(k).value() - minus.part(k).value(),
                1,
                1,
            )
        }),
{
    let width = F64::from_bits(crate::graph::TWO_EPSILON);
    let gap = plus.part(k).minus(minus.part(k));
    crate::values::differences_are_about_exact(plus.part(k), minus.part(k));
    if k == 2 {
        crate::transforms::normalized_angles_are_in_range(gap);
        crate::values::quotients_are_about_exact(
            crate::transforms::normalize_angle(gap),
            width,
        );
    } else {
        crate::values::quotients_are_about_exact(gap, width);
    }
}

/// The linear system weighs the edges by the threshold of the settings, and
/// adds up what each of them says of its two ends.
pub proof fn systems_use_the_settings(
    slam: SlamProcessor,
    nudges: Nudges,
    angles: Seq<Vec<F64>>,
    system: GraphSystem,
    e: int,
)
    requires
        slam.is_system(&nudges, angles, system),
        0 <= e < slam.edges@.len(),
        slam.edges@[e].from_id < slam.edges@[e].to_id < slam.keyframes@.len(),
        forall|f: int|
            0 <= f < slam.edges@.len() && f != e ==> (#[trigger] slam.edges@[f]).from_id
                != slam.edges@[e].to_id && slam.edges@[f].to_id != slam.edges@[e].to_id,
    ensures
        ({
            let edge = slam.edges@[e];
            let own = edge.terms(
                slam.keyframes@,
                &nudges,
                angles[e]@,
                slam.config.huber_threshold,
            );
            system.b@[edge.to_id as int] == Vec3::zeros().plus(own.b_j)
        }),
{
    let terms = crate::graph::all_terms(
        slam.keyframes@,
        slam.edges@,
        &nudges,
        angles,
        slam.config.huber_threshold,
    );
    lemma_lone_side(slam.edges@, terms, e, slam.edges@.len());
}

/// The block of a keyframe that one edge leads to and no other touches.
proof fn lemma_lone_side(
    edges: Seq<PoseGraphEdge>,
    terms: Seq<crate::graph::EdgeTerms>,
    e: int,
    n: nat,
)
    requires
        0 <= e < edges.len(),
        n <= edges.len(),
        edges[e].from_id < edges[e].to_id,
        forall|f: int|
            0 <= f < edges.len() && f != e ==> (#[trigger] edges[f]).from_id != edges[e].to_id
                && edges[f].to_id != edges[e].to_id,
    ensures
        crate::graph::side_sum(edges, terms, edges[e].to_id as int, n) == if n <= e {
            Vec3::zeros()
        } else {
            Vec3::zeros().plus(terms[e].b_j)
        },
    decreases n,
{
    if n > 0 {
        lemma_lone_side(edges, terms, e, (n - 1) as nat);
        if n - 1 != e {
            assert(edges[n - 1].from_id != edges[e].to_id);
        }
    }
}

/// Every edge adds to what the edges before it said: to the two diagonal blocks
/// of its ends, to the blocks that join them, and to the two parts of the
/// vector; everywhere else nothing changes. Nothing is overwritten where
/// several edges meet.
pub proof fn every_edge_adds_its_terms(
    edges: Seq<PoseGraphEdge>,
    terms: Seq<crate::graph::EdgeTerms>,
    n: nat,
    row: int,
    column: int,
    i: int,
    j: int,
)
    requires
        n < edges.len(),
        edges[n as int].from_id < edges[n as int].to_id,
        0 <= i < 3,
        0 <= j < 3,
    ensures
        ({
            let (from, to) = (edges[n as int].from_id as int, edges[n as int].to_id as int);
            let own = terms[n as int];
            let before = crate::graph::block_sum(edges, terms, row, column, n).entry(i, j);
            let after = crate::graph::block_sum(edges, terms, row, column, n + 1).entry(i, j);
            let side = crate::graph::side_sum(edges, terms, row, n).part(i);
            let grown = crate::graph::side_sum(edges, terms, row, n + 1).part(i);
            let adds = |sum: F64, a: F64, b: F64|
                sum.finite() ==> crate::values::about(sum.value(), a.value() + b.value(), 1, 1);
            &&& row == from && column == from ==> adds(after, before, own.h_ii.entry(i, j))
            &&& row == from && column == to ==> adds(after, before, own.h_ij.entry(i, j))
            &&& row == to && column == from ==> adds(after, before, own.h_ij.entry(j, i))
            &&& row == to && column == to ==> adds(after, before, own.h_jj.entry(i, j))
            &&& (row != from && row != to) || (column != from && column != to) ==> after == before
            &&& row == from ==> adds(grown, side, own.b_i.part(i))
            &&& row == to ==> adds(grown, side, own.b_j.part(i))
            &&& row != from && row != to ==> grown == side
        }),
{
    let (from, to) = (edges[n as int].from_id as int, edges[n as int].to_id as int);
    let own = terms[n as int];
    assert((n + 1 - 1) as nat == n);
    let before = crate::graph::block_sum(edges, terms, row, column, n).entry(i, j);
    let after = crate::graph::block_sum(edges, terms, row, column, n + 1).entry(i, j);
    let side = crate::graph::side_sum(edges, terms, row, n).part(i);
    let grown = crate::graph::side_sum(edges, terms, row, n + 1).part(i);
    if after.finite() {
        if row == from && column == from {
            crate::values::sums_are_about_exact(before, own.h_ii.entry(i, j));
        } else if row == from && column == to {
            crate::values::sums_are_about_exact(before, own.h_ij.entry(i, j));
        } else if row == to && column == from {
            crate::values::sums_are_about_exact(before, own.h_ij.entry(j, i));
        } else if row == to && column == to {
            crate::values::sums_are_about_exact(before, own.h_jj.entry(i, j));
        }
    }
    if grown.finite() {
        if row == from {
            crate::values::sums_are_about_exact(side, own.b_i.part(i));
        } else if row == to {
            crate::values::sums_are_about_exact(side, own.b_j.part(i));
        }
    }
}

/// The difference of an edge leads from the way between its poses, as they
/// stand, to the way that was measured.
pub proof fn differences_lead_to_the_measurement(
    edge: PoseGraphEdge,
    keyframes: Seq<Keyframe>,
    nudges: Nudges,
    w: int,
    d: int,
)
    requires
        edge.from_id < keyframes.len(),
        edge.to_id < keyframes.len(),
        1 <= w,
        ({
            let way = keyframes[edge.from_id as int].pose.relative_to(
                &keyframes[edge.to_id as int].pose,
            );
            &&& crate::nearness::within(way, 2, w)
            &&& crate::nearness::within(edge.measurement, 2, w)
            &&& crate::nearness::unit_within(way.turn, d)
            &&& crate::nearness::has_finite_shift(
                way.compose(&edge.probe_at(keyframes, &nudges, 0)),
            )
        }),
    ensures
        ({
            let way = keyframes[edge.from_id as int].pose.relative_to(
                &keyframes[edge.to_id as int].pose,
            );
            crate::nearness::agree(
                way.compose(&edge.probe_at(keyframes, &nudges, 0)),
                edge.measurement,
                200 + 2 * d,
                513 * w + 2 * (d * w),
            )
        }),
{
    let way = keyframes[edge.from_id as int].pose.relative_to(
        &keyframes[edge.to_id as int].pose,
    );
    reveal(crate::graph::spec_edge_difference);
    crate::nearness::relative_transforms_lead_to_their_target(way, edge.measurement, w, d);
}

/// The error of an edge is the shift of its difference, and the angle of it the
/// shortest way around.
pub proof fn errors_are_differences(diff: Transform2D, angle: F64)
    requires
        angle.finite(),
    ensures
        ({
            let error = crate::graph::compute_edge_error(&diff, angle);
            &&& error.x == diff.shift.x
            &&& error.y == diff.shift.y
            &&& crate::ekf::in_half_turn(error.z)
            &&& (angle.value() - error.z.value()) % F64::from_bits(
                crate::transforms::TAU,
            ).value() == 0
        }),
{
    crate::transforms::normalized_angles_are_in_range(angle);
}

/// A probe moves one end of an edge along one axis: the first end in the first
/// two of the four slots of the axis, the second end in the other two, forward
/// and then back, and leaves the other end.
pub proof fn probes_move_one_end(
    edge: PoseGraphEdge,
    keyframes: Seq<Keyframe>,
    nudges: Nudges,
    axis: usize,
    second: bool,
    forward: bool,
)
    requires
        axis < 3,
        edge.from_id < keyframes.len(),
        edge.to_id < keyframes.len(),
    ensures
        ({
            let slot = 1 + 4 * axis + if second {
                2int
            } else {
                0int
            } + if forward {
                0int
            } else {
                1int
            };
            let step = crate::graph::nudge(&nudges, axis, forward);
            let (a, b) = (
                keyframes[edge.from_id as int].pose,
                keyframes[edge.to_id as int].pose,
            );
            edge.probe_at(keyframes, &nudges, slot as usize) == if second {
                a.relative_to(&b.compose(&step)).relative_to(&edge.measurement)
            } else {
                a.compose(&step).relative_to(&b).relative_to(&edge.measurement)
            }
        }),
{
    reveal(crate::graph::spec_edge_difference);
}

/// Each column of the derivatives of an edge is taken by the steps along its own
/// axis, at its own end, forward against back.
pub proof fn derivatives_are_by_their_own_axis(
    edge: PoseGraphEdge,
    keyframes: Seq<Keyframe>,
    nudges: Nudges,
    angles: Seq<F64>,
    axis: int,
    second: bool,
)
    requires
        0 <= axis < 3,
    ensures
        ({
            let slot = 1 + 4 * axis + if second {
                2int
            } else {
                0int
            };
            edge.jacobian(keyframes, &nudges, angles, second).column(axis)
                == crate::graph::central_slope(
                edge.error_at(keyframes, &nudges, angles, slot as usize),
                edge.error_at(keyframes, &nudges, angles, (slot + 1) as usize),
            )
        }),
{
}

} // verus!
