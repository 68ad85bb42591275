//! Laws of the solver, proved over the stage specifications.
use vstd::prelude::*;
use crate::arith::{abs, ceil_sqrt_spec, is_ceil_sqrt, lemma_ceil_sqrt_is, lemma_tdiv_bounds, tdiv};
use crate::body::{
    accel_step, damping_term, dist_sq, integrated, overlapping, push, resolve, resolve_grid,
    resolve_row, Body, Vec2, COORD_MAX, TIME_SCALE,
};
use crate::world::collide_all;

verus! {

/// Every natural number has a ceiling square root.
pub proof fn lemma_ceil_sqrt_exists(n: int)
    requires
        n >= 0,
    ensures
        is_ceil_sqrt(n, ceil_sqrt_spec(n)),
    decreases n,
{
    if n == 0 {
        lemma_ceil_sqrt_is(0, 0);
    } else {
        lemma_ceil_sqrt_exists(n - 1);
        let r = ceil_sqrt_spec(n - 1);
        if r * r >= n {
            assert(r != 0) by (nonlinear_arith)
                requires r * r >= n, n > 0;
            lemma_ceil_sqrt_is(n, r);
        } else {
            assert((r + 1) * (r + 1) >= n) by (nonlinear_arith)
                requires r * r >= n - 1, r >= 0;
            assert(is_ceil_sqrt(n, r + 1));
            lemma_ceil_sqrt_is(n, r + 1);
        }
    }
}

/// With no acceleration, a Verlet step keeps the implied velocity: the
/// position moves by exactly what it moved in the step before (as long as
/// the new position is within the coordinate range).
pub proof fn lemma_verlet_keeps_velocity(b: Body, dt: int)
    requires
        b.acceleration == Vec2::zero_spec(),
        -(COORD_MAX as int) <= 2 * b.position.x - b.previous_position.x <= COORD_MAX as int,
        -(COORD_MAX as int) <= 2 * b.position.y - b.previous_position.y <= COORD_MAX as int,
    ensures
        integrated(b, dt).position.x - integrated(b, dt).previous_position.x == b.position.x
            - b.previous_position.x,
        integrated(b, dt).position.y - integrated(b, dt).previous_position.y == b.position.y
            - b.previous_position.y,
        integrated(b, dt).acceleration == Vec2::zero_spec(),
{
    assert(accel_step(0, dt) == 0) by {
        assert(0 * dt * dt == 0);
    }
}

/// Damping opposes the implied velocity along each axis: the damping term
/// has the opposite sign of the position change, or is zero, and it is
/// zero only when the speed rounds to less than one unit per second squared.
pub proof fn lemma_damping_opposes_velocity(v: int, dt: int)
    requires
        dt > 0,
    ensures
        v > 0 ==> damping_term(v, dt) <= 0,
        v < 0 ==> damping_term(v, dt) >= 0,
        v == 0 ==> damping_term(v, dt) == 0,
        abs(v) * TIME_SCALE >= 2 * dt ==> damping_term(v, dt) != 0,
{
    lemma_tdiv_bounds(v * TIME_SCALE, 2 * dt);
    assert(abs(v * TIME_SCALE) == abs(v) * TIME_SCALE);
    assert(v > 0 ==> v * TIME_SCALE > 0);
    assert(v < 0 ==> v * TIME_SCALE < 0);
}

/// Along one axis, the pushed separation `delta + 2 * m` keeps the sign of
/// `delta`, does not shrink, and grows at most by the factor `rs / d`.
proof fn lemma_push_axis(delta: int, ov: int, d: int, rs: int)
    requires
        d >= 1,
        ov >= 0,
        rs == d + ov,
    ensures
        abs(delta + 2 * tdiv(delta * ov, 2 * d)) >= abs(delta),
        abs(delta + 2 * tdiv(delta * ov, 2 * d)) * d <= abs(delta) * rs,
{
    let m = tdiv(delta * ov, 2 * d);
    lemma_tdiv_bounds(delta * ov, 2 * d);
    assert(abs(delta * ov) == abs(delta) * ov) by (nonlinear_arith)
        requires ov >= 0;
    assert(delta >= 0 ==> delta * ov >= 0) by (nonlinear_arith)
        requires ov >= 0;
    assert(delta < 0 ==> delta * ov <= 0) by (nonlinear_arith)
        requires ov >= 0;
    assert(abs(delta + 2 * m) == abs(delta) + 2 * abs(m));
    assert(abs(m) * (2 * d) == 2 * (abs(m) * d)) by (nonlinear_arith);
    assert((abs(delta) + 2 * abs(m)) * d == abs(delta) * d + 2 * (abs(m) * d)) by (nonlinear_arith);
    assert(abs(delta) * rs == abs(delta) * d + abs(delta) * ov) by (nonlinear_arith)
        requires rs == d + ov;
}

/// One collision correction between two overlapping bodies never brings
/// them closer, and never pushes them farther apart than the sum of their
/// radii (as long as neither moved coordinate leaves the coordinate range).
pub proof fn lemma_correction_separates(s: Seq<Body>, i: int, j: int)
    requires
        0 <= i < s.len(),
        0 <= j < s.len(),
        i != j,
        s[i].radius > 0,
        s[j].radius > 0,
        overlapping(s[i], s[j]),
        -(COORD_MAX as int) <= s[i].position.x + push(s[i].position.x - s[j].position.x, s[i], s[j])
            <= COORD_MAX as int,
        -(COORD_MAX as int) <= s[i].position.y + push(s[i].position.y - s[j].position.y, s[i], s[j])
            <= COORD_MAX as int,
        -(COORD_MAX as int) <= s[j].position.x - push(s[i].position.x - s[j].position.x, s[i], s[j])
            <= COORD_MAX as int,
        -(COORD_MAX as int) <= s[j].position.y - push(s[i].position.y - s[j].position.y, s[i], s[j])
            <= COORD_MAX as int,
    ensures
        dist_sq(s[i], s[j]) <= dist_sq(resolve(s, i, j)[i], resolve(s, i, j)[j]),
        dist_sq(resolve(s, i, j)[i], resolve(s, i, j)[j]) <= (s[i].radius + s[j].radius) * (
        s[i].radius + s[j].radius),
{
    let a = s[i];
    let b = s[j];
    let dsq = dist_sq(a, b);
    let rs = a.radius + b.radius;
    lemma_ceil_sqrt_exists(dsq);
    let d = ceil_sqrt_spec(dsq);
    assert(d >= 1) by (nonlinear_arith)
        requires is_ceil_sqrt(dsq, d), dsq > 0;
    assert(d <= rs) by (nonlinear_arith)
        requires (d - 1) * (d - 1) < dsq, dsq < rs * rs, d >= 1, rs > 0;
    let ov = rs - d;
    let dx = a.position.x - b.position.x;
    let dy = a.position.y - b.position.y;
    lemma_push_axis(dx, ov, d, rs);
    lemma_push_axis(dy, ov, d, rs);
    let r = resolve(s, i, j);
    let ex = dx + 2 * tdiv(dx * ov, 2 * d);
    let ey = dy + 2 * tdiv(dy * ov, 2 * d);
    assert(r[i].position.x - r[j].position.x == ex);
    assert(r[i].position.y - r[j].position.y == ey);
    let ax = abs(dx);
    let ay = abs(dy);
    let bx = abs(ex);
    let by = abs(ey);
    assert(dsq == ax * ax + ay * ay) by (nonlinear_arith)
        requires dsq == dx * dx + dy * dy, ax == abs(dx), ay == abs(dy);
    assert(dist_sq(r[i], r[j]) == bx * bx + by * by) by (nonlinear_arith)
        requires dist_sq(r[i], r[j]) == ex * ex + ey * ey, bx == abs(ex), by == abs(ey);
    assert(ax * ax + ay * ay <= bx * bx + by * by) by (nonlinear_arith)
        requires ax <= bx, ay <= by, ax >= 0, ay >= 0;
    assert((bx * bx + by * by) * (d * d) <= (ax * ax + ay * ay) * (rs * rs)) by (nonlinear_arith)
        requires bx * d <= ax * rs, by * d <= ay * rs, bx >= 0, by >= 0, d >= 1;
    assert((bx * bx + by * by) * (d * d) <= (d * d) * (rs * rs)) by (nonlinear_arith)
        requires
            (bx * bx + by * by) * (d * d) <= (ax * ax + ay * ay) * (rs * rs),
            ax * ax + ay * ay <= d * d;
    assert(bx * bx + by * by <= rs * rs) by (nonlinear_arith)
        requires (bx * bx + by * by) * (d * d) <= (d * d) * (rs * rs), d >= 1;
}

/// A correction moves each body along each axis by at most half the sum
/// of the radii.
pub proof fn lemma_push_bounded(a: Body, b: Body)
    requires
        a.radius > 0,
        b.radius > 0,
        overlapping(a, b),
    ensures
        2 * abs(push(a.position.x - b.position.x, a, b)) <= a.radius + b.radius,
        2 * abs(push(a.position.y - b.position.y, a, b)) <= a.radius + b.radius,
{
    let dsq = dist_sq(a, b);
    let rs = a.radius + b.radius;
    lemma_ceil_sqrt_exists(dsq);
    let d = ceil_sqrt_spec(dsq);
    assert(d >= 1) by (nonlinear_arith)
        requires is_ceil_sqrt(dsq, d), dsq > 0;
    assert(d <= rs) by (nonlinear_arith)
        requires (d - 1) * (d - 1) < dsq, dsq < rs * rs, d >= 1, rs > 0;
    let ov = rs - d;
    let dx = a.position.x - b.position.x;
    let dy = a.position.y - b.position.y;
    assert(abs(dx) <= d && abs(dy) <= d) by (nonlinear_arith)
        requires dsq == dx * dx + dy * dy, d * d >= dsq, d >= 1;
    lemma_tdiv_bounds(dx * ov, 2 * d);
    lemma_tdiv_bounds(dy * ov, 2 * d);
    let mx = abs(tdiv(dx * ov, 2 * d));
    let my = abs(tdiv(dy * ov, 2 * d));
    assert(abs(dx * ov) <= d * ov && abs(dy * ov) <= d * ov) by (nonlinear_arith)
        requires abs(dx) <= d, abs(dy) <= d, ov >= 0;
    assert(2 * mx <= ov) by (nonlinear_arith)
        requires mx * (2 * d) <= d * ov, d >= 1, mx >= 0;
    assert(2 * my <= ov) by (nonlinear_arith)
        requires my * (2 * d) <= d * ov, d >= 1, my >= 0;
}

/// Squared distance does not depend on the order of the two bodies.
proof fn lemma_dist_sq_symmetric(a: Body, b: Body)
    ensures
        dist_sq(a, b) == dist_sq(b, a),
{
    let dx = a.position.x - b.position.x;
    let dy = a.position.y - b.position.y;
    assert((-dx) * (-dx) == dx * dx && (-dy) * (-dy) == dy * dy) by (nonlinear_arith);
}

/// For two overlapping bodies, the collision resolver's pass, which
/// corrects the pair once in each order, never brings them closer and
/// never leaves them farther apart than the sum of their radii (for bodies
/// far enough from the edge of the coordinate range).
pub proof fn lemma_two_body_pass_separates(s: Seq<Body>)
    requires
        s.len() == 2,
        s[0].radius > 0,
        s[1].radius > 0,
        overlapping(s[0], s[1]),
        forall|k: int|
            0 <= k < 2 ==> {
                let m = COORD_MAX - (s[0].radius + s[1].radius);
                &&& -m <= #[trigger] s[k].position.x <= m
                &&& -m <= s[k].position.y <= m
            },
    ensures
        dist_sq(s[0], s[1]) <= dist_sq(collide_all(s)[0], collide_all(s)[1]),
        dist_sq(collide_all(s)[0], collide_all(s)[1]) <= (s[0].radius + s[1].radius) * (
        s[0].radius + s[1].radius),
{
    let rs = s[0].radius + s[1].radius;
    let m = COORD_MAX - rs;
    assert(-m <= s[0].position.x <= m && -m <= s[0].position.y <= m);
    assert(-m <= s[1].position.x <= m && -m <= s[1].position.y <= m);
    let t = resolve(s, 0, 1);
    let u = resolve(t, 1, 0);
    assert(resolve(s, 0, 0) == s);
    assert(resolve_row(s, 0, 0) == s);
    assert(resolve_row(s, 0, 1) == s);
    assert(resolve_row(s, 0, 2) == t);
    assert(resolve_grid(s, 2, 0) == s);
    assert(resolve_grid(s, 2, 1) == t);
    assert(resolve(u, 1, 1) == u);
    assert(resolve_row(t, 1, 0) == t);
    assert(resolve_row(t, 1, 1) == resolve(t, 1, 0));
    assert(resolve_row(t, 1, 2) == u);
    assert(resolve_grid(s, 2, 2) == u);
    assert(collide_all(s) == u);
    lemma_push_bounded(s[0], s[1]);
    lemma_correction_separates(s, 0, 1);
    let half = rs / 2;
    assert(-m - half <= t[0].position.x <= m + half && -m - half <= t[0].position.y <= m + half);
    assert(-m - half <= t[1].position.x <= m + half && -m - half <= t[1].position.y <= m + half);
    lemma_dist_sq_symmetric(t[0], t[1]);
    if overlapping(t[1], t[0]) {
        lemma_push_bounded(t[1], t[0]);
        lemma_correction_separates(t, 1, 0);
        lemma_dist_sq_symmetric(u[0], u[1]);
    }
}

} // verus!
