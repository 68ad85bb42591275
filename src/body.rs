//! Bodies, the arena, and what each stage of a tick does to one body.
use vstd::prelude::*;
use crate::arith::{
    abs, ceil_sqrt, ceil_sqrt_spec, clamp, clamp_to, is_ceil_sqrt, lemma_tdiv_bounds, tdiv, trunc_div,
};

verus! {

/// Bound on every coordinate of a position, in length units.
pub const COORD_MAX: i64 = 1_099_511_627_776;

/// Bound on every component of an acceleration, in length units per second squared.
pub const ACCEL_MAX: i64 = 1_099_511_627_776;

/// Time units per second: elapsed time is given in microseconds.
pub const TIME_SCALE: i64 = 1_000_000;

/// The damping coefficient is `-1 / DAMPING_DIVISOR`.
pub const DAMPING_DIVISOR: i64 = 2;

/// A planar vector of fixed-point components.
#[derive(Clone, Copy, Debug, PartialEq, Eq, Structural)]
pub struct Vec2 {
    pub x: i64,
    pub y: i64,
}

impl Vec2 {
    /// The zero vector.
    pub open spec fn zero_spec() -> Vec2 {
        Vec2 { x: 0, y: 0 }
    }

    pub fn new(x: i64, y: i64) -> (r: Vec2)
        ensures
            r.x == x,
            r.y == y,
    {
        Vec2 { x, y }
    }

    pub fn zero() -> (r: Vec2)
        ensures
            r == Vec2::zero_spec(),
    {
        Vec2 { x: 0, y: 0 }
    }
}

/// Both components lie in `[-m, m]`.
pub open spec fn vec_within(v: Vec2, m: int) -> bool {
    -m <= v.x <= m && -m <= v.y <= m
}

/// The vector with components `clamp(x)` and `clamp(y)` under bound `m`.
pub open spec fn clamped_vec(x: int, y: int, m: int) -> Vec2 {
    Vec2 { x: clamp(x, m) as i64, y: clamp(y, m) as i64 }
}

/// One rigid circular particle.
#[derive(Clone, Copy, Debug, PartialEq, Eq, Structural)]
pub struct Body {
    pub position: Vec2,
    pub previous_position: Vec2,
    pub acceleration: Vec2,
    pub radius: i64,
}

/// The circular region that holds every body.
#[derive(Clone, Copy, Debug, PartialEq, Eq, Structural)]
pub struct Arena {
    pub center: Vec2,
    pub radius: i64,
}

impl Arena {
    /// The arena fits in the coordinate range, with a positive radius.
    pub open spec fn wf(self) -> bool {
        &&& 0 < self.radius
        &&& vec_within(self.center, COORD_MAX as int)
        &&& -(COORD_MAX as int) <= self.center.x - self.radius
        &&& self.center.x + self.radius <= COORD_MAX as int
        &&& -(COORD_MAX as int) <= self.center.y - self.radius
        &&& self.center.y + self.radius <= COORD_MAX as int
    }
}

impl Body {
    /// Every field is in range and the body fits inside an arena of radius `arena_radius`.
    pub open spec fn wf(self, arena_radius: int) -> bool {
        &&& vec_within(self.position, COORD_MAX as int)
        &&& vec_within(self.previous_position, COORD_MAX as int)
        &&& vec_within(self.acceleration, ACCEL_MAX as int)
        &&& 0 < self.radius <= arena_radius
    }
}

// ---------------------------------------------------------------- gravity

/// The body with `g` added to its acceleration.
pub open spec fn with_gravity(b: Body, g: Vec2) -> Body {
    Body {
        acceleration: clamped_vec(
            b.acceleration.x + g.x,
            b.acceleration.y + g.y,
            ACCEL_MAX as int,
        ),
        ..b
    }
}

// ------------------------------------------------------------- collisions

/// Planar squared distance between two bodies' positions.
pub open spec fn dist_sq(a: Body, b: Body) -> int {
    let dx = a.position.x - b.position.x;
    let dy = a.position.y - b.position.y;
    dx * dx + dy * dy
}

/// The two bodies overlap, at distinct positions.
pub open spec fn overlapping(a: Body, b: Body) -> bool {
    let rs = a.radius + b.radius;
    0 < dist_sq(a, b) < rs * rs
}

/// Half the correction along one axis: the component `delta` of the
/// separation, scaled by the overlap over twice the distance.
pub open spec fn push(delta: int, a: Body, b: Body) -> int {
    let d = ceil_sqrt_spec(dist_sq(a, b));
    tdiv(delta * (a.radius + b.radius - d), 2 * d)
}

/// The body moved by `(mx, my)`.
pub open spec fn moved(b: Body, mx: int, my: int) -> Body {
    Body {
        position: clamped_vec(b.position.x + mx, b.position.y + my, COORD_MAX as int),
        ..b
    }
}

/// Body `i` of `s` after pushing it away from body `j`, which gets the opposite push.
pub open spec fn resolve(s: Seq<Body>, i: int, j: int) -> Seq<Body> {
    if i != j && overlapping(s[i], s[j]) {
        let a = s[i];
        let b = s[j];
        let mx = push(a.position.x - b.position.x, a, b);
        let my = push(a.position.y - b.position.y, a, b);
        s.update(i, moved(a, mx, my)).update(j, moved(b, -mx, -my))
    } else {
        s
    }
}

/// `s` after visiting the ordered pairs `(i, 0)`, ..., `(i, j - 1)`.
pub open spec fn resolve_row(s: Seq<Body>, i: int, j: int) -> Seq<Body>
    decreases j,
{
    if j <= 0 {
        s
    } else {
        resolve(resolve_row(s, i, j - 1), i, j - 1)
    }
}

/// `s` after visiting every ordered pair whose first index is below `i`,
/// among `n` bodies, row by row.
pub open spec fn resolve_grid(s: Seq<Body>, n: int, i: int) -> Seq<Body>
    decreases i,
{
    if i <= 0 {
        s
    } else {
        resolve_row(resolve_grid(s, n, i - 1), i - 1, n)
    }
}

// ------------------------------------------------------------ containment

/// How far the body's center may lie from the arena's center.
pub open spec fn reach(b: Body, arena: Arena) -> int {
    arena.radius - b.radius
}

/// Planar squared distance from the arena's center to the body.
pub open spec fn center_dist_sq(b: Body, arena: Arena) -> int {
    let dx = b.position.x - arena.center.x;
    let dy = b.position.y - arena.center.y;
    dx * dx + dy * dy
}

/// The body lies within the arena, its own radius included.
pub open spec fn contained(b: Body, arena: Arena) -> bool {
    center_dist_sq(b, arena) <= reach(b, arena) * reach(b, arena)
}

/// The body after the containment constraint: moved back along its
/// direction from the center onto the boundary when it is outside.
pub open spec fn constrained(b: Body, arena: Arena) -> Body {
    if contained(b, arena) {
        b
    } else {
        let l = reach(b, arena);
        let len = ceil_sqrt_spec(center_dist_sq(b, arena));
        Body {
            position: Vec2 {
                x: (arena.center.x + tdiv((b.position.x - arena.center.x) * l, len)) as i64,
                y: (arena.center.y + tdiv((b.position.y - arena.center.y) * l, len)) as i64,
            },
            ..b
        }
    }
}

// ---------------------------------------------------------------- damping

/// The damping contribution along one axis for a position change `v`
/// over `dt` microseconds: the velocity times the damping coefficient.
pub open spec fn damping_term(v: int, dt: int) -> int {
    -tdiv(v * TIME_SCALE, DAMPING_DIVISOR * dt)
}

/// The body with damping added to its acceleration.
pub open spec fn damped(b: Body, dt: int) -> Body {
    let vx = b.position.x - b.previous_position.x;
    let vy = b.position.y - b.previous_position.y;
    Body {
        acceleration: clamped_vec(
            b.acceleration.x + damping_term(vx, dt),
            b.acceleration.y + damping_term(vy, dt),
            ACCEL_MAX as int,
        ),
        ..b
    }
}

// ------------------------------------------------------------ integration

/// The displacement that acceleration `a` gives over `dt` microseconds.
pub open spec fn accel_step(a: int, dt: int) -> int {
    tdiv(a * dt * dt, TIME_SCALE * TIME_SCALE)
}

/// The body after one Verlet step of `dt` microseconds.
pub open spec fn integrated(b: Body, dt: int) -> Body {
    Body {
        position: clamped_vec(
            b.position.x + (b.position.x - b.previous_position.x) + accel_step(b.acceleration.x as int, dt),
            b.position.y + (b.position.y - b.previous_position.y) + accel_step(b.acceleration.y as int, dt),
            COORD_MAX as int,
        ),
        previous_position: b.position,
        acceleration: Vec2 { x: 0, y: 0 },
        radius: b.radius,
    }
}

/// Pulling a point at squared distance at most `len * len` from the center
/// back by the factor `l / len`, each coordinate rounded toward zero, lands
/// within distance `l`.
pub proof fn lemma_scaled_within(dx: int, dy: int, l: int, len: int)
    requires
        len >= 1,
        l >= 0,
        dx * dx + dy * dy <= len * len,
    ensures
        abs(tdiv(dx * l, len)) <= l,
        abs(tdiv(dy * l, len)) <= l,
        tdiv(dx * l, len) * tdiv(dx * l, len) + tdiv(dy * l, len) * tdiv(dy * l, len) <= l * l,
{
    let qx = tdiv(dx * l, len);
    let qy = tdiv(dy * l, len);
    lemma_tdiv_bounds(dx * l, len);
    lemma_tdiv_bounds(dy * l, len);
    let ax = abs(dx);
    let ay = abs(dy);
    let bx = abs(qx);
    let by = abs(qy);
    assert(abs(dx * l) == ax * l) by (nonlinear_arith)
        requires ax == abs(dx), l >= 0;
    assert(abs(dy * l) == ay * l) by (nonlinear_arith)
        requires ay == abs(dy), l >= 0;
    assert(ax * ax + ay * ay <= len * len) by (nonlinear_arith)
        requires ax == abs(dx), ay == abs(dy), dx * dx + dy * dy <= len * len;
    assert(ax <= len) by (nonlinear_arith)
        requires ax >= 0, ay * ay >= 0, ax * ax + ay * ay <= len * len, len >= 1;
    assert(ay <= len) by (nonlinear_arith)
        requires ay >= 0, ax * ax >= 0, ax * ax + ay * ay <= len * len, len >= 1;
    assert(bx <= l) by (nonlinear_arith)
        requires bx * len <= ax * l, ax <= len, bx >= 0, l >= 0, len >= 1;
    assert(by <= l) by (nonlinear_arith)
        requires by * len <= ay * l, ay <= len, by >= 0, l >= 0, len >= 1;
    assert((bx * bx + by * by) * (len * len) <= (ax * ax + ay * ay) * (l * l)) by (nonlinear_arith)
        requires bx * len <= ax * l, by * len <= ay * l, bx >= 0, by >= 0, len >= 1;
    assert((bx * bx + by * by) * (len * len) <= (len * len) * (l * l)) by (nonlinear_arith)
        requires
            (bx * bx + by * by) * (len * len) <= (ax * ax + ay * ay) * (l * l),
            ax * ax + ay * ay <= len * len;
    assert(bx * bx + by * by <= l * l) by (nonlinear_arith)
        requires (bx * bx + by * by) * (len * len) <= (len * len) * (l * l), len >= 1;
    assert(qx * qx == bx * bx && qy * qy == by * by) by (nonlinear_arith)
        requires bx == abs(qx), by == abs(qy);
}

/// The displacement that acceleration `a` gives over `dt` microseconds.
fn accel_step_exec(a: i64, dt: u32) -> (r: i128)
    requires
        -(ACCEL_MAX as int) <= a <= ACCEL_MAX as int,
    ensures
        r as int == accel_step(a as int, dt as int),
        abs(r as int) <= 20_282_409_603_651_670_423_947_251_286_016,
{
    assert(abs(a * dt) <= 4_722_366_482_869_645_213_696) by (nonlinear_arith)
        requires -1_099_511_627_776 <= a <= 1_099_511_627_776, 0 <= dt <= 4_294_967_295;
    let ad: i128 = a as i128 * dt as i128;
    assert(abs(ad * dt) <= 20_282_409_603_651_670_423_947_251_286_016) by (nonlinear_arith)
        requires abs(ad as int) <= 4_722_366_482_869_645_213_696, 0 <= dt <= 4_294_967_295;
    let add: i128 = ad * dt as i128;
    proof {
        lemma_tdiv_bounds(add as int, (TIME_SCALE * TIME_SCALE) as int);
    }
    trunc_div(add, TIME_SCALE as i128 * TIME_SCALE as i128)
}

impl Body {
    /// Adds the gravity vector `g` to the acceleration accumulator.
    pub fn apply_gravity(&self, g: Vec2) -> (r: Body)
        requires
            vec_within(self.acceleration, ACCEL_MAX as int),
            vec_within(g, ACCEL_MAX as int),
        ensures
            r == with_gravity(*self, g),
    {
        let ax = clamp_to(self.acceleration.x as i128 + g.x as i128, ACCEL_MAX);
        let ay = clamp_to(self.acceleration.y as i128 + g.y as i128, ACCEL_MAX);
        Body { acceleration: Vec2 { x: ax, y: ay }, ..*self }
    }

    /// Adds the drag of the velocity implied by the position history over
    /// `dt` microseconds to the acceleration accumulator.
    pub fn damp(&self, dt: u32) -> (r: Body)
        requires
            dt > 0,
            self.wf(COORD_MAX as int),
        ensures
            r == damped(*self, dt as int),
    {
        let div: i128 = DAMPING_DIVISOR as i128 * dt as i128;
        assert(div == 2 * dt);
        let vx: i128 = self.position.x as i128 - self.previous_position.x as i128;
        let vy: i128 = self.position.y as i128 - self.previous_position.y as i128;
        let tx = trunc_div(vx * TIME_SCALE as i128, div);
        let ty = trunc_div(vy * TIME_SCALE as i128, div);
        proof {
            lemma_tdiv_bounds(vx * TIME_SCALE, div as int);
            lemma_tdiv_bounds(vy * TIME_SCALE, div as int);
        }
        let ax = clamp_to(self.acceleration.x as i128 - tx, ACCEL_MAX);
        let ay = clamp_to(self.acceleration.y as i128 - ty, ACCEL_MAX);
        Body { acceleration: Vec2 { x: ax, y: ay }, ..*self }
    }

    /// One Verlet step of `dt` microseconds: the position advances by the
    /// implied velocity plus the acceleration's contribution, the old
    /// position becomes the previous one, and the accumulator is cleared.
    pub fn integrate(&self, dt: u32) -> (r: Body)
        requires
            self.wf(COORD_MAX as int),
        ensures
            r == integrated(*self, dt as int),
    {
        let sx = accel_step_exec(self.acceleration.x, dt);
        let sy = accel_step_exec(self.acceleration.y, dt);
        let px: i128 = self.position.x as i128;
        let py: i128 = self.position.y as i128;
        let nx = clamp_to(px + (px - self.previous_position.x as i128) + sx, COORD_MAX);
        let ny = clamp_to(py + (py - self.previous_position.y as i128) + sy, COORD_MAX);
        Body {
            position: Vec2 { x: nx, y: ny },
            previous_position: self.position,
            acceleration: Vec2 { x: 0, y: 0 },
            radius: self.radius,
        }
    }

    /// Moves the body back onto the arena's boundary, along its direction
    /// from the center, when it lies outside.
    pub fn constrain(&self, arena: Arena) -> (r: Body)
        requires
            arena.wf(),
            self.wf(arena.radius as int),
        ensures
            r == constrained(*self, arena),
            contained(r, arena),
            r.wf(arena.radius as int),
    {
        let dx: i128 = self.position.x as i128 - arena.center.x as i128;
        let dy: i128 = self.position.y as i128 - arena.center.y as i128;
        assert(0 <= dx * dx <= 4_835_703_278_458_516_698_824_704 && 0 <= dy * dy <= 4_835_703_278_458_516_698_824_704) by (nonlinear_arith)
            requires -2_199_023_255_552 <= dx <= 2_199_023_255_552, -2_199_023_255_552 <= dy <= 2_199_023_255_552;
        let dsq: i128 = dx * dx + dy * dy;
        let l: i128 = arena.radius as i128 - self.radius as i128;
        assert(l * l <= 1_208_925_819_614_629_174_706_176) by (nonlinear_arith)
            requires 0 <= l <= 1_099_511_627_776;
        if dsq <= l * l {
            return *self;
        }
        let len: i128 = ceil_sqrt(dsq as u128) as i128;
        assert(len >= 1) by (nonlinear_arith)
            requires is_ceil_sqrt(dsq as int, len as int), dsq > 0;
        assert(abs(dx * l) <= 2_417_851_639_229_258_349_412_352 && abs(dy * l) <= 2_417_851_639_229_258_349_412_352) by (nonlinear_arith)
            requires -2_199_023_255_552 <= dx <= 2_199_023_255_552, -2_199_023_255_552 <= dy <= 2_199_023_255_552, 0 <= l <= 1_099_511_627_776;
        let qx = trunc_div(dx * l, len);
        let qy = trunc_div(dy * l, len);
        proof {
            lemma_scaled_within(dx as int, dy as int, l as int, len as int);
        }
        let r = Body {
            position: Vec2 {
                x: (arena.center.x as i128 + qx) as i64,
                y: (arena.center.y as i128 + qy) as i64,
            },
            ..*self
        };
        assert(center_dist_sq(r, arena) == qx * qx + qy * qy);
        r
    }
}

} // verus!
