//! The body store with its arena and gravity, and the stages of a tick.
use vstd::prelude::*;
use crate::arith::{abs, ceil_sqrt, clamp_to, is_ceil_sqrt, lemma_tdiv_bounds, trunc_div};
use crate::body::{
    constrained, contained, damped, integrated, resolve, resolve_grid, resolve_row, vec_within, with_gravity,
    Arena, Body, Vec2, ACCEL_MAX, COORD_MAX,
};

verus! {

/// Every body of `s` is well formed for an arena of radius `r`.
pub open spec fn bodies_wf(s: Seq<Body>, r: int) -> bool {
    forall|k: int| 0 <= k < s.len() ==> #[trigger] s[k].wf(r)
}

/// Gravity added to every body.
pub open spec fn gravity_all(s: Seq<Body>, g: Vec2) -> Seq<Body> {
    Seq::new(s.len(), |k: int| with_gravity(s[k], g))
}

/// One pass of the collision resolver over every ordered pair.
pub open spec fn collide_all(s: Seq<Body>) -> Seq<Body> {
    resolve_grid(s, s.len() as int, s.len() as int)
}

/// The containment constraint applied to every body.
pub open spec fn contain_all(s: Seq<Body>, arena: Arena) -> Seq<Body> {
    Seq::new(s.len(), |k: int| constrained(s[k], arena))
}

/// Damping added to every body; nothing when no time has passed.
pub open spec fn damp_all(s: Seq<Body>, dt: int) -> Seq<Body> {
    if dt == 0 {
        s
    } else {
        Seq::new(s.len(), |k: int| damped(s[k], dt))
    }
}

/// One Verlet step of every body.
pub open spec fn integrate_all(s: Seq<Body>, dt: int) -> Seq<Body> {
    Seq::new(s.len(), |k: int| integrated(s[k], dt))
}

/// The bodies after one whole tick: gravity, collisions, containment,
/// damping and integration, in that order.
pub open spec fn step(s: Seq<Body>, arena: Arena, g: Vec2, dt: int) -> Seq<Body> {
    integrate_all(damp_all(contain_all(collide_all(gravity_all(s, g)), arena), dt), dt)
}

/// Pushes bodies `i` and `j` apart when they overlap.
pub fn resolve_pair(bodies: &mut Vec<Body>, i: usize, j: usize, arena_radius: i64)
    requires
        i < old(bodies).len(),
        j < old(bodies).len(),
        0 < arena_radius <= COORD_MAX,
        bodies_wf(old(bodies)@, arena_radius as int),
    ensures
        final(bodies)@ == resolve(old(bodies)@, i as int, j as int),
        bodies_wf(final(bodies)@, arena_radius as int),
{
    if i == j {
        return;
    }
    let a = bodies[i];
    let b = bodies[j];
    assert(a.wf(arena_radius as int) && b.wf(arena_radius as int));
    let dx: i128 = a.position.x as i128 - b.position.x as i128;
    let dy: i128 = a.position.y as i128 - b.position.y as i128;
    assert(0 <= dx * dx <= 4_835_703_278_458_516_698_824_704 && 0 <= dy * dy <= 4_835_703_278_458_516_698_824_704) by (nonlinear_arith)
        requires -2_199_023_255_552 <= dx <= 2_199_023_255_552, -2_199_023_255_552 <= dy <= 2_199_023_255_552;
    let dsq: i128 = dx * dx + dy * dy;
    let rs: i128 = a.radius as i128 + b.radius as i128;
    assert(rs * rs <= 4_835_703_278_458_516_698_824_704) by (nonlinear_arith)
        requires 0 <= rs <= 2_199_023_255_552;
    if dsq > 0 && dsq < rs * rs {
        let d: i128 = ceil_sqrt(dsq as u128) as i128;
        assert(d >= 1) by (nonlinear_arith)
            requires is_ceil_sqrt(dsq as int, d as int), dsq > 0;
        let ov: i128 = rs - d;
        assert(abs(dx * ov) <= 309_485_009_821_345_068_724_781_056 && abs(dy * ov) <= 309_485_009_821_345_068_724_781_056) by (nonlinear_arith)
            requires
                -2_199_023_255_552 <= dx <= 2_199_023_255_552,
                -2_199_023_255_552 <= dy <= 2_199_023_255_552,
                -70_368_744_177_664 <= ov <= 70_368_744_177_664;
        let mx = trunc_div(dx * ov, 2 * d);
        let my = trunc_div(dy * ov, 2 * d);
        proof {
            lemma_tdiv_bounds(dx * ov, 2 * d);
            lemma_tdiv_bounds(dy * ov, 2 * d);
        }
        let na = Body {
            position: Vec2 {
                x: clamp_to(a.position.x as i128 + mx, COORD_MAX),
                y: clamp_to(a.position.y as i128 + my, COORD_MAX),
            },
            ..a
        };
        let nb = Body {
            position: Vec2 {
                x: clamp_to(b.position.x as i128 - mx, COORD_MAX),
                y: clamp_to(b.position.y as i128 - my, COORD_MAX),
            },
            ..b
        };
        bodies.set(i, na);
        bodies.set(j, nb);
    }
}

/// The whole simulation state: the body store, the arena and gravity.
pub struct World {
    pub bodies: Vec<Body>,
    pub arena: Arena,
    pub gravity: Vec2,
}

impl World {
    /// The arena and gravity are in range and every body fits the arena.
    pub open spec fn wf(&self) -> bool {
        &&& self.arena.wf()
        &&& vec_within(self.gravity, ACCEL_MAX as int)
        &&& bodies_wf(self.bodies@, self.arena.radius as int)
    }

    /// A world with no bodies, or `None` when the arena or gravity is out of range.
    pub fn new(arena: Arena, gravity: Vec2) -> (r: Option<World>)
        ensures
            r.is_some() <==> arena.wf() && vec_within(gravity, ACCEL_MAX as int),
            r.is_some() ==> r.unwrap().wf() && r.unwrap().bodies@.len() == 0
                && r.unwrap().arena == arena && r.unwrap().gravity == gravity,
    {
        let c = arena.center;
        let m = COORD_MAX;
        let arena_ok = 0 < arena.radius && -m <= c.x && c.x <= m && -m <= c.y && c.y <= m
            && c.x as i128 - arena.radius as i128 >= -(m as i128)
            && c.x as i128 + arena.radius as i128 <= m as i128
            && c.y as i128 - arena.radius as i128 >= -(m as i128)
            && c.y as i128 + arena.radius as i128 <= m as i128;
        let g_ok = -ACCEL_MAX <= gravity.x && gravity.x <= ACCEL_MAX && -ACCEL_MAX <= gravity.y
            && gravity.y <= ACCEL_MAX;
        if arena_ok && g_ok {
            Some(World { bodies: Vec::new(), arena, gravity })
        } else {
            None
        }
    }

    /// Adds a body with an empty acceleration accumulator, or returns
    /// `false` and changes nothing when a coordinate is out of range or the
    /// radius is not in `(0, arena radius]`.
    pub fn spawn(&mut self, position: Vec2, previous_position: Vec2, radius: i64) -> (ok: bool)
        requires
            old(self).wf(),
        ensures
            final(self).wf(),
            final(self).arena == old(self).arena,
            final(self).gravity == old(self).gravity,
            ok <==> vec_within(position, COORD_MAX as int) && vec_within(previous_position, COORD_MAX as int)
                && 0 < radius <= old(self).arena.radius,
            ok ==> final(self).bodies@ == old(self).bodies@.push(
                Body { position, previous_position, acceleration: Vec2 { x: 0, y: 0 }, radius },
            ),
            !ok ==> final(self).bodies@ == old(self).bodies@,
    {
        let m = COORD_MAX;
        if -m <= position.x && position.x <= m && -m <= position.y && position.y <= m
            && -m <= previous_position.x && previous_position.x <= m
            && -m <= previous_position.y && previous_position.y <= m
            && 0 < radius && radius <= self.arena.radius
        {
            let b = Body { position, previous_position, acceleration: Vec2 { x: 0, y: 0 }, radius };
            self.bodies.push(b);
            assert(bodies_wf(self.bodies@, self.arena.radius as int)) by {
                assert forall|k: int| 0 <= k < self.bodies@.len() implies #[trigger] self.bodies@[k].wf(
                    self.arena.radius as int,
                ) by {
                    if k < old(self).bodies@.len() {
                        assert(old(self).bodies@[k].wf(self.arena.radius as int));
                    }
                }
            }
            true
        } else {
            false
        }
    }

    /// The number of bodies.
    pub fn len(&self) -> (r: usize)
        ensures
            r == self.bodies@.len(),
    {
        self.bodies.len()
    }

    /// Body `i`.
    pub fn body(&self, i: usize) -> (r: Body)
        requires
            i < self.bodies@.len(),
        ensures
            r == self.bodies@[i as int],
    {
        self.bodies[i]
    }
}

impl World {
    /// Gravity field stage: adds the gravity vector to every body's acceleration.
    pub fn apply_gravity(&mut self)
        requires
            old(self).wf(),
        ensures
            final(self).wf(),
            final(self).arena == old(self).arena,
            final(self).gravity == old(self).gravity,
            final(self).bodies@ == gravity_all(old(self).bodies@, old(self).gravity),
    {
        let n = self.bodies.len();
        let g = self.gravity;
        let r = self.arena.radius;
        let mut k: usize = 0;
        while k < n
            invariant
                n == self.bodies@.len(),
                k <= n,
                self.arena == old(self).arena,
                self.gravity == old(self).gravity,
                g == self.gravity,
                r == self.arena.radius,
                self.wf(),
                forall|m: int| 0 <= m < k ==> self.bodies@[m] == with_gravity(old(self).bodies@[m], g),
                forall|m: int| k <= m < n ==> self.bodies@[m] == old(self).bodies@[m],
            decreases n - k,
        {
            let b = self.bodies[k];
            assert(b.wf(r as int));
            let nb = b.apply_gravity(g);
            self.bodies.set(k, nb);
            assert(bodies_wf(self.bodies@, r as int)) by {
                assert forall|m: int| 0 <= m < n implies #[trigger] self.bodies@[m].wf(r as int) by {
                    if m != k {
                        assert(old(self).bodies@[m].wf(r as int) || m < k);
                    }
                }
            }
            k += 1;
        }
        assert(self.bodies@ =~= gravity_all(old(self).bodies@, g));
    }

    /// Collision resolver stage: visits every ordered pair of distinct
    /// bodies, row by row, pushing apart each pair that overlaps.
    pub fn collisions(&mut self)
        requires
            old(self).wf(),
        ensures
            final(self).wf(),
            final(self).arena == old(self).arena,
            final(self).gravity == old(self).gravity,
            final(self).bodies@ == collide_all(old(self).bodies@),
    {
        let n = self.bodies.len();
        let r = self.arena.radius;
        let mut i: usize = 0;
        while i < n
            invariant
                n == self.bodies@.len(),
                n == old(self).bodies@.len(),
                i <= n,
                self.arena == old(self).arena,
                self.gravity == old(self).gravity,
                r == self.arena.radius,
                self.wf(),
                self.bodies@ == resolve_grid(old(self).bodies@, n as int, i as int),
            decreases n - i,
        {
            let mut j: usize = 0;
            while j < n
                invariant
                    n == self.bodies@.len(),
                    n == old(self).bodies@.len(),
                    i < n,
                    j <= n,
                    self.arena == old(self).arena,
                    self.gravity == old(self).gravity,
                    r == self.arena.radius,
                    self.wf(),
                    self.bodies@ == resolve_row(
                        resolve_grid(old(self).bodies@, n as int, i as int),
                        i as int,
                        j as int,
                    ),
                decreases n - j,
            {
                resolve_pair(&mut self.bodies, i, j, r);
                j += 1;
            }
            i += 1;
        }
    }

    /// Containment stage: moves every body that lies outside the arena
    /// back onto its boundary.
    pub fn constrain_area(&mut self)
        requires
            old(self).wf(),
        ensures
            final(self).wf(),
            final(self).arena == old(self).arena,
            final(self).gravity == old(self).gravity,
            final(self).bodies@ == contain_all(old(self).bodies@, old(self).arena),
            forall|k: int|
                0 <= k < final(self).bodies@.len() ==> contained(
                    #[trigger] final(self).bodies@[k],
                    final(self).arena,
                ),
    {
        let n = self.bodies.len();
        let arena = self.arena;
        let r = self.arena.radius;
        let mut k: usize = 0;
        while k < n
            invariant
                n == self.bodies@.len(),
                k <= n,
                self.arena == old(self).arena,
                self.gravity == old(self).gravity,
                arena == self.arena,
                r == self.arena.radius,
                self.wf(),
                forall|m: int| 0 <= m < k ==> self.bodies@[m] == constrained(old(self).bodies@[m], arena),
                forall|m: int| 0 <= m < k ==> contained(#[trigger] self.bodies@[m], arena),
                forall|m: int| k <= m < n ==> self.bodies@[m] == old(self).bodies@[m],
            decreases n - k,
        {
            let b = self.bodies[k];
            assert(b.wf(r as int));
            let nb = b.constrain(arena);
            self.bodies.set(k, nb);
            assert(bodies_wf(self.bodies@, r as int)) by {
                assert forall|m: int| 0 <= m < n implies #[trigger] self.bodies@[m].wf(r as int) by {
                    if m != k {
                        assert(old(self).bodies@[m].wf(r as int) || m < k);
                    }
                }
            }
            k += 1;
        }
        assert(self.bodies@ =~= contain_all(old(self).bodies@, arena));
    }

    /// Velocity damper stage: adds drag against the implied velocity to every
    /// body's acceleration; does nothing when no time has passed.
    pub fn dampen_velocity(&mut self, dt: u32)
        requires
            old(self).wf(),
        ensures
            final(self).wf(),
            final(self).arena == old(self).arena,
            final(self).gravity == old(self).gravity,
            final(self).bodies@ == damp_all(old(self).bodies@, dt as int),
    {
        if dt == 0 {
            return;
        }
        let n = self.bodies.len();
        let r = self.arena.radius;
        let mut k: usize = 0;
        while k < n
            invariant
                dt > 0,
                n == self.bodies@.len(),
                k <= n,
                self.arena == old(self).arena,
                self.gravity == old(self).gravity,
                r == self.arena.radius,
                self.wf(),
                forall|m: int| 0 <= m < k ==> self.bodies@[m] == damped(old(self).bodies@[m], dt as int),
                forall|m: int| k <= m < n ==> self.bodies@[m] == old(self).bodies@[m],
            decreases n - k,
        {
            let b = self.bodies[k];
            assert(b.wf(r as int));
            let nb = b.damp(dt);
            self.bodies.set(k, nb);
            assert(bodies_wf(self.bodies@, r as int)) by {
                assert forall|m: int| 0 <= m < n implies #[trigger] self.bodies@[m].wf(r as int) by {
                    if m != k {
                        assert(old(self).bodies@[m].wf(r as int) || m < k);
                    }
                }
            }
            k += 1;
        }
        assert(self.bodies@ =~= damp_all(old(self).bodies@, dt as int));
    }

    /// Integrator stage: one Verlet step of every body, which also clears
    /// every acceleration accumulator.
    pub fn update_positions(&mut self, dt: u32)
        requires
            old(self).wf(),
        ensures
            final(self).wf(),
            final(self).arena == old(self).arena,
            final(self).gravity == old(self).gravity,
            final(self).bodies@ == integrate_all(old(self).bodies@, dt as int),
            forall|k: int|
                0 <= k < final(self).bodies@.len() ==> (#[trigger] final(self).bodies@[k]).acceleration
                    == Vec2::zero_spec(),
    {
        let n = self.bodies.len();
        let r = self.arena.radius;
        let mut k: usize = 0;
        while k < n
            invariant
                n == self.bodies@.len(),
                k <= n,
                self.arena == old(self).arena,
                self.gravity == old(self).gravity,
                r == self.arena.radius,
                self.wf(),
                forall|m: int| 0 <= m < k ==> self.bodies@[m] == integrated(old(self).bodies@[m], dt as int),
                forall|m: int| k <= m < n ==> self.bodies@[m] == old(self).bodies@[m],
            decreases n - k,
        {
            let b = self.bodies[k];
            assert(b.wf(r as int));
            let nb = b.integrate(dt);
            self.bodies.set(k, nb);
            assert(bodies_wf(self.bodies@, r as int)) by {
                assert forall|m: int| 0 <= m < n implies #[trigger] self.bodies@[m].wf(r as int) by {
                    if m != k {
                        assert(old(self).bodies@[m].wf(r as int) || m < k);
                    }
                }
            }
            k += 1;
        }
        assert(self.bodies@ =~= integrate_all(old(self).bodies@, dt as int));
    }

    /// One simulation tick of `dt` microseconds: gravity, collisions,
    /// containment, damping, integration.
    pub fn tick(&mut self, dt: u32)
        requires
            old(self).wf(),
        ensures
            final(self).wf(),
            final(self).arena == old(self).arena,
            final(self).gravity == old(self).gravity,
            final(self).bodies@ == step(old(self).bodies@, old(self).arena, old(self).gravity, dt as int),
            forall|k: int|
                0 <= k < final(self).bodies@.len() ==> (#[trigger] final(self).bodies@[k]).acceleration
                    == Vec2::zero_spec(),
    {
        self.apply_gravity();
        self.collisions();
        self.constrain_area();
        self.dampen_velocity(dt);
        self.update_positions(dt);
    }
}

} // verus!
