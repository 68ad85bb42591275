use verlet_balls::arith::{ceil_sqrt, clamp_to, trunc_div};
use verlet_balls::body::{Arena, Body, Vec2, TIME_SCALE};
use verlet_balls::world::{resolve_pair, World};

fn arena(cx: i64, cy: i64, r: i64) -> Arena {
    Arena { center: Vec2::new(cx, cy), radius: r }
}

fn world_with(a: Arena, g: Vec2, bodies: &[(i64, i64, i64)]) -> World {
    let mut w = World::new(a, g).expect("valid arena");
    for &(x, y, r) in bodies {
        assert!(w.spawn(Vec2::new(x, y), Vec2::new(x, y), r));
    }
    w
}

#[test]
fn single_body_gravity_only() {
    // Lengths in thousandths of a pixel, time in microseconds.
    let g: i64 = -900_000;
    let dt: u32 = 16_667;
    let mut w = world_with(arena(0, 0, 10_000_000), Vec2::new(0, g), &[(0, 0, 10_000)]);
    let (mut y, mut py): (i64, i64) = (0, 0);
    let mut last = 0;
    for _ in 0..60 {
        w.tick(dt);
        let v = y - py;
        let damping = -((v as i128 * TIME_SCALE as i128) / (2 * dt as i128)) as i64;
        let a = g + damping;
        let step = ((a as i128 * dt as i128 * dt as i128) / (TIME_SCALE as i128 * TIME_SCALE as i128)) as i64;
        let ny = y + v + step;
        py = y;
        y = ny;
        let b = w.body(0);
        assert_eq!(b.position, Vec2::new(0, y));
        assert_eq!(b.previous_position, Vec2::new(0, py));
        assert!(y < last);
        last = y;
    }
    // Without damping the closed form would be g * dt^2 * n (n + 1) / 2;
    // damping only slows the fall.
    let free_fall = g as f64 * (dt as f64 / 1e6).powi(2) * (60.0 * 61.0 / 2.0);
    assert!((y as f64) > free_fall);
    assert!((y as f64) < free_fall / 2.0);
}

#[test]
fn two_overlapping_bodies_double_visit() {
    // Lengths in thousandths: bodies at (0, 0) and (5, 0), radius 10.
    let mut w = world_with(arena(0, 0, 600_000), Vec2::zero(), &[(0, 0, 10_000), (5_000, 0, 10_000)]);
    w.collisions();
    assert_eq!(w.body(0).position, Vec2::new(-7_500, 0));
    assert_eq!(w.body(1).position, Vec2::new(12_500, 0));
    // The separation grew by the whole overlap of 15.
    assert_eq!(w.body(1).position.x - w.body(0).position.x, 20_000);
}

#[test]
fn body_outside_arena_is_clamped() {
    let mut w = world_with(arena(0, 0, 600), Vec2::zero(), &[(700, 0, 10)]);
    w.constrain_area();
    assert_eq!(w.body(0).position, Vec2::new(590, 0));
    assert_eq!(w.body(0).previous_position, Vec2::new(700, 0));
}

#[test]
fn containment_holds_after_stage() {
    let a = arena(100, -50, 600);
    let mut w = world_with(
        a,
        Vec2::zero(),
        &[(900, 700, 10), (-1_000, 3, 25), (100, -50, 5), (333, 333, 40), (100, -700, 1), (-400, -400, 600)],
    );
    w.constrain_area();
    for i in 0..w.len() {
        let b = w.body(i);
        let dx = (b.position.x - a.center.x) as i128;
        let dy = (b.position.y - a.center.y) as i128;
        let l = (a.radius - b.radius) as i128;
        assert!(dx * dx + dy * dy <= l * l, "body {} outside", i);
    }
    // A body already inside is left alone.
    assert_eq!(w.body(2).position, Vec2::new(100, -50));
    assert_eq!(w.body(3).position, Vec2::new(333, 333));
}

#[test]
fn correction_moves_pair_apart_up_to_contact() {
    let mut bodies = vec![
        Body { position: Vec2::new(0, 0), previous_position: Vec2::new(0, 0), acceleration: Vec2::zero(), radius: 10_000 },
        Body { position: Vec2::new(3_000, 4_000), previous_position: Vec2::new(3_000, 4_000), acceleration: Vec2::zero(), radius: 10_000 },
    ];
    let mut last: i128 = 25_000_000;
    for _ in 0..3 {
        resolve_pair(&mut bodies, 0, 1, 1_000_000);
        let dx = (bodies[0].position.x - bodies[1].position.x) as i128;
        let dy = (bodies[0].position.y - bodies[1].position.y) as i128;
        let d2 = dx * dx + dy * dy;
        assert!(d2 >= last);
        assert!(d2 <= 400_000_000);
        last = d2;
    }
    assert_eq!(bodies[0].position, Vec2::new(-4_500, -6_000));
    assert_eq!(bodies[1].position, Vec2::new(7_500, 10_000));
}

#[test]
fn coincident_bodies_are_left_alone() {
    let mut w = world_with(arena(0, 0, 1_000), Vec2::zero(), &[(5, 5, 10), (5, 5, 10)]);
    w.collisions();
    assert_eq!(w.body(0).position, Vec2::new(5, 5));
    assert_eq!(w.body(1).position, Vec2::new(5, 5));
}

#[test]
fn bodies_in_contact_are_left_alone() {
    let mut w = world_with(arena(0, 0, 1_000), Vec2::zero(), &[(0, 0, 10), (20, 0, 10)]);
    w.collisions();
    assert_eq!(w.body(0).position, Vec2::new(0, 0));
    assert_eq!(w.body(1).position, Vec2::new(20, 0));
}

#[test]
fn tick_clears_acceleration() {
    let mut w = world_with(
        arena(0, 0, 1_000_000),
        Vec2::new(0, -900_000),
        &[(0, 0, 10_000), (5_000, 0, 10_000), (990_000, 0, 10_000)],
    );
    for dt in [16_667u32, 0, 1, 33_333] {
        w.tick(dt);
        for i in 0..w.len() {
            assert_eq!(w.body(i).acceleration, Vec2::zero());
        }
    }
}

#[test]
fn verlet_keeps_velocity_without_forces() {
    let mut w = World::new(arena(0, 0, 1_000_000), Vec2::zero()).unwrap();
    assert!(w.spawn(Vec2::new(100, 200), Vec2::new(90, 215), 5));
    for k in 1..=10i64 {
        w.update_positions(16_667);
        let b = w.body(0);
        assert_eq!(b.position.x - b.previous_position.x, 10);
        assert_eq!(b.position.y - b.previous_position.y, -15);
        assert_eq!(b.position, Vec2::new(100 + 10 * k, 200 - 15 * k));
    }
}

#[test]
fn integration_adds_acceleration_times_dt_squared() {
    let b = Body {
        position: Vec2::new(1_000, 1_000),
        previous_position: Vec2::new(1_000, 990),
        acceleration: Vec2::new(-900_000, 2_000_000),
        radius: 1,
    };
    let n = b.integrate(16_667);
    // -900000 * 16667^2 / 10^12 = -250.00..., 2000000 * 16667^2 / 10^12 = 555.57...
    assert_eq!(n.position, Vec2::new(1_000 - 250, 1_000 + 10 + 555));
    assert_eq!(n.previous_position, Vec2::new(1_000, 1_000));
    assert_eq!(n.acceleration, Vec2::zero());
}

#[test]
fn damping_opposes_velocity() {
    let b = Body {
        position: Vec2::new(100, -50),
        previous_position: Vec2::new(0, 0),
        acceleration: Vec2::new(7, 7),
        radius: 1,
    };
    let d = b.damp(1_000);
    // velocity (100, -50) per millisecond = (100000, -50000) per second, times -1/2
    assert_eq!(d.acceleration, Vec2::new(7 - 50_000, 7 + 25_000));
    assert_eq!(d.position, b.position);
}

#[test]
fn damping_skipped_when_no_time_passes() {
    let mut w = World::new(arena(0, 0, 1_000), Vec2::zero()).unwrap();
    assert!(w.spawn(Vec2::new(10, 0), Vec2::new(0, 0), 1));
    w.dampen_velocity(0);
    assert_eq!(w.body(0).acceleration, Vec2::zero());
    w.dampen_velocity(1_000_000);
    assert_eq!(w.body(0).acceleration, Vec2::new(-5, 0));
}

#[test]
fn gravity_accumulates() {
    let mut w = world_with(arena(0, 0, 1_000), Vec2::new(3, -9), &[(0, 0, 1), (1, 1, 1)]);
    w.apply_gravity();
    w.apply_gravity();
    assert_eq!(w.body(0).acceleration, Vec2::new(6, -18));
    assert_eq!(w.body(1).acceleration, Vec2::new(6, -18));
    assert_eq!(w.body(1).position, Vec2::new(1, 1));
}

#[test]
fn world_rejects_bad_configuration() {
    assert!(World::new(arena(0, 0, 0), Vec2::zero()).is_none());
    assert!(World::new(arena(0, 0, -5), Vec2::zero()).is_none());
    assert!(World::new(arena(1 << 40, 0, 1), Vec2::zero()).is_none());
    assert!(World::new(arena(0, 0, 10), Vec2::new(0, i64::MIN)).is_none());
    assert!(World::new(arena(0, 0, 10), Vec2::new(0, -900)).is_some());
}

#[test]
fn spawn_rejects_bad_radius() {
    let mut w = World::new(arena(0, 0, 100), Vec2::zero()).unwrap();
    assert!(!w.spawn(Vec2::new(0, 0), Vec2::new(0, 0), 0));
    assert!(!w.spawn(Vec2::new(0, 0), Vec2::new(0, 0), 101));
    assert!(!w.spawn(Vec2::new(i64::MAX, 0), Vec2::new(0, 0), 1));
    assert_eq!(w.len(), 0);
    assert!(w.spawn(Vec2::new(1, 2), Vec2::new(3, 4), 100));
    assert_eq!(w.len(), 1);
    assert_eq!(w.body(0).radius, 100);
}

#[test]
fn integer_helpers() {
    assert_eq!(ceil_sqrt(0), 0);
    assert_eq!(ceil_sqrt(1), 1);
    assert_eq!(ceil_sqrt(2), 2);
    assert_eq!(ceil_sqrt(25), 5);
    assert_eq!(ceil_sqrt(26), 6);
    assert_eq!(ceil_sqrt(490_000), 700);
    assert_eq!(trunc_div(-75, 10), -7);
    assert_eq!(trunc_div(75, 10), 7);
    assert_eq!(trunc_div(i128::MIN, 3), i128::MIN / 3);
    assert_eq!(clamp_to(5, 3), 3);
    assert_eq!(clamp_to(-5, 3), -3);
    assert_eq!(clamp_to(2, 3), 2);
}
