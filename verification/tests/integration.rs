use gravity_sim::body::{KinematicBody, Vec2};
use gravity_sim::fixed::{from_int, from_ratio, LIMIT, ONE};
use gravity_sim::integration::{integrate, integration_sys, preview_integration_sys};
use gravity_sim::resources::{Paused, PhysicsToggles, DT};
use gravity_sim::store::BodyStore;

fn all_on() -> PhysicsToggles {
    PhysicsToggles { collisions: true, integration: true }
}

fn pushed_body() -> KinematicBody {
    KinematicBody {
        pos: Vec2::new(ONE, -2 * ONE),
        vel: Vec2::new(from_ratio(1, 2), from_ratio(-1, 4)),
        accel: Vec2::new(from_ratio(1, 8), from_ratio(-3, 8)),
        force: Vec2::new(2 * ONE, -ONE),
        mass: 4 * ONE,
        radius: ONE,
    }
}

#[test]
fn one_step_of_velocity_verlet() {
    // a = F / m = (0.5, -0.25); v' = v + (a + a_old) / 2 * dt; x' = x + v' dt + a / 2 * dt^2
    let after = integrate(pushed_body(), from_ratio(1, 2));
    assert_eq!(after.accel, Vec2::new(8_388_608, -4_194_304));
    assert_eq!(after.vel, Vec2::new(11_010_048, -6_815_744));
    assert_eq!(after.pos, Vec2::new(23_330_816, -37_486_592));
    assert_eq!(after.force, Vec2::zero());
    assert_eq!(after.mass, 4 * ONE);
    assert_eq!(after.radius, ONE);
}

#[test]
fn one_step_with_rounding() {
    let body = KinematicBody {
        pos: Vec2::new(ONE, -2 * ONE),
        vel: Vec2::new(from_ratio(1, 2), from_ratio(-1, 4)),
        accel: Vec2::new(from_ratio(1, 7), from_ratio(-3, 7)),
        force: Vec2::new(from_ratio(2, 3), -ONE),
        mass: 3 * ONE,
        radius: ONE,
    };
    let after = integrate(body, from_ratio(1, 3));
    assert_eq!(after.accel, Vec2::new(3_728_270, -5_592_405));
    assert_eq!(after.vel, Vec2::new(9_409_443, -6_324_743));
    assert_eq!(after.pos, Vec2::new(20_120_821, -35_973_367));
}

#[test]
fn equal_inputs_give_equal_outputs() {
    let first = integrate(pushed_body(), ONE);
    let second = integrate(pushed_body(), ONE);
    assert_eq!(first, second);
    let mut resting = pushed_body();
    resting.force = Vec2::zero();
    assert_eq!(integrate(resting, ONE), integrate(resting, ONE));
}

#[test]
fn a_body_without_force_moves_in_a_straight_line() {
    let body = KinematicBody::new(Vec2::zero(), Vec2::new(from_int(3), from_int(-1)), ONE, ONE);
    let after = integrate(body, ONE);
    assert_eq!(after.pos, Vec2::new(from_int(3), from_int(-1)));
    assert_eq!(after.vel, body.vel);
    assert_eq!(after.accel, Vec2::zero());
    let later = integrate(after, from_int(2));
    assert_eq!(later.pos, Vec2::new(from_int(9), from_int(-3)));
}

#[test]
fn positions_saturate_at_the_limit() {
    let body = KinematicBody::new(Vec2::new(LIMIT, -LIMIT), Vec2::new(LIMIT, -LIMIT), ONE, ONE);
    let after = integrate(body, from_int(1000));
    assert_eq!(after.pos, Vec2::new(LIMIT, -LIMIT));
    assert_eq!(after.vel, Vec2::new(LIMIT, -LIMIT));
}

#[test]
fn the_force_is_consumed_by_the_step() {
    let mut store = BodyStore::new();
    store.spawn(pushed_body()).unwrap();
    integration_sys(&mut store, DT(ONE), all_on(), Paused(false));
    assert_eq!(store.entry(0).body.force, Vec2::zero());
    assert_eq!(store.entry(0).body, integrate(pushed_body(), ONE));
}

#[test]
fn integration_sys_skips_previews() {
    let mut store = BodyStore::new();
    store.spawn(pushed_body()).unwrap();
    store.spawn_preview(pushed_body()).unwrap();
    integration_sys(&mut store, DT(ONE), all_on(), Paused(false));
    assert_eq!(store.entry(0).body, integrate(pushed_body(), ONE));
    assert_eq!(store.entry(1).body, pushed_body());
}

#[test]
fn preview_integration_sys_moves_previews_only() {
    let mut store = BodyStore::new();
    store.spawn(pushed_body()).unwrap();
    store.spawn_preview(pushed_body()).unwrap();
    preview_integration_sys(&mut store, DT(from_ratio(1, 2)), all_on(), Paused(false));
    assert_eq!(store.entry(0).body, pushed_body());
    assert_eq!(store.entry(1).body, integrate(pushed_body(), from_ratio(1, 2)));
    assert!(store.entry(1).preview);
}

#[test]
fn integration_is_off_when_paused_or_switched_off() {
    let mut store = BodyStore::new();
    store.spawn(pushed_body()).unwrap();
    store.spawn_preview(pushed_body()).unwrap();
    let before = store.snapshot();
    integration_sys(&mut store, DT(ONE), all_on(), Paused(true));
    assert_eq!(store.snapshot(), before);
    let off = PhysicsToggles { collisions: true, integration: false };
    integration_sys(&mut store, DT(ONE), off, Paused(false));
    assert_eq!(store.snapshot(), before);
    preview_integration_sys(&mut store, DT(ONE), off, Paused(false));
    assert_eq!(store.snapshot(), before);
    preview_integration_sys(&mut store, DT(ONE), all_on(), Paused(true));
    assert_eq!(store.snapshot(), before);
}

#[test]
fn a_body_without_mass_does_not_stop_the_integrator() {
    let mut body = KinematicBody::new(Vec2::zero(), Vec2::zero(), 0, ONE);
    body.force = Vec2::new(ONE, 0);
    let after = integrate(body, ONE);
    assert_eq!(after.accel, Vec2::new(LIMIT, 0));
    assert_eq!(after.vel, Vec2::new(2_305_843_009_213_693_951, 0));
    assert_eq!(after.pos, Vec2::new(4_611_686_018_427_387_902, 0));
    assert_eq!(after.force, Vec2::zero());
    let resting = KinematicBody::new(Vec2::zero(), Vec2::new(ONE, ONE), 0, ONE);
    assert_eq!(integrate(resting, ONE).pos, Vec2::new(ONE, ONE));
}
