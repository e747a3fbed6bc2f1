use gravity_sim::body::{KinematicBody, Vec2};
use gravity_sim::fixed::{from_int, from_ratio, LIMIT, ONE};
use gravity_sim::gravity::{dist_squared, gravity_sys, net_force, pair_force, preview_gravity_sys};
use gravity_sim::resources::{Paused, G};
use gravity_sim::store::BodyStore;

fn still_body(x: i64, y: i64, mass: i64) -> KinematicBody {
    KinematicBody::new(Vec2::new(from_int(x), from_int(y)), Vec2::zero(), from_int(mass), ONE)
}

fn forces(store: &BodyStore) -> Vec<Vec2> {
    store.snapshot().iter().map(|e| e.body.force).collect()
}

#[test]
fn squared_distance() {
    let p = Vec2::new(from_int(0), from_int(0));
    let q = Vec2::new(from_int(3), from_int(4));
    assert_eq!(dist_squared(p, q), 25 * (ONE as i128) * (ONE as i128));
    assert_eq!(dist_squared(q, p), dist_squared(p, q));
    assert_eq!(dist_squared(q, q), 0);
    let far = Vec2::new(LIMIT, LIMIT);
    let near = Vec2::new(-LIMIT, -LIMIT);
    assert_eq!(dist_squared(far, near), 2 * (2 * LIMIT as i128) * (2 * LIMIT as i128));
}

#[test]
fn pull_between_two_bodies_follows_the_inverse_square_law() {
    // G m1 m2 / d^2 = 100 * 2 * 3 / 25 = 24, along (3, 4) / 5.
    let f = pair_force(
        from_int(100),
        Vec2::new(0, 0),
        from_int(2),
        Vec2::new(from_int(3), from_int(4)),
        from_int(3),
    );
    assert_eq!(f, Vec2::new(241_591_910, 322_122_547));
}

#[test]
fn pulls_on_two_bodies_are_equal_and_opposite() {
    let p = Vec2::new(from_ratio(1, 3), from_ratio(-7, 5));
    let q = Vec2::new(from_ratio(-22, 7), from_ratio(9, 4));
    let m1 = from_ratio(123, 10);
    let m2 = from_ratio(7, 100);
    let on_first = pair_force(from_int(100), p, m1, q, m2);
    let on_second = pair_force(from_int(100), q, m2, p, m1);
    assert_eq!(on_first, Vec2::new(-39_211_355, 41_171_923));
    assert_eq!(on_second, Vec2::new(39_211_355, -41_171_923));
}

#[test]
fn bodies_at_the_same_point_do_not_pull() {
    let p = Vec2::new(from_int(5), from_int(-5));
    assert_eq!(pair_force(from_int(100), p, ONE, p, ONE), Vec2::zero());
}

#[test]
fn gravity_sys_sums_the_pulls_of_all_other_bodies() {
    let mut store = BodyStore::new();
    store.spawn(still_body(0, 0, 2)).unwrap();
    store.spawn(still_body(3, 4, 3)).unwrap();
    store.spawn(still_body(-6, 8, 5)).unwrap();
    gravity_sys(&mut store, G(from_int(100)), Paused(false));
    assert_eq!(
        forces(&store),
        vec![
            Vec2::new(140_928_614, 456_340_275),
            Vec2::new(-478_672_535, -216_753_381),
            Vec2::new(337_743_921, -239_586_894),
        ]
    );
}

#[test]
fn gravity_sys_changes_nothing_but_the_force() {
    let mut store = BodyStore::new();
    store.spawn(still_body(0, 0, 2)).unwrap();
    store.spawn(still_body(3, 4, 3)).unwrap();
    let before = store.snapshot();
    gravity_sys(&mut store, G(from_int(100)), Paused(false));
    let after = store.snapshot();
    for (b, a) in before.iter().zip(after.iter()) {
        assert_eq!(b.handle, a.handle);
        assert_eq!(b.preview, a.preview);
        assert_eq!(b.body.pos, a.body.pos);
        assert_eq!(b.body.vel, a.body.vel);
        assert_eq!(b.body.accel, a.body.accel);
        assert_eq!(b.body.mass, a.body.mass);
        assert_eq!(b.body.radius, a.body.radius);
        assert_ne!(b.body.force, a.body.force);
    }
}

#[test]
fn gravity_sys_adds_to_the_force_already_there() {
    let mut store = BodyStore::new();
    let mut seeded = still_body(0, 0, 2);
    seeded.force = Vec2::new(ONE, -ONE);
    store.spawn(seeded).unwrap();
    store.spawn(still_body(3, 4, 3)).unwrap();
    gravity_sys(&mut store, G(from_int(100)), Paused(false));
    assert_eq!(
        forces(&store),
        vec![Vec2::new(258_369_126, 305_345_331), Vec2::new(-241_591_910, -322_122_547)]
    );
}

#[test]
fn gravity_sys_does_nothing_when_paused() {
    let mut store = BodyStore::new();
    store.spawn(still_body(0, 0, 2)).unwrap();
    store.spawn(still_body(3, 4, 3)).unwrap();
    let before = store.snapshot();
    gravity_sys(&mut store, G(from_int(100)), Paused(true));
    assert_eq!(store.snapshot(), before);
}

#[test]
fn two_isolated_bodies_feel_opposite_forces() {
    let mut store = BodyStore::new();
    store.spawn(still_body(0, 0, 2)).unwrap();
    store.spawn(still_body(-6, 8, 5)).unwrap();
    gravity_sys(&mut store, G(from_int(100)), Paused(false));
    let f = forces(&store);
    assert_eq!(f[0], Vec2::new(-100_663_296, 134_217_728));
    assert_eq!(f[1], Vec2::new(-f[0].x, -f[0].y));
}

#[test]
fn previews_pull_at_nothing() {
    let mut store = BodyStore::new();
    store.spawn(still_body(0, 0, 2)).unwrap();
    store.spawn_preview(still_body(3, 4, 3)).unwrap();
    store.spawn(still_body(-6, 8, 5)).unwrap();
    gravity_sys(&mut store, G(from_int(100)), Paused(false));
    assert_eq!(
        forces(&store),
        vec![
            Vec2::new(-100_663_296, 134_217_728),
            Vec2::zero(),
            Vec2::new(100_663_296, -134_217_728),
        ]
    );
}

#[test]
fn previews_are_pulled_by_the_bodies() {
    let mut store = BodyStore::new();
    store.spawn(still_body(0, 0, 2)).unwrap();
    store.spawn_preview(still_body(3, 4, 3)).unwrap();
    store.spawn(still_body(-6, 8, 5)).unwrap();
    preview_gravity_sys(&mut store, G(from_int(100)));
    assert_eq!(
        forces(&store),
        vec![Vec2::zero(), Vec2::new(-478_672_535, -216_753_381), Vec2::zero()]
    );
}

#[test]
fn previews_do_not_pull_at_each_other() {
    let mut store = BodyStore::new();
    store.spawn_preview(still_body(0, 0, 2)).unwrap();
    store.spawn_preview(still_body(3, 4, 3)).unwrap();
    preview_gravity_sys(&mut store, G(from_int(100)));
    assert_eq!(forces(&store), vec![Vec2::zero(), Vec2::zero()]);
}

#[test]
fn net_force_is_the_sum_before_clamping() {
    let mut store = BodyStore::new();
    store.spawn(still_body(0, 0, 2)).unwrap();
    store.spawn(still_body(3, 4, 3)).unwrap();
    store.spawn(still_body(-6, 8, 5)).unwrap();
    let bodies = store.snapshot();
    assert_eq!(net_force(from_int(100), &bodies, 0), (140_928_614, 456_340_275));
    assert_eq!(net_force(from_int(100), &bodies, 1), (-478_672_535, -216_753_381));
}

#[test]
fn a_negative_constant_pushes_bodies_apart() {
    let pull = pair_force(from_int(100), Vec2::new(0, 0), ONE, Vec2::new(from_int(2), 0), ONE);
    let push = pair_force(from_int(-100), Vec2::new(0, 0), ONE, Vec2::new(from_int(2), 0), ONE);
    assert_eq!(pull, Vec2::new(from_int(25), 0));
    assert_eq!(push, Vec2::new(from_int(-25), 0));
}
