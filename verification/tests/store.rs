use gravity_sim::body::{KinematicBody, Vec2};
use gravity_sim::entities::{create_body, create_preview, new_body, new_preview};
use gravity_sim::error::SimError;
use gravity_sim::fixed::{from_int, LIMIT, ONE};
use gravity_sim::store::BodyStore;

fn body_at(x: i64, y: i64) -> KinematicBody {
    KinematicBody::new(Vec2::new(from_int(x), from_int(y)), Vec2::zero(), ONE, ONE)
}

#[test]
fn new_store_is_empty() {
    let store = BodyStore::new();
    assert_eq!(store.len(), 0);
    assert_eq!(store.next_handle(), 0);
    assert!(store.snapshot().is_empty());
}

#[test]
fn spawn_gives_fresh_handles_in_order() {
    let mut store = BodyStore::new();
    assert_eq!(store.spawn(body_at(1, 1)), Ok(0));
    assert_eq!(store.spawn_preview(body_at(2, 2)), Ok(1));
    assert_eq!(store.spawn(body_at(3, 3)), Ok(2));
    assert_eq!(store.len(), 3);
    assert_eq!(store.entry(0).handle, 0);
    assert!(!store.entry(0).preview);
    assert!(store.entry(1).preview);
    assert_eq!(store.entry(2).body, body_at(3, 3));
}

#[test]
fn spawn_rejects_mass_that_is_not_positive() {
    let mut store = BodyStore::new();
    let mut body = body_at(0, 0);
    body.mass = 0;
    assert_eq!(store.spawn(body), Err(SimError::InvalidBodyParameters));
    body.mass = -ONE;
    assert_eq!(store.spawn(body), Err(SimError::InvalidBodyParameters));
    assert_eq!(store.len(), 0);
    assert_eq!(store.next_handle(), 0);
}

#[test]
fn spawn_rejects_radius_that_is_not_positive() {
    let mut store = BodyStore::new();
    let mut body = body_at(0, 0);
    body.radius = 0;
    assert_eq!(store.spawn(body), Err(SimError::InvalidBodyParameters));
    assert_eq!(store.spawn_preview(body), Err(SimError::InvalidBodyParameters));
    body.radius = -1;
    assert_eq!(store.spawn(body), Err(SimError::InvalidBodyParameters));
    assert_eq!(store.len(), 0);
}

#[test]
fn spawn_clamps_scalars_out_of_range() {
    let mut store = BodyStore::new();
    let body = KinematicBody {
        pos: Vec2::new(i64::MAX, i64::MIN),
        vel: Vec2::new(7, i64::MAX),
        accel: Vec2::zero(),
        force: Vec2::zero(),
        mass: i64::MAX,
        radius: 3,
    };
    assert_eq!(store.spawn(body), Ok(0));
    let stored = store.entry(0).body;
    assert_eq!(stored.pos, Vec2::new(LIMIT, -LIMIT));
    assert_eq!(stored.vel, Vec2::new(7, LIMIT));
    assert_eq!(stored.mass, LIMIT);
    assert_eq!(stored.radius, 3);
}

#[test]
fn stale_handle_is_not_found() {
    let mut store = BodyStore::new();
    let h = store.spawn(body_at(1, 1)).unwrap();
    assert_eq!(store.find(h), Some(0));
    assert!(store.get(h).is_ok());
    assert_eq!(store.despawn(h).map(|e| e.handle), Ok(h));
    assert_eq!(store.find(h), None);
    assert_eq!(store.get(h), Err(SimError::StaleHandle));
    assert_eq!(store.despawn(h), Err(SimError::StaleHandle));
    assert_eq!(store.replace(h, body_at(2, 2)), Err(SimError::StaleHandle));
    assert_eq!(store.get(99), Err(SimError::StaleHandle));
}

#[test]
fn handles_are_never_given_out_twice() {
    let mut store = BodyStore::new();
    let a = store.spawn(body_at(1, 1)).unwrap();
    let b = store.spawn(body_at(2, 2)).unwrap();
    store.despawn(a).unwrap();
    store.despawn(b).unwrap();
    let c = store.spawn(body_at(3, 3)).unwrap();
    assert!(c != a && c != b);
    assert_eq!(c, 2);
}

#[test]
fn replace_changes_the_state_and_keeps_the_handle() {
    let mut store = BodyStore::new();
    let a = store.spawn(body_at(1, 1)).unwrap();
    let b = store.spawn_preview(body_at(2, 2)).unwrap();
    assert_eq!(store.replace(b, body_at(5, 6)), Ok(()));
    assert_eq!(store.get(b).unwrap().body, body_at(5, 6));
    assert!(store.get(b).unwrap().preview);
    assert_eq!(store.get(a).unwrap().body, body_at(1, 1));
}

#[test]
fn replace_rejects_invalid_bodies() {
    let mut store = BodyStore::new();
    let a = store.spawn(body_at(1, 1)).unwrap();
    let mut bad = body_at(4, 4);
    bad.mass = 0;
    assert_eq!(store.replace(a, bad), Err(SimError::InvalidBodyParameters));
    assert_eq!(store.get(a).unwrap().body, body_at(1, 1));
    assert_eq!(store.replace(77, bad), Err(SimError::StaleHandle));
}

#[test]
fn set_body_and_remove_at_work_by_position() {
    let mut store = BodyStore::new();
    store.spawn(body_at(1, 1)).unwrap();
    store.spawn(body_at(2, 2)).unwrap();
    store.spawn(body_at(3, 3)).unwrap();
    store.set_body(1, body_at(9, 9));
    assert_eq!(store.entry(1).body, body_at(9, 9));
    assert_eq!(store.entry(1).handle, 1);
    let removed = store.remove_at(0);
    assert_eq!(removed.handle, 0);
    assert_eq!(store.len(), 2);
    assert_eq!(store.entry(0).handle, 1);
    assert_eq!(store.entry(1).handle, 2);
}

#[test]
fn remove_marked_keeps_the_order_of_the_rest() {
    let mut store = BodyStore::new();
    for k in 0..5 {
        store.spawn(body_at(k, k)).unwrap();
    }
    store.remove_marked(&vec![true, false, true, false, false]);
    let handles: Vec<u64> = store.snapshot().iter().map(|e| e.handle).collect();
    assert_eq!(handles, vec![1, 3, 4]);
}

#[test]
fn clear_previews_deletes_previews_only() {
    let mut store = BodyStore::new();
    store.spawn_preview(body_at(0, 0)).unwrap();
    store.spawn(body_at(1, 1)).unwrap();
    store.spawn_preview(body_at(2, 2)).unwrap();
    store.spawn(body_at(3, 3)).unwrap();
    store.clear_previews();
    let handles: Vec<u64> = store.snapshot().iter().map(|e| e.handle).collect();
    assert_eq!(handles, vec![1, 3]);
    assert!(store.snapshot().iter().all(|e| !e.preview));
}

#[test]
fn error_messages() {
    assert_eq!(SimError::InvalidBodyParameters.message(), "mass and radius must be positive");
    assert_eq!(SimError::StaleHandle.message(), "no body has this handle");
    assert_eq!(SimError::HandlesExhausted.message(), "no handle is left");
}

#[test]
fn body_validity() {
    let mut body = body_at(0, 0);
    assert!(body.is_valid());
    body.radius = 0;
    assert!(!body.is_valid());
    body.radius = 1;
    body.mass = -1;
    assert!(!body.is_valid());
    assert_eq!(body_at(1, 2).clamped(), body_at(1, 2));
    assert_eq!(Vec2::new(i64::MIN, 5).clamped(), Vec2::new(-LIMIT, 5));
}

#[test]
fn the_last_handle_is_never_given_out() {
    let mut store = BodyStore::starting_at(u64::MAX - 1);
    assert_eq!(store.next_handle(), u64::MAX - 1);
    assert_eq!(store.spawn(body_at(1, 1)), Ok(u64::MAX - 1));
    assert_eq!(store.spawn(body_at(2, 2)), Err(SimError::HandlesExhausted));
    assert_eq!(store.spawn_preview(body_at(2, 2)), Err(SimError::HandlesExhausted));
    assert_eq!(store.len(), 1);
    let mut bad = body_at(3, 3);
    bad.mass = 0;
    assert_eq!(store.spawn(bad), Err(SimError::InvalidBodyParameters));
}

#[test]
fn bodies_are_made_and_placed() {
    let mut store = BodyStore::new();
    let pos = Vec2::new(from_int(3), from_int(4));
    let vel = Vec2::new(ONE, -ONE);
    let body = new_body(pos, vel, from_int(2), from_int(5));
    assert_eq!(body, KinematicBody::new(pos, vel, from_int(2), from_int(5)));
    assert_eq!(body.accel, Vec2::zero());
    assert_eq!(body.force, Vec2::zero());
    let ghost = new_preview(pos, vel, from_int(5));
    assert_eq!(ghost.mass, ONE);
    assert_eq!(ghost.radius, from_int(5));
    assert_eq!(create_body(&mut store, body), Ok(0));
    assert_eq!(create_preview(&mut store, ghost), Ok(1));
    assert!(!store.entry(0).preview);
    assert!(store.entry(1).preview);
    assert_eq!(store.entry(1).body, ghost);
    let flat = new_body(pos, vel, from_int(2), 0);
    assert_eq!(create_body(&mut store, flat), Err(SimError::InvalidBodyParameters));
    assert_eq!(create_preview(&mut store, flat), Err(SimError::InvalidBodyParameters));
    assert_eq!(store.len(), 2);
}
