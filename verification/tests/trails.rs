use gravity_sim::body::{KinematicBody, Vec2};
use gravity_sim::fixed::{from_int, LIMIT, ONE};
use gravity_sim::store::BodyStore;
use gravity_sim::trails::{
    relative_offset, relative_to, PreviewTrailTick, RelativeTrails, Trail, MULTI_PREVIEW_TRAIL_LEN,
    PREVIEW_TRAIL_LEN, TRAIL_LEN,
};

fn place(k: i64) -> Vec2 {
    Vec2::new(from_int(k), from_int(-k))
}

fn places(trail: &Trail) -> Vec<Vec2> {
    trail.points.iter().copied().collect()
}

#[test]
fn a_trail_starts_empty() {
    let trail = Trail::default();
    assert!(trail.points.is_empty());
    assert_eq!(trail.max_len, TRAIL_LEN);
    assert_eq!(trail.max_len, 125);
    assert_eq!(Trail::preview(false).max_len, PREVIEW_TRAIL_LEN);
    assert_eq!(Trail::preview(true).max_len, MULTI_PREVIEW_TRAIL_LEN);
    assert_eq!(Trail::new(3).max_len, 3);
}

#[test]
fn a_trail_keeps_the_latest_places() {
    let mut trail = Trail::new(3);
    trail.push(place(1));
    trail.push(place(2));
    assert_eq!(places(&trail), vec![place(1), place(2)]);
    assert!(!trail.is_full());
    trail.push(place(3));
    assert!(trail.is_full());
    trail.push(place(4));
    trail.push(place(5));
    assert_eq!(places(&trail), vec![place(3), place(4), place(5)]);
    trail.clear();
    assert!(trail.points.is_empty());
    assert_eq!(trail.max_len, 3);
}

#[test]
fn a_trail_that_was_made_shorter_forgets_at_once() {
    let mut trail = Trail::new(5);
    for k in 0..5 {
        trail.push(place(k));
    }
    trail.max_len = 2;
    trail.push(place(9));
    assert_eq!(places(&trail), vec![place(4), place(9)]);
    let mut none = Trail::new(0);
    none.push(place(1));
    assert!(none.points.is_empty());
}

#[test]
fn a_full_forecast_trail_stays_as_it_is() {
    let mut trail = Trail::new(2);
    trail.push_preview(place(1));
    trail.push_preview(place(2));
    trail.push_preview(place(3));
    assert_eq!(places(&trail), vec![place(1), place(2)]);
}

#[test]
fn every_tenth_step_of_a_forecast_gives_a_point() {
    let mut tick = PreviewTrailTick::new();
    assert_eq!(tick, PreviewTrailTick { current_tick: 0, tick_increment: 10 });
    let due: Vec<bool> = (0..20).map(|_| tick.advance()).collect();
    let expected: Vec<bool> = (1..=20).map(|k| k % 10 == 0).collect();
    assert_eq!(due, expected);
    let mut wide = PreviewTrailTick { current_tick: 254, tick_increment: 255 };
    assert!(wide.advance());
    assert_eq!(wide.current_tick, 0);
    let mut none = PreviewTrailTick { current_tick: 7, tick_increment: 0 };
    assert!(none.advance());
    assert_eq!(none.current_tick, 0);
}

#[test]
fn trails_are_measured_from_the_relative_body() {
    let mut store = BodyStore::new();
    let sun = KinematicBody::new(place(7), Vec2::zero(), ONE, ONE);
    let h = store.spawn(sun).unwrap();
    let mut relative = RelativeTrails(Some(h));
    assert_eq!(relative_offset(&store, &mut relative), place(7));
    assert_eq!(relative, RelativeTrails(Some(h)));
    assert_eq!(relative_to(place(10), place(7)), place(3));
    let mut nothing = RelativeTrails(None);
    assert_eq!(relative_offset(&store, &mut nothing), Vec2::zero());
    assert_eq!(nothing, RelativeTrails(None));
}

#[test]
fn a_relative_body_that_is_gone_is_forgotten() {
    let mut store = BodyStore::new();
    let h = store.spawn(KinematicBody::new(place(7), Vec2::zero(), ONE, ONE)).unwrap();
    store.despawn(h).unwrap();
    let mut relative = RelativeTrails(Some(h));
    assert_eq!(relative_offset(&store, &mut relative), Vec2::zero());
    assert_eq!(relative, RelativeTrails(None));
}

#[test]
fn relative_places_saturate() {
    assert_eq!(
        relative_to(Vec2::new(LIMIT, -LIMIT), Vec2::new(-LIMIT, LIMIT)),
        Vec2::new(LIMIT, -LIMIT)
    );
}
