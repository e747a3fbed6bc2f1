use gravity_sim::body::{KinematicBody, Vec2};
use gravity_sim::body_creation::CreationState;
use gravity_sim::camera::{
    calc_offset, camera_follow_sys, update_camera_sys, CameraKeys, CameraRes, FollowBody,
    CAMERA_SPEED,
};
use gravity_sim::fixed::{from_int, from_ratio, LIMIT, ONE};
use gravity_sim::inspect::{inspect_body_sys, pick, InspectInput};
use gravity_sim::resources::InspectedEntity;
use gravity_sim::store::BodyStore;

fn view() -> CameraRes {
    CameraRes {
        target: Vec2::new(from_int(100), from_int(50)),
        screen_size: Vec2::new(from_int(40), from_int(20)),
    }
}

fn world() -> BodyStore {
    let mut store = BodyStore::new();
    let at = |x: i64, y: i64, r: i64| {
        KinematicBody::new(Vec2::new(from_int(x), from_int(y)), Vec2::zero(), ONE, from_int(r))
    };
    store.spawn(at(0, 0, 10)).unwrap();
    store.spawn(at(100, 0, 10)).unwrap();
    store.spawn(at(5, 0, 30)).unwrap();
    store
}

fn press_at(x: i64, y: i64) -> InspectInput {
    InspectInput {
        pressed: true,
        over_panel: false,
        cancel_key: false,
        pointer: Vec2::new(from_int(x), from_int(y)),
    }
}

#[test]
fn the_camera_sees_what_lies_within_half_its_size() {
    let camera = view();
    assert!(camera.contains_point(&Vec2::new(from_int(100), from_int(50))));
    assert!(camera.contains_point(&Vec2::new(from_int(80), from_int(40))));
    assert!(!camera.contains_point(&Vec2::new(from_int(120), from_int(50))));
    assert!(!camera.contains_point(&Vec2::new(from_int(100), from_int(60))));
    assert!(camera.contains_point(&Vec2::new(from_int(120) - 1, from_int(60) - 1)));
    assert!(!camera.contains_point(&Vec2::new(from_int(80) - 1, from_int(50))));
}

#[test]
fn keys_move_the_camera() {
    assert_eq!(CAMERA_SPEED, from_ratio(3, 2));
    let none = CameraKeys { up: false, down: false, left: false, right: false };
    assert_eq!(calc_offset(&none), Vec2::zero());
    let up_left = CameraKeys { up: true, down: false, left: true, right: false };
    assert_eq!(calc_offset(&up_left), Vec2::new(-CAMERA_SPEED, -CAMERA_SPEED));
    let down_right = CameraKeys { up: false, down: true, left: false, right: true };
    assert_eq!(calc_offset(&down_right), Vec2::new(CAMERA_SPEED, CAMERA_SPEED));
    let all = CameraKeys { up: true, down: true, left: true, right: true };
    assert_eq!(calc_offset(&all), Vec2::zero());
    let mut camera = view();
    update_camera_sys(&mut camera, calc_offset(&down_right));
    assert_eq!(camera.target, Vec2::new(from_int(100) + CAMERA_SPEED, from_int(50) + CAMERA_SPEED));
    assert_eq!(camera.screen_size, view().screen_size);
    camera.target = Vec2::new(LIMIT, -LIMIT);
    update_camera_sys(&mut camera, Vec2::new(ONE, -ONE));
    assert_eq!(camera.target, Vec2::new(LIMIT, -LIMIT));
}

#[test]
fn the_camera_follows_a_body() {
    let store = world();
    let mut camera = view();
    let mut followed = FollowBody(Some(1));
    camera_follow_sys(&mut camera, &mut followed, &store);
    assert_eq!(camera.target, Vec2::new(from_int(100), 0));
    assert_eq!(followed, FollowBody(Some(1)));
    let mut nobody = FollowBody(None);
    let mut camera = view();
    camera_follow_sys(&mut camera, &mut nobody, &store);
    assert_eq!(camera, view());
}

#[test]
fn the_camera_lets_go_of_a_body_that_is_gone() {
    let mut store = world();
    store.despawn(1).unwrap();
    let mut camera = view();
    let mut followed = FollowBody(Some(1));
    camera_follow_sys(&mut camera, &mut followed, &store);
    assert_eq!(camera, view());
    assert_eq!(followed, FollowBody(None));
}

#[test]
fn the_pointer_picks_the_first_body_it_is_on() {
    let store = world();
    assert_eq!(pick(&store, Vec2::new(from_int(3), from_int(3))), Some(0));
    assert_eq!(pick(&store, Vec2::new(from_int(20), 0)), Some(2));
    assert_eq!(pick(&store, Vec2::new(from_int(100), from_int(9))), Some(1));
    assert_eq!(pick(&store, Vec2::new(from_int(60), from_int(60))), None);
    // a near miss still picks: 12^2 < 10^2 + 50, 13^2 > 10^2 + 50
    assert_eq!(pick(&store, Vec2::new(from_int(112), 0)), Some(1));
    assert_eq!(pick(&store, Vec2::new(from_int(113), 0)), None);
}

#[test]
fn a_press_picks_a_body_to_inspect() {
    let store = world();
    let mut inspected = InspectedEntity(None);
    inspect_body_sys(&mut inspected, &store, &CreationState::Unstarted, &press_at(100, 0));
    assert_eq!(inspected, InspectedEntity(Some(1)));
    // a press elsewhere ends the inspection
    inspect_body_sys(&mut inspected, &store, &CreationState::Unstarted, &press_at(0, 0));
    assert_eq!(inspected, InspectedEntity(None));
    inspect_body_sys(&mut inspected, &store, &CreationState::Unstarted, &press_at(0, 0));
    assert_eq!(inspected, InspectedEntity(Some(0)));
}

#[test]
fn nothing_is_picked_while_a_body_is_placed() {
    let store = world();
    let mut inspected = InspectedEntity(None);
    inspect_body_sys(&mut inspected, &store, &CreationState::Initiated, &press_at(100, 0));
    assert_eq!(inspected, InspectedEntity(None));
    let mut inspected = InspectedEntity(Some(2));
    inspect_body_sys(&mut inspected, &store, &CreationState::Initiated, &press_at(100, 0));
    assert_eq!(inspected, InspectedEntity(Some(2)));
}

#[test]
fn the_inspection_ends_with_a_key_but_not_with_a_press_on_a_panel() {
    let store = world();
    let mut inspected = InspectedEntity(Some(2));
    let mut input = press_at(100, 0);
    input.over_panel = true;
    inspect_body_sys(&mut inspected, &store, &CreationState::Unstarted, &input);
    assert_eq!(inspected, InspectedEntity(Some(2)));
    input.pressed = false;
    input.cancel_key = true;
    inspect_body_sys(&mut inspected, &store, &CreationState::Unstarted, &input);
    assert_eq!(inspected, InspectedEntity(None));
    let idle = InspectInput { pressed: false, over_panel: false, cancel_key: false, pointer: Vec2::zero() };
    let mut inspected = InspectedEntity(Some(0));
    inspect_body_sys(&mut inspected, &store, &CreationState::Unstarted, &idle);
    assert_eq!(inspected, InspectedEntity(Some(0)));
}
