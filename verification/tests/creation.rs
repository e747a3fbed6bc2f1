use gravity_sim::body::{KinematicBody, Vec2};
use gravity_sim::body_creation::{
    create_body_sys, release_velocity, resized, CreationAction, CreationData, CreationInput,
    CreationState,
};
use gravity_sim::fixed::{from_int, from_ratio, ONE};
use gravity_sim::main_state::PreviewParameters;
use gravity_sim::resources::MultiPreview;

fn idle() -> CreationInput {
    CreationInput {
        toggle_key: false,
        cancel_key: false,
        pressed: false,
        released: false,
        resize_key: false,
        wheel: 0,
        preview_key: false,
        last_pointer: Vec2::zero(),
        pointer: Vec2::zero(),
    }
}

#[test]
fn placing_starts_and_ends_with_a_key() {
    let mut state = CreationState::Unstarted;
    let mut data = CreationData::initial();
    let mut input = idle();
    assert_eq!(create_body_sys(&mut state, &mut data, &input, MultiPreview(false)), CreationAction::Nothing);
    assert_eq!(state, CreationState::Unstarted);
    input.toggle_key = true;
    create_body_sys(&mut state, &mut data, &input, MultiPreview(false));
    assert_eq!(state, CreationState::Initiated);
    create_body_sys(&mut state, &mut data, &input, MultiPreview(false));
    assert_eq!(state, CreationState::Unstarted);
    create_body_sys(&mut state, &mut data, &input, MultiPreview(false));
    input.toggle_key = false;
    input.cancel_key = true;
    create_body_sys(&mut state, &mut data, &input, MultiPreview(false));
    assert_eq!(state, CreationState::Unstarted);
    assert_eq!(data, CreationData::initial());
}

#[test]
fn default_body_to_place() {
    assert_eq!(CreationData::initial(), CreationData { radius: from_int(75), mass: ONE });
}

#[test]
fn the_wheel_changes_the_radius() {
    let mut state = CreationState::Initiated;
    let mut data = CreationData { radius: from_int(100), mass: ONE };
    let mut input = idle();
    input.wheel = 3;
    create_body_sys(&mut state, &mut data, &input, MultiPreview(false));
    assert_eq!(data.radius, from_int(100));
    input.resize_key = true;
    create_body_sys(&mut state, &mut data, &input, MultiPreview(false));
    assert_eq!(data.radius, from_int(90));
    input.wheel = -1;
    create_body_sys(&mut state, &mut data, &input, MultiPreview(false));
    assert_eq!(data.radius, from_int(99));
    assert_eq!(state, CreationState::Initiated);
    assert_eq!(resized(1, 5), 1);
    assert_eq!(resized(0, 0), 1);
    assert_eq!(resized(20, -5), 22);
}

#[test]
fn pressing_fixes_the_start_point() {
    let mut state = CreationState::Initiated;
    let mut data = CreationData::initial();
    let mut input = idle();
    input.pressed = true;
    input.toggle_key = true;
    input.last_pointer = Vec2::new(from_int(4), from_int(-2));
    let action = create_body_sys(&mut state, &mut data, &input, MultiPreview(false));
    assert_eq!(action, CreationAction::Nothing);
    assert_eq!(state, CreationState::Clicked { start_point: Vec2::new(from_int(4), from_int(-2)) });
}

#[test]
fn releasing_spawns_the_body() {
    let start = Vec2::new(from_int(4), from_int(-2));
    let mut state = CreationState::Clicked { start_point: start };
    let mut data = CreationData { radius: from_int(3), mass: from_int(2) };
    let mut input = idle();
    input.released = true;
    input.last_pointer = Vec2::new(from_int(-96), from_int(48));
    let action = create_body_sys(&mut state, &mut data, &input, MultiPreview(false));
    let body = KinematicBody::new(
        start,
        Vec2::new(from_int(1), from_ratio(-1, 2)),
        from_int(2),
        from_int(3),
    );
    assert_eq!(action, CreationAction::Spawn { body, discard_previews: true });
    assert_eq!(state, CreationState::Initiated);
    let mut state = CreationState::Clicked { start_point: start };
    let action = create_body_sys(&mut state, &mut data, &input, MultiPreview(true));
    assert_eq!(action, CreationAction::Spawn { body, discard_previews: false });
}

#[test]
fn dragging_asks_for_a_forecast() {
    let start = Vec2::new(from_int(4), from_int(-2));
    let mut state = CreationState::Clicked { start_point: start };
    let mut data = CreationData { radius: from_int(3), mass: from_int(2) };
    let mut input = idle();
    input.last_pointer = Vec2::new(from_int(-96), from_int(48));
    input.pointer = Vec2::new(from_int(-96), from_int(52));
    let action = create_body_sys(&mut state, &mut data, &input, MultiPreview(false));
    let parameters = PreviewParameters {
        start_point: start,
        release_velocity: Vec2::new(from_int(1), from_ratio(-1, 2)),
        radius: from_int(3),
    };
    assert_eq!(action, CreationAction::Forecast { parameters });
    assert_eq!(state, CreationState::Clicked { start_point: start });
    // a small move asks for nothing
    input.pointer = Vec2::new(from_int(-96), from_int(51));
    assert_eq!(
        create_body_sys(&mut state, &mut data, &input, MultiPreview(false)),
        CreationAction::Nothing
    );
    // where several forecasts may stand, the key asks for one
    assert_eq!(
        create_body_sys(&mut state, &mut data, &input, MultiPreview(true)),
        CreationAction::Nothing
    );
    input.preview_key = true;
    assert_eq!(
        create_body_sys(&mut state, &mut data, &input, MultiPreview(true)),
        CreationAction::Forecast { parameters }
    );
}

#[test]
fn release_velocity_is_a_hundredth_of_the_drag() {
    let start = Vec2::new(from_int(10), from_int(10));
    assert_eq!(release_velocity(start, start), Vec2::zero());
    assert_eq!(
        release_velocity(start, Vec2::new(from_int(110), from_int(-40))),
        Vec2::new(from_int(-1), from_ratio(1, 2))
    );
    assert_eq!(release_velocity(Vec2::new(7, -7), Vec2::zero()), Vec2::zero());
}
