//! Placing a new body by hand: the body is placed where the pointer is pressed
//! and released with a velocity that grows with the distance dragged.
//!
//! What the user did in a frame comes in as plain values; what has to be done
//! to the simulation goes out as an action for the caller to carry out.
use crate::body::{KinematicBody, Vec2};
use crate::fixed::{quot, sat, saturate, trunc_div, wide_mul, LIMIT, ONE};
use crate::gravity::{dist_sq, dist_squared};
use crate::main_state::PreviewParameters;
use crate::resources::MultiPreview;
use vstd::prelude::*;

verus! {

/// How far the placing of a body has come.
#[derive(Clone, Copy, Debug, PartialEq, Eq, Structural)]
pub enum CreationState {
    /// No body is being placed.
    Unstarted,
    /// A body is to be placed; the pointer has not been pressed yet.
    Initiated,
    /// The pointer was pressed at `start_point` and is being dragged.
    Clicked { start_point: Vec2 },
}

/// Radius and mass of the body that will be placed.
#[derive(Clone, Copy, Debug, PartialEq, Eq, Structural)]
pub struct CreationData {
    pub radius: i64,
    pub mass: i64,
}

/// What the user did in one frame, as far as placing a body is concerned.
/// Points are in world coordinates.
#[derive(Clone, Copy, Debug, PartialEq, Eq, Structural)]
pub struct CreationInput {
    /// The key that starts and ends placing was pressed.
    pub toggle_key: bool,
    /// The key that ends placing was pressed.
    pub cancel_key: bool,
    /// The pointer was pressed, away from any panel.
    pub pressed: bool,
    /// The pointer was released, away from any panel.
    pub released: bool,
    /// The key that turns the wheel into a radius control is held.
    pub resize_key: bool,
    /// How far the wheel was turned; its sign says which way.
    pub wheel: i64,
    /// The key or button that asks for a forecast was pressed.
    pub preview_key: bool,
    /// Where the pointer was at the last frame.
    pub last_pointer: Vec2,
    /// Where the pointer is now.
    pub pointer: Vec2,
}

/// What has to be done to the simulation after a frame of placing.
#[derive(Clone, Copy, Debug, PartialEq, Eq, Structural)]
pub enum CreationAction {
    /// Nothing.
    Nothing,
    /// Add this body; `discard_previews` says whether the previews have to go
    /// first.
    Spawn { body: KinematicBody, discard_previews: bool },
    /// Start a forecast from these parameters.
    Forecast { parameters: PreviewParameters },
}

/// The squared distance, in squared raw units, that the pointer has to move
/// between two frames for a forecast to start.
pub const MOVE_THRESHOLD: i128 = 0xF_0000_0000_0000;

/// By how much the drag is divided to give the release velocity.
pub const DRAG_DIVISOR: i128 = 100;

impl CreationData {
    /// The body that is placed unless the user says otherwise: radius
    /// seventy-five, mass one.
    pub open spec fn spec_initial() -> CreationData {
        CreationData { radius: (75 * ONE) as i64, mass: ONE }
    }

    /// The body that is placed unless the user says otherwise.
    pub fn initial() -> (d: CreationData)
        ensures
            d == Self::spec_initial(),
    {
        CreationData { radius: 75 * ONE, mass: ONE }
    }
}

/// The radius after one notch of the wheel: a tenth smaller when the wheel is
/// turned forward, a tenth larger when it is turned back, and never less than
/// one raw unit.
pub open spec fn spec_resized(radius: int, wheel: int) -> int {
    let scaled = if wheel > 0 {
        sat(trunc_div(radius * 9, 10))
    } else if wheel < 0 {
        sat(trunc_div(radius * 11, 10))
    } else {
        sat(radius)
    };
    if scaled < 1 {
        1
    } else {
        scaled
    }
}

/// The velocity with which a body dragged from `start` to `pointer` is
/// released: a hundredth of the way back from the pointer to the start.
pub open spec fn spec_release_velocity(start: Vec2, pointer: Vec2) -> Vec2 {
    Vec2 {
        x: sat(trunc_div(start.x - pointer.x, DRAG_DIVISOR as int)) as i64,
        y: sat(trunc_div(start.y - pointer.y, DRAG_DIVISOR as int)) as i64,
    }
}

/// Whether the pointer moved far enough between two frames to start a
/// forecast.
pub open spec fn spec_pointer_moved(input: CreationInput) -> bool {
    dist_sq(input.pointer.spec_clamped(), input.last_pointer.spec_clamped()) > MOVE_THRESHOLD
}

/// Whether a frame of dragging starts a forecast: the pointer moved, where one
/// forecast stands alone; the forecast was asked for, where several may stand
/// side by side.
pub open spec fn spec_wants_forecast(input: CreationInput, multi_preview: MultiPreview) -> bool {
    (!multi_preview.0 && spec_pointer_moved(input)) || (multi_preview.0 && input.preview_key)
}

/// The state of placing after a frame.
pub open spec fn spec_next_state(state: CreationState, input: CreationInput) -> CreationState {
    match state {
        CreationState::Unstarted => if input.toggle_key {
            CreationState::Initiated
        } else {
            CreationState::Unstarted
        },
        CreationState::Initiated => if input.pressed {
            CreationState::Clicked { start_point: input.last_pointer }
        } else if input.toggle_key || input.cancel_key {
            CreationState::Unstarted
        } else {
            CreationState::Initiated
        },
        CreationState::Clicked { start_point } => if input.released {
            CreationState::Initiated
        } else {
            state
        },
    }
}

/// Radius and mass of the body to be placed after a frame.
pub open spec fn spec_next_data(
    state: CreationState,
    data: CreationData,
    input: CreationInput,
) -> CreationData {
    if state == CreationState::Initiated && input.resize_key && input.wheel != 0 {
        CreationData { radius: spec_resized(data.radius as int, input.wheel as int) as i64, ..data }
    } else {
        data
    }
}

/// What a frame of placing asks of the simulation.
pub open spec fn spec_action(
    state: CreationState,
    data: CreationData,
    input: CreationInput,
    multi_preview: MultiPreview,
) -> CreationAction {
    match state {
        CreationState::Clicked { start_point } => if input.released {
            CreationAction::Spawn {
                body: KinematicBody {
                    pos: start_point,
                    vel: spec_release_velocity(start_point, input.last_pointer),
                    accel: Vec2 { x: 0, y: 0 },
                    force: Vec2 { x: 0, y: 0 },
                    mass: data.mass,
                    radius: data.radius,
                },
                discard_previews: !multi_preview.0,
            }
        } else if spec_wants_forecast(input, multi_preview) {
            CreationAction::Forecast {
                parameters: PreviewParameters {
                    start_point,
                    release_velocity: spec_release_velocity(start_point, input.last_pointer),
                    radius: data.radius,
                },
            }
        } else {
            CreationAction::Nothing
        },
        _ => CreationAction::Nothing,
    }
}

/// The radius after one notch of the wheel.
pub fn resized(radius: i64, wheel: i64) -> (r: i64)
    ensures
        r == spec_resized(radius as int, wheel as int),
        1 <= r <= LIMIT,
{
    let scaled: i64 = if wheel > 0 {
        saturate(quot(wide_mul(radius, 9), 10))
    } else if wheel < 0 {
        saturate(quot(wide_mul(radius, 11), 10))
    } else {
        saturate(radius as i128)
    };
    if scaled < 1 {
        1
    } else {
        scaled
    }
}

/// The velocity with which a body dragged from `start` to `pointer` is
/// released.
pub fn release_velocity(start: Vec2, pointer: Vec2) -> (v: Vec2)
    ensures
        v == spec_release_velocity(start, pointer),
        v.wf(),
{
    Vec2 {
        x: saturate(quot(start.x as i128 - pointer.x as i128, DRAG_DIVISOR)),
        y: saturate(quot(start.y as i128 - pointer.y as i128, DRAG_DIVISOR)),
    }
}

/// Advances the placing of a body by one frame: moves `state` on, changes the
/// radius in `data` if the wheel was turned, and returns what has to be done to
/// the simulation.
pub fn create_body_sys(
    state: &mut CreationState,
    data: &mut CreationData,
    input: &CreationInput,
    multi_preview: MultiPreview,
) -> (action: CreationAction)
    ensures
        *final(state) == spec_next_state(*old(state), *input),
        *final(data) == spec_next_data(*old(state), *old(data), *input),
        action == spec_action(*old(state), *old(data), *input, multi_preview),
{
    match *state {
        CreationState::Unstarted => {
            if input.toggle_key {
                *state = CreationState::Initiated;
            }
            CreationAction::Nothing
        },
        CreationState::Initiated => {
            if input.resize_key && input.wheel != 0 {
                data.radius = resized(data.radius, input.wheel);
            }
            if input.pressed {
                *state = CreationState::Clicked { start_point: input.last_pointer };
            } else if input.toggle_key || input.cancel_key {
                *state = CreationState::Unstarted;
            }
            CreationAction::Nothing
        },
        CreationState::Clicked { start_point } => {
            let vel = release_velocity(start_point, input.last_pointer);
            if input.released {
                *state = CreationState::Initiated;
                CreationAction::Spawn {
                    body: KinematicBody::new(start_point, vel, data.mass, data.radius),
                    discard_previews: !multi_preview.0,
                }
            } else {
                let moved = dist_squared(input.pointer.clamped(), input.last_pointer.clamped())
                    > MOVE_THRESHOLD;
                if (!multi_preview.0 && moved) || (multi_preview.0 && input.preview_key) {
                    CreationAction::Forecast {
                        parameters: PreviewParameters {
                            start_point,
                            release_velocity: vel,
                            radius: data.radius,
                        },
                    }
                } else {
                    CreationAction::Nothing
                }
            }
        },
    }
}

} // verus!
