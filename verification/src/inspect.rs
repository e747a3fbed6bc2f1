//! Picking a body with the pointer, to inspect it.
use crate::body::Vec2;
use crate::body_creation::CreationState;
use crate::fixed::wide_mul;
use crate::gravity::{dist_sq, dist_squared};
use crate::resources::InspectedEntity;
use crate::store::{BodyStore, StoredBody};
use vstd::prelude::*;

verus! {

/// What the user did in one frame, as far as picking a body is concerned.
#[derive(Clone, Copy, Debug, PartialEq, Eq, Structural)]
pub struct InspectInput {
    /// The pointer was pressed.
    pub pressed: bool,
    /// The pointer is over a panel.
    pub over_panel: bool,
    /// The key that ends the inspection was pressed.
    pub cancel_key: bool,
    /// Where the pointer is, in world coordinates.
    pub pointer: Vec2,
}

/// By how much, in squared raw units, the pointer may miss the disc of a body
/// and still pick it: fifty square units.
pub const PICK_MARGIN: i128 = 0x32_0000_0000_0000;

/// Whether the pointer at `point` picks the body `e`: the squared distance to
/// its centre is less than its squared radius and the margin.
pub open spec fn picks(e: StoredBody, point: Vec2) -> bool {
    dist_sq(e.body.pos, point.spec_clamped()) < e.body.radius * e.body.radius + PICK_MARGIN
}

/// Whether no body before position `i` of `s` is picked at `point`.
pub open spec fn none_picked_before(s: Seq<StoredBody>, point: Vec2, i: int) -> bool {
    forall|k: int| 0 <= k < i ==> !picks(#[trigger] s[k], point)
}

/// Whether `r` is the handle of the first body of `s` that `point` picks, or
/// nothing where it picks none.
pub open spec fn is_first_pick(s: Seq<StoredBody>, point: Vec2, r: Option<u64>) -> bool {
    match r {
        Some(h) => exists|i: int|
            0 <= i < s.len() && (#[trigger] s[i]).handle == h && picks(s[i], point)
                && none_picked_before(s, point, i),
        None => none_picked_before(s, point, s.len() as int),
    }
}

/// Whether a frame picks a body: none is inspected, no body is being placed,
/// and the pointer was pressed.
pub open spec fn spec_selects(
    inspected: InspectedEntity,
    state: CreationState,
    input: InspectInput,
) -> bool {
    inspected.0 is None && state != CreationState::Initiated && input.pressed
}

/// Whether a frame ends the inspection: no body is being placed, and the key
/// that ends it was pressed or the pointer was pressed away from any panel.
pub open spec fn spec_deselects(state: CreationState, input: InspectInput) -> bool {
    state != CreationState::Initiated && (input.cancel_key || (input.pressed && !input.over_panel))
}

/// The handle of the first body, in the order of the store, that the pointer
/// at `point` picks.
pub fn pick(store: &BodyStore, point: Vec2) -> (r: Option<u64>)
    requires
        store.wf(),
    ensures
        is_first_pick(store@.bodies, point, r),
{
    let at = point.clamped();
    let n = store.len();
    let mut i: usize = 0;
    while i < n
        invariant
            i <= n,
            n == store@.bodies.len(),
            store.wf(),
            at == point.spec_clamped(),
            none_picked_before(store@.bodies, point, i as int),
        decreases n - i,
    {
        let e = store.entry(i);
        let reach: i128 = wide_mul(e.body.radius, e.body.radius) + PICK_MARGIN;
        if dist_squared(e.body.pos, at) < reach {
            return Some(e.handle);
        }
        i += 1;
    }
    None
}

/// Picks the body under the pointer, or ends the inspection, as the frame
/// asks; otherwise the inspected body stays.
pub fn inspect_body_sys(
    inspected: &mut InspectedEntity,
    store: &BodyStore,
    state: &CreationState,
    input: &InspectInput,
)
    requires
        store.wf(),
    ensures
        spec_selects(*old(inspected), *state, *input) ==> is_first_pick(
            store@.bodies,
            input.pointer,
            final(inspected).0,
        ),
        !spec_selects(*old(inspected), *state, *input) && spec_deselects(*state, *input)
            ==> final(inspected).0 is None,
        !spec_selects(*old(inspected), *state, *input) && !spec_deselects(*state, *input)
            ==> *final(inspected) == *old(inspected),
{
    let placing = match state {
        CreationState::Initiated => true,
        _ => false,
    };
    if inspected.0.is_none() && !placing && input.pressed {
        inspected.0 = pick(store, input.pointer);
    } else if !placing && (input.cancel_key || (input.pressed && !input.over_panel)) {
        inspected.0 = None;
    }
}

} // verus!
