//! Making bodies and placing them in a store.
use crate::body::{KinematicBody, Vec2};
use crate::error::SimError;
use crate::fixed::ONE;
use crate::store::{spec_spawn_result, BodyStore, StoredBody};
use vstd::prelude::*;

verus! {

/// A body with the given position, velocity, mass and radius, on which no
/// force acts yet.
pub fn new_body(pos: Vec2, vel: Vec2, mass: i64, rad: i64) -> (body: KinematicBody)
    ensures
        body == (KinematicBody {
            pos,
            vel,
            accel: Vec2 { x: 0, y: 0 },
            force: Vec2 { x: 0, y: 0 },
            mass,
            radius: rad,
        }),
{
    KinematicBody::new(pos, vel, mass, rad)
}

/// The body of a forecast with the given position, velocity and radius. Its
/// mass is one.
pub fn new_preview(pos: Vec2, vel: Vec2, rad: i64) -> (body: KinematicBody)
    ensures
        body == (KinematicBody {
            pos,
            vel,
            accel: Vec2 { x: 0, y: 0 },
            force: Vec2 { x: 0, y: 0 },
            mass: ONE,
            radius: rad,
        }),
{
    KinematicBody::new(pos, vel, ONE, rad)
}

/// Places `body` in the store as a body of the simulation and returns its
/// handle, or turns it down if its mass or radius is not positive.
pub fn create_body(store: &mut BodyStore, body: KinematicBody) -> (r: Result<u64, SimError>)
    requires
        old(store).wf(),
    ensures
        final(store).wf(),
        r == spec_spawn_result(old(store)@.next_handle, body),
        r is Ok ==> final(store)@.bodies == old(store)@.bodies.push(
            StoredBody {
                handle: old(store)@.next_handle,
                preview: false,
                body: body.spec_clamped(),
            },
        ) && final(store)@.next_handle == old(store)@.next_handle + 1,
        r is Err ==> final(store)@ == old(store)@,
{
    store.spawn(body)
}

/// Places `body` in the store as a preview and returns its handle, or turns it
/// down if its mass or radius is not positive.
pub fn create_preview(store: &mut BodyStore, body: KinematicBody) -> (r: Result<u64, SimError>)
    requires
        old(store).wf(),
    ensures
        final(store).wf(),
        r == spec_spawn_result(old(store)@.next_handle, body),
        r is Ok ==> final(store)@.bodies == old(store)@.bodies.push(
            StoredBody {
                handle: old(store)@.next_handle,
                preview: true,
                body: body.spec_clamped(),
            },
        ) && final(store)@.next_handle == old(store)@.next_handle + 1,
        r is Err ==> final(store)@ == old(store)@,
{
    store.spawn_preview(body)
}

} // verus!
