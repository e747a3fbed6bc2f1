//! The integrator: one velocity-Verlet step for every body of a kind.
//!
//! The step turns the force collected on a body into its new acceleration,
//! advances the velocity by the mean of the old and the new acceleration, the
//! position by the new velocity and half the new acceleration, and leaves the
//! force at zero for the next step. It reads nothing but the body itself.
use crate::body::{KinematicBody, Vec2};
use crate::fixed::{
    fdiv, fmul, in_range, lemma_trunc_div_bounds, quot, sat, saturate, spec_fdiv, spec_fmul,
    trunc_div, wide_mul, ONE,
};
use crate::resources::{Paused, PhysicsToggles, DT};
use crate::store::{BodyStore, StoredBody};
use vstd::prelude::*;

verus! {

/// The velocity along one axis after a step: `v + (a_new + a_old) / 2 * dt`.
pub open spec fn step_velocity(v: int, a_old: int, a_new: int, dt: int) -> int {
    sat(v + trunc_div((a_new + a_old) * dt, 2 * ONE))
}

/// The position along one axis after a step: `p + v_new * dt + a_new / 2 * dt^2`.
pub open spec fn step_position(p: int, v_new: int, a_new: int, dt: int) -> int {
    sat(p + trunc_div(v_new * dt, ONE as int) + trunc_div(spec_fmul(a_new, dt) * dt, 2 * ONE))
}

/// The body `b` after one step of length `dt`.
pub open spec fn spec_integrate(b: KinematicBody, dt: int) -> KinematicBody {
    let ax = spec_fdiv(b.force.x as int, b.mass as int);
    let ay = spec_fdiv(b.force.y as int, b.mass as int);
    let vx = step_velocity(b.vel.x as int, b.accel.x as int, ax, dt);
    let vy = step_velocity(b.vel.y as int, b.accel.y as int, ay, dt);
    KinematicBody {
        pos: Vec2 {
            x: step_position(b.pos.x as int, vx, ax, dt) as i64,
            y: step_position(b.pos.y as int, vy, ay, dt) as i64,
        },
        vel: Vec2 { x: vx as i64, y: vy as i64 },
        accel: Vec2 { x: ax as i64, y: ay as i64 },
        force: Vec2 { x: 0, y: 0 },
        mass: b.mass,
        radius: b.radius,
    }
}

/// The stored body `e` after a pass over the bodies whose preview flag is
/// `preview`: stepped if it is of that kind, untouched otherwise.
pub open spec fn spec_integrate_entry(e: StoredBody, preview: bool, dt: int) -> StoredBody {
    if e.preview == preview {
        StoredBody { body: spec_integrate(e.body, dt), ..e }
    } else {
        e
    }
}

/// The content `s` after a pass over the bodies whose preview flag is `preview`.
pub open spec fn spec_integrate_all(s: Seq<StoredBody>, preview: bool, dt: int) -> Seq<
    StoredBody,
> {
    Seq::new(s.len(), |i: int| spec_integrate_entry(s[i], preview, dt))
}

/// Whether a pass of the integrator does anything under these settings.
pub open spec fn integration_enabled(paused: Paused, toggles: PhysicsToggles) -> bool {
    !paused.0 && toggles.integration
}

/// The velocity along one axis after a step.
fn velocity_after(v: i64, a_old: i64, a_new: i64, dt: i64) -> (r: i64)
    requires
        in_range(a_new as int),
    ensures
        r == step_velocity(v as int, a_old as int, a_new as int, dt as int),
        in_range(r as int),
{
    let s: i128 = a_new as i128 + a_old as i128;
    assert(-0x6000_0000_0000_0000_0000_0000_0000_0000 <= s * dt
        <= 0x6000_0000_0000_0000_0000_0000_0000_0000) by (nonlinear_arith)
        requires
            -0xC000_0000_0000_0000 <= s <= 0xC000_0000_0000_0000,
            -0x8000_0000_0000_0000 <= dt <= 0x8000_0000_0000_0000,
    ;
    let dv: i128 = quot(s * (dt as i128), 2 * (ONE as i128));
    proof {
        lemma_trunc_div_bounds(s * dt, 2 * ONE);
    }
    saturate(v as i128 + dv)
}

/// The position along one axis after a step.
fn position_after(p: i64, v_new: i64, a_new: i64, dt: i64) -> (r: i64)
    ensures
        r == step_position(p as int, v_new as int, a_new as int, dt as int),
        in_range(r as int),
{
    let by_velocity: i128 = quot(wide_mul(v_new, dt), ONE as i128);
    let half_step: i64 = fmul(a_new, dt);
    let by_accel: i128 = quot(wide_mul(half_step, dt), 2 * (ONE as i128));
    proof {
        lemma_trunc_div_bounds(v_new * dt, ONE as int);
        lemma_trunc_div_bounds(half_step * dt, 2 * ONE);
    }
    saturate(p as i128 + by_velocity + by_accel)
}

/// Advances one body by one step of length `dt`.
///
/// The result depends on the body and on `dt` alone, so equal inputs give
/// equal outputs, bit for bit. The step is defined for every body: a mass of
/// zero, which no stored body has, gives the acceleration that `fdiv` gives
/// for a division by zero.
pub fn integrate(b: KinematicBody, dt: i64) -> (r: KinematicBody)
    ensures
        r == spec_integrate(b, dt as int),
        b.wf() ==> r.wf(),
{
    let ax = fdiv(b.force.x, b.mass);
    let ay = fdiv(b.force.y, b.mass);
    let vx = velocity_after(b.vel.x, b.accel.x, ax, dt);
    let vy = velocity_after(b.vel.y, b.accel.y, ay, dt);
    let px = position_after(b.pos.x, vx, ax, dt);
    let py = position_after(b.pos.y, vy, ay, dt);
    KinematicBody {
        pos: Vec2 { x: px, y: py },
        vel: Vec2 { x: vx, y: vy },
        accel: Vec2 { x: ax, y: ay },
        force: Vec2 { x: 0, y: 0 },
        mass: b.mass,
        radius: b.radius,
    }
}

/// Steps every body whose preview flag is `preview`.
fn integrate_kind(store: &mut BodyStore, preview: bool, dt: i64)
    requires
        old(store).wf(),
    ensures
        final(store).wf(),
        final(store)@.next_handle == old(store)@.next_handle,
        final(store)@.bodies == spec_integrate_all(old(store)@.bodies, preview, dt as int),
{
    let n = store.len();
    let mut i: usize = 0;
    while i < n
        invariant
            i <= n,
            store.wf(),
            store@.next_handle == old(store)@.next_handle,
            store@.bodies.len() == n,
            old(store)@.bodies.len() == n,
            forall|k: int|
                0 <= k < i ==> store@.bodies[k] == spec_integrate_entry(
                    #[trigger] old(store)@.bodies[k],
                    preview,
                    dt as int,
                ),
            forall|k: int| i <= k < n ==> store@.bodies[k] == #[trigger] old(store)@.bodies[k],
        decreases n - i,
    {
        let e = store.entry(i);
        if e.preview == preview {
            store.set_body(i, integrate(e.body, dt));
        }
        i += 1;
    }
    assert(store@.bodies =~= spec_integrate_all(old(store)@.bodies, preview, dt as int));
}

/// Advances every body that is not a preview by one step, unless the simulation
/// is paused or integration is switched off.
pub fn integration_sys(store: &mut BodyStore, dt: DT, toggles: PhysicsToggles, paused: Paused)
    requires
        old(store).wf(),
    ensures
        final(store).wf(),
        final(store)@.next_handle == old(store)@.next_handle,
        integration_enabled(paused, toggles) ==> final(store)@.bodies == spec_integrate_all(
            old(store)@.bodies,
            false,
            dt.0 as int,
        ),
        !integration_enabled(paused, toggles) ==> final(store)@.bodies == old(store)@.bodies,
{
    if paused.0 || !toggles.integration {
        return ;
    }
    integrate_kind(store, false, dt.0);
}

/// Advances every preview body by one step, unless the simulation is paused or
/// integration is switched off.
pub fn preview_integration_sys(
    store: &mut BodyStore,
    dt: DT,
    toggles: PhysicsToggles,
    paused: Paused,
)
    requires
        old(store).wf(),
    ensures
        final(store).wf(),
        final(store)@.next_handle == old(store)@.next_handle,
        integration_enabled(paused, toggles) ==> final(store)@.bodies == spec_integrate_all(
            old(store)@.bodies,
            true,
            dt.0 as int,
        ),
        !integration_enabled(paused, toggles) ==> final(store)@.bodies == old(store)@.bodies,
{
    if paused.0 || !toggles.integration {
        return ;
    }
    integrate_kind(store, true, dt.0);
}

/// A pass of the integrator leaves no force behind: every body of the kind it
/// went over has a force of zero after it.
pub proof fn lemma_pass_clears_forces(s: Seq<StoredBody>, preview: bool, dt: int, k: int)
    requires
        0 <= k < s.len(),
        s[k].preview == preview,
    ensures
        spec_integrate_all(s, preview, dt)[k].body.force == (Vec2 { x: 0, y: 0 }),
{
}

/// Two steps from equal states with equal timesteps end in equal states.
pub proof fn lemma_integration_deterministic(a: KinematicBody, b: KinematicBody, dt: int)
    requires
        a == b,
    ensures
        spec_integrate(a, dt) == spec_integrate(b, dt),
{
}

/// A body on which no force acts, and which had no acceleration before, moves
/// in a straight line: its velocity stays, and its position advances by
/// velocity times timestep.
pub proof fn lemma_free_motion(b: KinematicBody, dt: int)
    requires
        b.wf(),
        b.force == (Vec2 { x: 0, y: 0 }),
        b.accel == (Vec2 { x: 0, y: 0 }),
    ensures
        spec_integrate(b, dt).vel == b.vel,
        spec_integrate(b, dt).accel == b.accel,
        spec_integrate(b, dt).pos.x == sat(b.pos.x + trunc_div(b.vel.x * dt, ONE as int)),
        spec_integrate(b, dt).pos.y == sat(b.pos.y + trunc_div(b.vel.y * dt, ONE as int)),
{
    let m = b.mass as int;
    assert(0int * ONE == 0);
    assert(0int / m == 0) by (nonlinear_arith)
        requires
            m > 0,
    ;
    assert(spec_fdiv(0, m) == 0);
    assert(0int * dt == 0);
    assert(0int / (2 * ONE) == 0);
    assert(0int / (ONE as int) == 0);
    assert(spec_fmul(0, dt) == 0);
}

} // verus!
