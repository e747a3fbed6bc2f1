//! The body record: a disc with a position, a velocity and a mass.
use crate::fixed::{clamp, in_range, sat, saturate};
use vstd::prelude::*;

verus! {

/// A pair of scalars: a point or a direction in the plane.
#[derive(Clone, Copy, Debug, PartialEq, Eq, Structural)]
pub struct Vec2 {
    pub x: i64,
    pub y: i64,
}

impl Vec2 {
    /// Whether both components are in the range of stored scalars.
    pub open spec fn wf(self) -> bool {
        in_range(self.x as int) && in_range(self.y as int)
    }

    /// This vector with both components clamped to the range of stored scalars.
    pub open spec fn spec_clamped(self) -> Vec2 {
        Vec2 { x: sat(self.x as int) as i64, y: sat(self.y as int) as i64 }
    }

    /// The vector with the given components.
    pub fn new(x: i64, y: i64) -> (v: Vec2)
        ensures
            v == (Vec2 { x, y }),
    {
        Vec2 { x, y }
    }

    /// The vector whose components are both zero.
    pub fn zero() -> (v: Vec2)
        ensures
            v == (Vec2 { x: 0, y: 0 }),
            v.wf(),
    {
        Vec2 { x: 0, y: 0 }
    }

    /// This vector with both components clamped to the range of stored scalars.
    pub fn clamped(self) -> (v: Vec2)
        ensures
            v == self.spec_clamped(),
            v.wf(),
    {
        Vec2 { x: clamp(self.x), y: clamp(self.y) }
    }
}

/// One body of the simulation.
///
/// `accel` is the acceleration of the last completed step; `force` collects the
/// net force of the current step and is zero between steps.
#[derive(Clone, Copy, Debug, PartialEq, Eq, Structural)]
pub struct KinematicBody {
    pub pos: Vec2,
    pub vel: Vec2,
    pub accel: Vec2,
    pub force: Vec2,
    pub mass: i64,
    pub radius: i64,
}

impl KinematicBody {
    /// Whether this body may live in a store: every scalar is in range, and mass
    /// and radius are positive.
    pub open spec fn wf(self) -> bool {
        &&& self.pos.wf()
        &&& self.vel.wf()
        &&& self.accel.wf()
        &&& self.force.wf()
        &&& 0 < self.mass <= crate::fixed::LIMIT
        &&& 0 < self.radius <= crate::fixed::LIMIT
    }

    /// Whether mass and radius are positive, so that the body can be admitted.
    pub open spec fn spec_is_valid(self) -> bool {
        self.mass > 0 && self.radius > 0
    }

    /// This body with every scalar clamped to the range of stored scalars.
    pub open spec fn spec_clamped(self) -> KinematicBody {
        KinematicBody {
            pos: self.pos.spec_clamped(),
            vel: self.vel.spec_clamped(),
            accel: self.accel.spec_clamped(),
            force: self.force.spec_clamped(),
            mass: sat(self.mass as int) as i64,
            radius: sat(self.radius as int) as i64,
        }
    }

    /// A body at rest in its own frame of forces: the given position, velocity,
    /// mass and radius, with no acceleration and no force.
    pub fn new(pos: Vec2, vel: Vec2, mass: i64, radius: i64) -> (b: KinematicBody)
        ensures
            b == (KinematicBody {
                pos,
                vel,
                accel: Vec2 { x: 0, y: 0 },
                force: Vec2 { x: 0, y: 0 },
                mass,
                radius,
            }),
    {
        KinematicBody { pos, vel, accel: Vec2::zero(), force: Vec2::zero(), mass, radius }
    }

    /// Whether mass and radius are positive.
    pub fn is_valid(&self) -> (ok: bool)
        ensures
            ok == self.spec_is_valid(),
    {
        self.mass > 0 && self.radius > 0
    }

    /// This body with every scalar clamped to the range of stored scalars.
    pub fn clamped(self) -> (b: KinematicBody)
        ensures
            b == self.spec_clamped(),
            self.spec_is_valid() ==> b.wf(),
            self.wf() ==> b == self,
    {
        KinematicBody {
            pos: self.pos.clamped(),
            vel: self.vel.clamped(),
            accel: self.accel.clamped(),
            force: self.force.clamped(),
            mass: clamp(self.mass),
            radius: clamp(self.radius),
        }
    }
}

/// A body as a script describes it: what the script leaves out takes its
/// default.
#[derive(Clone, Copy, Debug, PartialEq, Eq, Structural)]
pub struct ScriptBody {
    pub pos: Option<Vec2>,
    pub vel: Option<Vec2>,
    pub accel: Option<Vec2>,
    pub force: Option<Vec2>,
    pub mass: Option<i64>,
    pub radius: Option<i64>,
}

/// What a script asks to change of a body: for each field a value to set, a
/// value to add, both or neither. Where both are given, the field is set
/// first.
#[derive(Clone, Copy, Debug, PartialEq, Eq, Structural)]
pub struct BodyUpdate {
    pub set_pos: Option<Vec2>,
    pub add_pos: Option<Vec2>,
    pub set_vel: Option<Vec2>,
    pub add_vel: Option<Vec2>,
    pub set_accel: Option<Vec2>,
    pub add_accel: Option<Vec2>,
    pub set_force: Option<Vec2>,
    pub add_force: Option<Vec2>,
    pub set_mass: Option<i64>,
    pub add_mass: Option<i64>,
    pub set_radius: Option<i64>,
    pub add_radius: Option<i64>,
}

/// The mass and the radius of a body whose script names none: ten.
pub const SCRIPT_DEFAULT: i64 = 0xA00_0000;

/// The scalar `old` after a request to set it, to add to it, or both.
pub open spec fn spec_changed(old: i64, set: Option<i64>, plus: Option<i64>) -> i64 {
    let base = match set {
        Some(v) => v,
        None => old,
    };
    match plus {
        Some(d) => sat(base + d) as i64,
        None => base,
    }
}

/// The vector `old` after a request to set it, to add to it, or both.
pub open spec fn spec_changed_vec(old: Vec2, set: Option<Vec2>, plus: Option<Vec2>) -> Vec2 {
    let base = match set {
        Some(v) => v,
        None => old,
    };
    match plus {
        Some(d) => Vec2 { x: sat(base.x + d.x) as i64, y: sat(base.y + d.y) as i64 },
        None => base,
    }
}

/// The scalar `old` after a request to set it, to add to it, or both.
pub fn changed(old: i64, set: Option<i64>, plus: Option<i64>) -> (r: i64)
    ensures
        r == spec_changed(old, set, plus),
{
    let base = match set {
        Some(v) => v,
        None => old,
    };
    match plus {
        Some(d) => saturate(base as i128 + d as i128),
        None => base,
    }
}

/// The vector `old` after a request to set it, to add to it, or both.
pub fn changed_vec(old: Vec2, set: Option<Vec2>, plus: Option<Vec2>) -> (r: Vec2)
    ensures
        r == spec_changed_vec(old, set, plus),
{
    let base = match set {
        Some(v) => v,
        None => old,
    };
    match plus {
        Some(d) => Vec2 {
            x: saturate(base.x as i128 + d.x as i128),
            y: saturate(base.y as i128 + d.y as i128),
        },
        None => base,
    }
}

impl KinematicBody {
    /// The body that a script describes: position, velocity, acceleration and
    /// force are zero, mass and radius ten, where the script names none.
    pub open spec fn spec_from_rhai(body: ScriptBody) -> KinematicBody {
        let zero = Vec2 { x: 0, y: 0 };
        KinematicBody {
            pos: body.pos.unwrap_or(zero),
            vel: body.vel.unwrap_or(zero),
            accel: body.accel.unwrap_or(zero),
            force: body.force.unwrap_or(zero),
            mass: body.mass.unwrap_or(SCRIPT_DEFAULT),
            radius: body.radius.unwrap_or(SCRIPT_DEFAULT),
        }
    }

    /// The body that a script describes.
    pub fn from_rhai(body: ScriptBody) -> (b: KinematicBody)
        ensures
            b == Self::spec_from_rhai(body),
    {
        let zero = Vec2::zero();
        KinematicBody {
            pos: body.pos.unwrap_or(zero),
            vel: body.vel.unwrap_or(zero),
            accel: body.accel.unwrap_or(zero),
            force: body.force.unwrap_or(zero),
            mass: body.mass.unwrap_or(SCRIPT_DEFAULT),
            radius: body.radius.unwrap_or(SCRIPT_DEFAULT),
        }
    }

    /// This body after the changes that `update` asks for.
    pub open spec fn spec_updated(self, update: BodyUpdate) -> KinematicBody {
        KinematicBody {
            pos: spec_changed_vec(self.pos, update.set_pos, update.add_pos),
            vel: spec_changed_vec(self.vel, update.set_vel, update.add_vel),
            accel: spec_changed_vec(self.accel, update.set_accel, update.add_accel),
            force: spec_changed_vec(self.force, update.set_force, update.add_force),
            mass: spec_changed(self.mass, update.set_mass, update.add_mass),
            radius: spec_changed(self.radius, update.set_radius, update.add_radius),
        }
    }

    /// This body after the changes that `update` asks for.
    pub fn updated(self, update: &BodyUpdate) -> (b: KinematicBody)
        ensures
            b == self.spec_updated(*update),
    {
        KinematicBody {
            pos: changed_vec(self.pos, update.set_pos, update.add_pos),
            vel: changed_vec(self.vel, update.set_vel, update.add_vel),
            accel: changed_vec(self.accel, update.set_accel, update.add_accel),
            force: changed_vec(self.force, update.set_force, update.add_force),
            mass: changed(self.mass, update.set_mass, update.add_mass),
            radius: changed(self.radius, update.set_radius, update.add_radius),
        }
    }
}

} // verus!
