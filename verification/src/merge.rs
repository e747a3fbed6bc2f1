//! The arithmetic of a merge: the totals of the bodies that collided, and the
//! one body that takes their place.
//!
//! The merged body has the summed mass, the velocity that keeps the summed
//! momentum, the centre of mass as its position, the radius that keeps the
//! summed volume, the summed force, and that force divided by the summed mass
//! as its acceleration.
use crate::body::{KinematicBody, Vec2};
use crate::fixed::{
    fdiv, in_range, int_cbrt, lemma_cbrt_exists, quot, sat, saturate, spec_fdiv, trunc_div,
    wide_mul, LIMIT,
};
use crate::volume::{lemma_cube_grows, spec_cube, spec_volume, vclamp, Volume};
use vstd::prelude::*;

verus! {

/// Largest magnitude that a running total may reach.
pub const WIDE: i128 = 0x4000_0000_0000_0000_0000_0000_0000_0000;

/// `x` clamped to `[-WIDE, WIDE]`.
pub open spec fn wclamp(x: int) -> int {
    if x > WIDE {
        WIDE as int
    } else if x < -WIDE {
        -(WIDE as int)
    } else {
        x
    }
}

/// The running totals of a group of bodies.
///
/// Mass, force and volume are sums over the bodies; momentum is the sum of mass
/// times velocity and moment the sum of mass times position, both in squared
/// raw units. Each total is held at `WIDE` in magnitude; the volume, the sum of
/// the cubed radii, is exact up to `volume_cap()`, far above the cube of the
/// largest scalar.
#[derive(Clone, Copy, Debug, PartialEq, Eq, Structural)]
pub struct Totals {
    pub mass: i128,
    pub momentum_x: i128,
    pub momentum_y: i128,
    pub moment_x: i128,
    pub moment_y: i128,
    pub force_x: i128,
    pub force_y: i128,
    pub volume: Volume,
}

/// Whether `x` is a value that a running total may have.
pub open spec fn in_wide(x: int) -> bool {
    -WIDE <= x <= WIDE
}

impl Totals {
    /// Whether every total is within its bounds.
    pub open spec fn wf(self) -> bool {
        &&& 0 <= self.mass <= WIDE
        &&& in_wide(self.momentum_x as int)
        &&& in_wide(self.momentum_y as int)
        &&& in_wide(self.moment_x as int)
        &&& in_wide(self.moment_y as int)
        &&& in_wide(self.force_x as int)
        &&& in_wide(self.force_y as int)
    }

    /// The totals of no bodies.
    pub open spec fn spec_zero() -> Totals {
        Totals {
            mass: 0,
            momentum_x: 0,
            momentum_y: 0,
            moment_x: 0,
            moment_y: 0,
            force_x: 0,
            force_y: 0,
            volume: spec_volume(0),
        }
    }

    /// These totals with the body `b` added.
    pub open spec fn spec_plus(self, b: KinematicBody) -> Totals {
        Totals {
            mass: wclamp(self.mass + b.mass) as i128,
            momentum_x: wclamp(self.momentum_x + b.mass * b.vel.x) as i128,
            momentum_y: wclamp(self.momentum_y + b.mass * b.vel.y) as i128,
            moment_x: wclamp(self.moment_x + b.mass * b.pos.x) as i128,
            moment_y: wclamp(self.moment_y + b.mass * b.pos.y) as i128,
            force_x: wclamp(self.force_x + b.force.x) as i128,
            force_y: wclamp(self.force_y + b.force.y) as i128,
            volume: spec_volume(vclamp(self.volume@ + spec_cube(b.radius as int))),
        }
    }

    /// The body that takes the place of the bodies totalled here.
    pub open spec fn spec_merged(self) -> KinematicBody
        recommends
            self.mass > 0,
    {
        let mass = sat(self.mass as int);
        let force_x = sat(self.force_x as int);
        let force_y = sat(self.force_y as int);
        KinematicBody {
            pos: Vec2 {
                x: sat(trunc_div(self.moment_x as int, self.mass as int)) as i64,
                y: sat(trunc_div(self.moment_y as int, self.mass as int)) as i64,
            },
            vel: Vec2 {
                x: sat(trunc_div(self.momentum_x as int, self.mass as int)) as i64,
                y: sat(trunc_div(self.momentum_y as int, self.mass as int)) as i64,
            },
            accel: Vec2 { x: spec_fdiv(force_x, mass) as i64, y: spec_fdiv(force_y, mass) as i64 },
            force: Vec2 { x: force_x as i64, y: force_y as i64 },
            mass: mass as i64,
            radius: sat(int_cbrt(self.volume@)) as i64,
        }
    }

    /// The totals of no bodies.
    pub fn zero() -> (t: Totals)
        ensures
            t == Totals::spec_zero(),
            t.wf(),
    {
        Totals {
            mass: 0,
            momentum_x: 0,
            momentum_y: 0,
            moment_x: 0,
            moment_y: 0,
            force_x: 0,
            force_y: 0,
            volume: Volume::zero(),
        }
    }

    /// These totals with the body `b` added.
    pub fn plus(self, b: KinematicBody) -> (t: Totals)
        requires
            self.wf(),
            b.wf(),
        ensures
            t == self.spec_plus(b),
            t.wf(),
            t.mass > 0,
            t.volume@ > 0,
    {
        proof {
            lemma_cube_grows(1, b.radius as int);
        }
        Totals {
            mass: wide_clamp(self.mass + b.mass as i128),
            momentum_x: wide_clamp(self.momentum_x + weighted(b.mass, b.vel.x)),
            momentum_y: wide_clamp(self.momentum_y + weighted(b.mass, b.vel.y)),
            moment_x: wide_clamp(self.moment_x + weighted(b.mass, b.pos.x)),
            moment_y: wide_clamp(self.moment_y + weighted(b.mass, b.pos.y)),
            force_x: wide_clamp(self.force_x + b.force.x as i128),
            force_y: wide_clamp(self.force_y + b.force.y as i128),
            volume: self.volume.plus(Volume::cube_of(b.radius)),
        }
    }

    /// The body that takes the place of the bodies totalled here.
    pub fn merged(self) -> (b: KinematicBody)
        requires
            self.wf(),
            self.mass > 0,
            self.volume@ > 0,
        ensures
            b == self.spec_merged(),
            b.wf(),
    {
        let mass: i64 = saturate(self.mass);
        let force_x: i64 = saturate(self.force_x);
        let force_y: i64 = saturate(self.force_y);
        let radius: i64 = self.volume.cbrt();
        proof {
            lemma_cbrt_exists(self.volume@);
            let c = int_cbrt(self.volume@);
            if c == 0 {
                assert((c + 1) * (c + 1) * (c + 1) == 1) by (nonlinear_arith)
                    requires
                        c == 0,
                ;
            }
        }
        KinematicBody {
            pos: Vec2 {
                x: saturate(quot(self.moment_x, self.mass)),
                y: saturate(quot(self.moment_y, self.mass)),
            },
            vel: Vec2 {
                x: saturate(quot(self.momentum_x, self.mass)),
                y: saturate(quot(self.momentum_y, self.mass)),
            },
            accel: Vec2 { x: fdiv(force_x, mass), y: fdiv(force_y, mass) },
            force: Vec2 { x: force_x, y: force_y },
            mass,
            radius,
        }
    }
}

/// Clamps a running total to `[-WIDE, WIDE]`.
fn wide_clamp(x: i128) -> (r: i128)
    ensures
        r == wclamp(x as int),
        in_wide(r as int),
{
    if x > WIDE {
        WIDE
    } else if x < -WIDE {
        -WIDE
    } else {
        x
    }
}

/// Mass times a velocity or a coordinate, in squared raw units.
fn weighted(mass: i64, value: i64) -> (r: i128)
    requires
        0 < mass <= LIMIT,
        in_range(value as int),
    ensures
        r == mass * value,
        -(LIMIT * LIMIT) <= r <= LIMIT * LIMIT,
{
    assert(-(LIMIT * LIMIT) <= mass * value <= LIMIT * LIMIT) by (nonlinear_arith)
        requires
            0 < mass <= LIMIT,
            -LIMIT <= value <= LIMIT,
    ;
    wide_mul(mass, value)
}

} // verus!
