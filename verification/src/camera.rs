//! The camera: the part of the world that is looked at, and the body it
//! follows.
use crate::body::Vec2;
use crate::fixed::{lemma_trunc_div_bounds, quot, sat, saturate, trunc_div};
use crate::store::{handle_index, has_handle, lemma_handle_index_unique, BodyStore, StoredBody};
use vstd::prelude::*;

verus! {

/// Where the camera looks and how much it sees, in world coordinates.
#[derive(Clone, Copy, Debug, PartialEq, Eq, Structural)]
pub struct CameraRes {
    pub target: Vec2,
    pub screen_size: Vec2,
}

/// The handle of the body that the camera follows, if there is one.
#[derive(Clone, Copy, Debug, PartialEq, Eq, Structural)]
pub struct FollowBody(pub Option<u64>);

/// Which of the keys that move the camera are held.
#[derive(Clone, Copy, Debug, PartialEq, Eq, Structural)]
pub struct CameraKeys {
    pub up: bool,
    pub down: bool,
    pub left: bool,
    pub right: bool,
}

/// How far the camera moves in a frame along an axis whose key is held: one
/// and a half.
pub const CAMERA_SPEED: i64 = 0x180_0000;

impl CameraRes {
    /// Whether the camera sees `point`: it lies within half the screen size of
    /// the target, the left and upper edge counted in, the right and lower edge
    /// not.
    pub open spec fn spec_contains_point(self, point: Vec2) -> bool {
        let half_x = trunc_div(self.screen_size.x as int, 2);
        let half_y = trunc_div(self.screen_size.y as int, 2);
        &&& self.target.x - half_x <= point.x < self.target.x + half_x
        &&& self.target.y - half_y <= point.y < self.target.y + half_y
    }

    /// Whether the camera sees `point`.
    pub fn contains_point(&self, point: &Vec2) -> (seen: bool)
        ensures
            seen == self.spec_contains_point(*point),
    {
        proof {
            lemma_trunc_div_bounds(self.screen_size.x as int, 2);
            lemma_trunc_div_bounds(self.screen_size.y as int, 2);
        }
        let half_x: i128 = quot(self.screen_size.x as i128, 2);
        let half_y: i128 = quot(self.screen_size.y as i128, 2);
        let x: i128 = point.x as i128;
        let y: i128 = point.y as i128;
        let left: i128 = self.target.x as i128 - half_x;
        let right: i128 = self.target.x as i128 + half_x;
        let top: i128 = self.target.y as i128 - half_y;
        let bottom: i128 = self.target.y as i128 + half_y;
        left <= x && x < right && top <= y && y < bottom
    }
}

/// The movement of the camera in a frame: `CAMERA_SPEED` along each axis whose
/// key is held, nothing along an axis of which both keys or none are held.
pub open spec fn spec_offset(keys: CameraKeys) -> Vec2 {
    Vec2 {
        x: ((if keys.right {
            CAMERA_SPEED as int
        } else {
            0
        }) - (if keys.left {
            CAMERA_SPEED as int
        } else {
            0
        })) as i64,
        y: ((if keys.down {
            CAMERA_SPEED as int
        } else {
            0
        }) - (if keys.up {
            CAMERA_SPEED as int
        } else {
            0
        })) as i64,
    }
}

/// The movement of the camera in a frame.
pub fn calc_offset(keys: &CameraKeys) -> (offset: Vec2)
    ensures
        offset == spec_offset(*keys),
{
    let mut offset = Vec2::zero();
    if keys.up {
        offset.y = offset.y - CAMERA_SPEED;
    }
    if keys.down {
        offset.y = offset.y + CAMERA_SPEED;
    }
    if keys.left {
        offset.x = offset.x - CAMERA_SPEED;
    }
    if keys.right {
        offset.x = offset.x + CAMERA_SPEED;
    }
    offset
}

/// The camera after it has looked for the body it follows: on that body if it
/// is alive, where it was otherwise.
pub open spec fn spec_followed(
    bodies: Seq<StoredBody>,
    camera: CameraRes,
    followed: FollowBody,
) -> CameraRes {
    match followed.0 {
        Some(h) => if has_handle(bodies, h) {
            CameraRes { target: bodies[handle_index(bodies, h)].body.pos, ..camera }
        } else {
            camera
        },
        None => camera,
    }
}

/// The marker of the followed body after the camera has looked for it: it is
/// dropped when the body is gone.
pub open spec fn spec_follow_kept(bodies: Seq<StoredBody>, followed: FollowBody) -> FollowBody {
    match followed.0 {
        Some(h) => if has_handle(bodies, h) {
            followed
        } else {
            FollowBody(None)
        },
        None => followed,
    }
}

/// Moves the camera onto the body it follows. A body that is gone, merged away
/// or deleted, is no longer followed, and the camera stays where it was.
pub fn camera_follow_sys(camera: &mut CameraRes, followed: &mut FollowBody, store: &BodyStore)
    requires
        store.wf(),
    ensures
        *final(camera) == spec_followed(store@.bodies, *old(camera), *old(followed)),
        *final(followed) == spec_follow_kept(store@.bodies, *old(followed)),
{
    match followed.0 {
        Some(h) => {
            proof {
                lemma_handle_index_unique(store@.bodies, h);
            }
            match store.get(h) {
                Ok(e) => {
                    camera.target = e.body.pos;
                },
                Err(_) => {
                    *followed = FollowBody(None);
                },
            }
        },
        None => {},
    }
}

/// Moves the camera by `offset`.
pub fn update_camera_sys(camera: &mut CameraRes, offset: Vec2)
    ensures
        final(camera).screen_size == old(camera).screen_size,
        final(camera).target == (Vec2 {
            x: sat(old(camera).target.x + offset.x) as i64,
            y: sat(old(camera).target.y + offset.y) as i64,
        }),
{
    camera.target = Vec2 {
        x: saturate(camera.target.x as i128 + offset.x as i128),
        y: saturate(camera.target.y as i128 + offset.y as i128),
    };
}

} // verus!
