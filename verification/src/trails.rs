//! Trails: for a body, the last places it has been.
//!
//! A trail is kept beside the simulation, under the handle of its body; the
//! simulation itself knows nothing of it.
use crate::body::Vec2;
use crate::fixed::{sat, saturate};
use crate::store::{handle_index, has_handle, lemma_handle_index_unique, BodyStore, StoredBody};
use std::collections::VecDeque;
use vstd::prelude::*;

verus! {

/// Whether trails are recorded and drawn.
#[derive(Clone, Copy, Debug, PartialEq, Eq, Structural)]
pub struct DrawTrails(pub bool);

/// The handle of the body relative to which trails are recorded, if there is
/// one.
#[derive(Clone, Copy, Debug, PartialEq, Eq, Structural)]
pub struct RelativeTrails(pub Option<u64>);

/// Counts the steps of a forecast, so that its trail takes a point only every
/// so many steps.
#[derive(Clone, Copy, Debug, PartialEq, Eq, Structural)]
pub struct PreviewTrailTick {
    pub current_tick: u8,
    pub tick_increment: u8,
}

/// The last places of a body, oldest first, and how many of them are kept.
pub struct Trail {
    pub points: VecDeque<Vec2>,
    pub max_len: usize,
}

/// A trail as its contracts see it: its points, oldest first, and how many of
/// them it keeps.
pub struct TrailView {
    pub points: Seq<Vec2>,
    pub max_len: usize,
}

/// How many points the trail of a body keeps.
pub const TRAIL_LEN: usize = 125;

/// How many points the trail of a forecast keeps where it stands alone.
pub const PREVIEW_TRAIL_LEN: usize = 10_000;

/// How many points the trail of a forecast keeps where several stand side by
/// side.
pub const MULTI_PREVIEW_TRAIL_LEN: usize = 5_000;

/// The last `max_len` elements of `s`, or all of `s` if it has no more.
pub open spec fn latest(s: Seq<Vec2>, max_len: int) -> Seq<Vec2> {
    if s.len() > max_len {
        s.subrange(s.len() - max_len, s.len() as int)
    } else {
        s
    }
}

/// The step count after a step: one more, and back to zero every
/// `tick_increment` steps. An increment of zero counts as one.
pub open spec fn spec_next_tick(tick: PreviewTrailTick) -> u8 {
    if tick.tick_increment == 0 {
        0
    } else {
        ((tick.current_tick + 1) % (tick.tick_increment as int)) as u8
    }
}

/// The point from which trails are measured: where the body with the handle
/// in `relative` stands, or the origin if there is no such body.
pub open spec fn spec_relative_offset(bodies: Seq<StoredBody>, relative: RelativeTrails) -> Vec2 {
    match relative.0 {
        Some(h) => if has_handle(bodies, h) {
            bodies[handle_index(bodies, h)].body.pos
        } else {
            Vec2 { x: 0, y: 0 }
        },
        None => Vec2 { x: 0, y: 0 },
    }
}

/// The marker of the body relative to which trails are recorded, after a look
/// at the store: it is dropped when its body is gone.
pub open spec fn spec_relative_kept(
    bodies: Seq<StoredBody>,
    relative: RelativeTrails,
) -> RelativeTrails {
    match relative.0 {
        Some(h) => if has_handle(bodies, h) {
            relative
        } else {
            RelativeTrails(None)
        },
        None => relative,
    }
}

impl PreviewTrailTick {
    /// The counter a forecast starts with: every tenth step gives a point.
    pub fn new() -> (tick: PreviewTrailTick)
        ensures
            tick == (PreviewTrailTick { current_tick: 0, tick_increment: 10 }),
    {
        PreviewTrailTick { current_tick: 0, tick_increment: 10 }
    }

    /// Counts one step and says whether it is one that gives a point.
    pub fn advance(&mut self) -> (due: bool)
        ensures
            final(self).tick_increment == old(self).tick_increment,
            final(self).current_tick == spec_next_tick(*old(self)),
            due == (final(self).current_tick == 0),
    {
        if self.tick_increment == 0 {
            self.current_tick = 0;
        } else {
            let next: u16 = self.current_tick as u16 + 1;
            self.current_tick = (next % (self.tick_increment as u16)) as u8;
        }
        self.current_tick == 0
    }
}

impl Trail {
    /// The trail as its contracts see it.
    pub open spec fn view(&self) -> TrailView {
        TrailView { points: self.points@, max_len: self.max_len }
    }

    /// An empty trail that keeps `max_len` points.
    pub fn new(max_len: usize) -> (trail: Trail)
        ensures
            trail@.points == Seq::<Vec2>::empty(),
            trail@.max_len == max_len,
    {
        Trail { points: VecDeque::new(), max_len }
    }

    /// The empty trail of a forecast.
    pub fn preview(multi_preview: bool) -> (trail: Trail)
        ensures
            trail@.points == Seq::<Vec2>::empty(),
            trail@.max_len == if multi_preview {
                MULTI_PREVIEW_TRAIL_LEN
            } else {
                PREVIEW_TRAIL_LEN
            },
    {
        Trail::new(
            if multi_preview {
                MULTI_PREVIEW_TRAIL_LEN
            } else {
                PREVIEW_TRAIL_LEN
            },
        )
    }

    /// Adds the newest place of the body and forgets the oldest places beyond
    /// `max_len`.
    pub fn push(&mut self, point: Vec2)
        ensures
            final(self)@.max_len == old(self)@.max_len,
            final(self)@.points == latest(old(self)@.points.push(point), old(self)@.max_len as int),
    {
        self.points.push_back(point);
        let ghost all = self.points@;
        while self.points.len() > self.max_len
            invariant
                self.max_len == old(self)@.max_len,
                all == old(self)@.points.push(point),
                self.points@.len() <= all.len(),
                self.points@.len() >= self.max_len || self.points@.len() == all.len(),
                self.points@ == all.subrange(all.len() - self.points@.len(), all.len() as int),
            decreases self.points@.len(),
        {
            let _ = self.points.pop_front();
            assert(self.points@ =~= all.subrange(all.len() - self.points@.len(), all.len() as int));
        }
        assert(self.points@ =~= latest(all, self.max_len as int));
    }

    /// Adds the newest place of a forecast, unless the trail is full: a full
    /// trail of a forecast stays as it is.
    pub fn push_preview(&mut self, point: Vec2)
        ensures
            final(self)@.max_len == old(self)@.max_len,
            old(self)@.points.len() == old(self)@.max_len ==> final(self)@.points == old(self)@.points,
            old(self)@.points.len() != old(self)@.max_len ==> final(self)@.points == latest(
                old(self)@.points.push(point),
                old(self)@.max_len as int,
            ),
    {
        if self.points.len() != self.max_len {
            self.push(point);
        }
    }

    /// Forgets every place.
    pub fn clear(&mut self)
        ensures
            final(self)@.max_len == old(self)@.max_len,
            final(self)@.points == Seq::<Vec2>::empty(),
    {
        self.points.clear();
    }

    /// Whether the trail holds as many points as it keeps.
    pub fn is_full(&self) -> (full: bool)
        ensures
            full == (self@.points.len() == self.max_len),
    {
        self.points.len() == self.max_len
    }
}

impl Default for Trail {
    /// The empty trail of a body.
    fn default() -> (trail: Trail)
        ensures
            trail@.points == Seq::<Vec2>::empty(),
            trail@.max_len == TRAIL_LEN,
    {
        Trail::new(TRAIL_LEN)
    }
}

/// The place `pos` as seen from `offset`.
pub fn relative_to(pos: Vec2, offset: Vec2) -> (r: Vec2)
    ensures
        r == (Vec2 { x: sat(pos.x - offset.x) as i64, y: sat(pos.y - offset.y) as i64 }),
{
    Vec2 {
        x: saturate(pos.x as i128 - offset.x as i128),
        y: saturate(pos.y as i128 - offset.y as i128),
    }
}

/// The point from which trails are measured. A marker whose body is gone is
/// dropped, and trails are measured from the origin.
pub fn relative_offset(store: &BodyStore, relative: &mut RelativeTrails) -> (offset: Vec2)
    requires
        store.wf(),
    ensures
        offset == spec_relative_offset(store@.bodies, *old(relative)),
        *final(relative) == spec_relative_kept(store@.bodies, *old(relative)),
{
    match relative.0 {
        Some(h) => {
            proof {
                lemma_handle_index_unique(store@.bodies, h);
            }
            match store.get(h) {
                Ok(e) => e.body.pos,
                Err(_) => {
                    *relative = RelativeTrails(None);
                    Vec2::zero()
                },
            }
        },
        None => Vec2::zero(),
    }
}

} // verus!
