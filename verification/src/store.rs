//! The body store: the live bodies in the order in which they were admitted,
//! each under a handle that is never given out twice.
use crate::body::KinematicBody;
use crate::error::SimError;
use vstd::prelude::*;

verus! {

/// A body as the store holds it: its handle, whether it is a forecast-only
/// preview, and its state.
#[derive(Clone, Copy, Debug, PartialEq, Eq, Structural)]
pub struct StoredBody {
    pub handle: u64,
    pub preview: bool,
    pub body: KinematicBody,
}

/// Whether handles grow strictly along `s`.
pub open spec fn handles_increase(s: Seq<StoredBody>) -> bool {
    forall|i: int, j: int| 0 <= i < j < s.len() ==> s[i].handle < s[j].handle
}

/// Whether `s` can be the content of a store whose next free handle is `next`.
pub open spec fn store_wf(s: Seq<StoredBody>, next: u64) -> bool {
    &&& handles_increase(s)
    &&& forall|i: int| 0 <= i < s.len() ==> (#[trigger] s[i]).handle < next && s[i].body.wf()
}

/// Whether some body of `s` has the handle `h`.
pub open spec fn has_handle(s: Seq<StoredBody>, h: u64) -> bool {
    exists|i: int| 0 <= i < s.len() && (#[trigger] s[i]).handle == h
}

/// The position in `s` of the body with handle `h`.
pub open spec fn handle_index(s: Seq<StoredBody>, h: u64) -> int {
    choose|j: int| 0 <= j < s.len() && (#[trigger] s[j]).handle == h
}

/// In a well-formed content a handle stands at one position only.
pub proof fn lemma_handle_index_unique(s: Seq<StoredBody>, h: u64)
    requires
        handles_increase(s),
    ensures
        forall|i: int| 0 <= i < s.len() && (#[trigger] s[i]).handle == h ==> i == handle_index(s, h),
{
    assert forall|i: int| 0 <= i < s.len() && (#[trigger] s[i]).handle == h implies i
        == handle_index(s, h) by {
        let c = handle_index(s, h);
        if c < i {
            assert(s[c].handle < s[i].handle);
        }
        if i < c {
            assert(s[i].handle < s[c].handle);
        }
    }
}

/// The bodies of `s` whose mark is not set, in their order.
pub open spec fn unmarked(s: Seq<StoredBody>, marks: Seq<bool>) -> Seq<StoredBody>
    recommends
        marks.len() == s.len(),
    decreases s.len(),
{
    if s.len() == 0 {
        s
    } else {
        let rest = unmarked(s.drop_last(), marks.drop_last());
        if marks.last() {
            rest
        } else {
            rest.push(s.last())
        }
    }
}

/// For each body of `s`, whether it is a preview.
pub open spec fn preview_flags(s: Seq<StoredBody>) -> Seq<bool> {
    Seq::new(s.len(), |i: int| s[i].preview)
}

/// The bodies of `s` that are not previews, in their order.
pub open spec fn real_bodies(s: Seq<StoredBody>) -> Seq<StoredBody> {
    unmarked(s, preview_flags(s))
}

/// Every body that `unmarked` keeps stood unmarked in `s`, and the kept bodies
/// stand in the order they had there.
pub proof fn lemma_unmarked_source(s: Seq<StoredBody>, marks: Seq<bool>)
    requires
        marks.len() == s.len(),
    ensures
        unmarked(s, marks).len() <= s.len(),
        forall|k: int|
            0 <= k < unmarked(s, marks).len() ==> exists|i: int|
                k <= i < s.len() && !marks[i] && s[i] == #[trigger] unmarked(s, marks)[k],
        handles_increase(s) ==> handles_increase(unmarked(s, marks)),
    decreases s.len(),
{
    if s.len() > 0 {
        let s0 = s.drop_last();
        let m0 = marks.drop_last();
        lemma_unmarked_source(s0, m0);
        let rest = unmarked(s0, m0);
        let out = unmarked(s, marks);
        assert forall|k: int| 0 <= k < out.len() implies exists|i: int|
            k <= i < s.len() && !marks[i] && s[i] == #[trigger] out[k] by {
            if k < rest.len() {
                let i = choose|i: int| k <= i < s0.len() && !m0[i] && s0[i] == rest[k];
                assert(k <= i < s.len() && !marks[i] && s[i] == out[k]);
            } else {
                let i = s.len() - 1;
                assert(k <= i < s.len() && !marks[i] && s[i] == out[k]);
            }
        }
        if handles_increase(s) {
            assert(handles_increase(s0));
            assert forall|a: int, b: int| 0 <= a < b < out.len() implies out[a].handle
                < out[b].handle by {
                if b == rest.len() {
                    let i = choose|i: int| a <= i < s0.len() && !m0[i] && s0[i] == rest[a];
                    assert(s[i].handle < s[s.len() - 1].handle);
                }
            }
        }
    }
}

/// With no mark set, `unmarked` keeps every body.
pub proof fn lemma_unmarked_none(s: Seq<StoredBody>, marks: Seq<bool>)
    requires
        marks.len() == s.len(),
        forall|i: int| 0 <= i < marks.len() ==> !marks[i],
    ensures
        unmarked(s, marks) == s,
    decreases s.len(),
{
    if s.len() > 0 {
        lemma_unmarked_none(s.drop_last(), marks.drop_last());
        assert(s.drop_last().push(s.last()) =~= s);
    } else {
        assert(unmarked(s, marks) =~= s);
    }
}

/// A store as its contracts see it: the bodies in the order in which they were
/// admitted, and the handle that the next admitted body will get.
pub struct StoreView {
    pub bodies: Seq<StoredBody>,
    pub next_handle: u64,
}

/// The live bodies of a simulation.
pub struct BodyStore {
    entries: Vec<StoredBody>,
    next_handle: u64,
}

impl BodyStore {
    /// The store as its contracts see it.
    pub closed spec fn view(&self) -> StoreView {
        StoreView { bodies: self.entries@, next_handle: self.next_handle }
    }

    /// The invariant of the store: handles grow strictly along the bodies, none
    /// has been given out twice, and every body is well formed.
    pub open spec fn wf(&self) -> bool {
        store_wf(self@.bodies, self@.next_handle)
    }

    /// An empty store.
    pub fn new() -> (s: BodyStore)
        ensures
            s.wf(),
            s@.bodies == Seq::<StoredBody>::empty(),
            s@.next_handle == 0,
    {
        BodyStore { entries: Vec::new(), next_handle: 0 }
    }

    /// An empty store whose first body will get the handle `next`.
    pub fn starting_at(next: u64) -> (s: BodyStore)
        ensures
            s.wf(),
            s@.bodies == Seq::<StoredBody>::empty(),
            s@.next_handle == next,
    {
        BodyStore { entries: Vec::new(), next_handle: next }
    }

    /// The number of live bodies, previews included.
    pub fn len(&self) -> (n: usize)
        ensures
            n == self@.bodies.len(),
    {
        self.entries.len()
    }

    /// The handle that the next admitted body will get.
    pub fn next_handle(&self) -> (h: u64)
        ensures
            h == self@.next_handle,
    {
        self.next_handle
    }

    /// The body at position `i`.
    pub fn entry(&self, i: usize) -> (e: StoredBody)
        requires
            i < self@.bodies.len(),
        ensures
            e == self@.bodies[i as int],
    {
        self.entries[i]
    }

    /// Replaces the state of the body at position `i`, keeping its handle and
    /// its preview flag.
    pub fn set_body(&mut self, i: usize, body: KinematicBody)
        requires
            old(self).wf(),
            i < old(self)@.bodies.len(),
            body.wf(),
        ensures
            final(self).wf(),
            final(self)@.next_handle == old(self)@.next_handle,
            final(self)@.bodies == old(self)@.bodies.update(
                i as int,
                StoredBody { body, ..old(self)@.bodies[i as int] },
            ),
    {
        let e = self.entries[i];
        self.entries[i] = StoredBody { handle: e.handle, preview: e.preview, body };
    }

    /// Stores `body` under a fresh handle, as a preview or not.
    fn insert(&mut self, body: KinematicBody, preview: bool) -> (r: Result<u64, SimError>)
        requires
            old(self).wf(),
        ensures
            final(self).wf(),
            r == spec_spawn_result(old(self)@.next_handle, body),
            r is Ok ==> final(self)@.bodies == old(self)@.bodies.push(
                StoredBody { handle: old(self)@.next_handle, preview, body: body.spec_clamped() },
            ) && final(self)@.next_handle == old(self)@.next_handle + 1,
            r is Err ==> final(self)@ == old(self)@,
    {
        if !body.is_valid() {
            return Err(SimError::InvalidBodyParameters);
        }
        if self.next_handle == u64::MAX {
            return Err(SimError::HandlesExhausted);
        }
        let handle = self.next_handle;
        self.entries.push(StoredBody { handle, preview, body: body.clamped() });
        self.next_handle = handle + 1;
        Ok(handle)
    }

    /// Admits a body to the simulation and returns its handle.
    ///
    /// A body whose mass or radius is not positive is turned down and the store
    /// is left as it was. Scalars outside the range of stored scalars are
    /// clamped to it.
    pub fn spawn(&mut self, body: KinematicBody) -> (r: Result<u64, SimError>)
        requires
            old(self).wf(),
        ensures
            final(self).wf(),
            r == spec_spawn_result(old(self)@.next_handle, body),
            r is Ok ==> final(self)@.bodies == old(self)@.bodies.push(
                StoredBody {
                    handle: old(self)@.next_handle,
                    preview: false,
                    body: body.spec_clamped(),
                },
            ) && final(self)@.next_handle == old(self)@.next_handle + 1,
            r is Err ==> final(self)@ == old(self)@,
    {
        self.insert(body, false)
    }

    /// Admits a forecast-only body and returns its handle; otherwise as `spawn`.
    pub fn spawn_preview(&mut self, body: KinematicBody) -> (r: Result<u64, SimError>)
        requires
            old(self).wf(),
        ensures
            final(self).wf(),
            r == spec_spawn_result(old(self)@.next_handle, body),
            r is Ok ==> final(self)@.bodies == old(self)@.bodies.push(
                StoredBody {
                    handle: old(self)@.next_handle,
                    preview: true,
                    body: body.spec_clamped(),
                },
            ) && final(self)@.next_handle == old(self)@.next_handle + 1,
            r is Err ==> final(self)@ == old(self)@,
    {
        self.insert(body, true)
    }

    /// The position of the body with handle `h`, if it is alive.
    pub fn find(&self, h: u64) -> (r: Option<usize>)
        requires
            self.wf(),
        ensures
            r is Some <==> has_handle(self@.bodies, h),
            r matches Some(i) ==> i < self@.bodies.len() && self@.bodies[i as int].handle == h,
    {
        let mut i: usize = 0;
        while i < self.entries.len()
            invariant
                i <= self.entries@.len(),
                forall|k: int| 0 <= k < i ==> (#[trigger] self.entries@[k]).handle != h,
            decreases self.entries@.len() - i,
        {
            if self.entries[i].handle == h {
                return Some(i);
            }
            i += 1;
        }
        None
    }

    /// The body with handle `h`, or `StaleHandle` if no live body has it.
    pub fn get(&self, h: u64) -> (r: Result<StoredBody, SimError>)
        requires
            self.wf(),
        ensures
            r is Ok <==> has_handle(self@.bodies, h),
            r matches Ok(e) ==> e.handle == h && e == self@.bodies[handle_index(self@.bodies, h)],
            r matches Err(e) ==> e == SimError::StaleHandle,
    {
        proof {
            lemma_handle_index_unique(self@.bodies, h);
        }
        match self.find(h) {
            Some(i) => Ok(self.entries[i]),
            None => Err(SimError::StaleHandle),
        }
    }

    /// Replaces the state of the body with handle `h`.
    ///
    /// Fails with `StaleHandle` if no live body has the handle, and with
    /// `InvalidBodyParameters` if the new mass or radius is not positive; the
    /// store is then left as it was.
    pub fn replace(&mut self, h: u64, body: KinematicBody) -> (r: Result<(), SimError>)
        requires
            old(self).wf(),
        ensures
            final(self).wf(),
            final(self)@.next_handle == old(self)@.next_handle,
            r == spec_replace_result(old(self)@.bodies, h, body),
            r is Err ==> final(self)@ == old(self)@,
            r is Ok ==> final(self)@.bodies == old(self)@.bodies.update(
                handle_index(old(self)@.bodies, h),
                StoredBody {
                    body: body.spec_clamped(),
                    ..old(self)@.bodies[handle_index(old(self)@.bodies, h)]
                },
            ),
    {
        proof {
            lemma_handle_index_unique(self@.bodies, h);
        }
        match self.find(h) {
            Some(i) => {
                if body.is_valid() {
                    self.set_body(i, body.clamped());
                    Ok(())
                } else {
                    Err(SimError::InvalidBodyParameters)
                }
            },
            None => Err(SimError::StaleHandle),
        }
    }

    /// Removes the body at position `i`.
    pub fn remove_at(&mut self, i: usize) -> (e: StoredBody)
        requires
            old(self).wf(),
            i < old(self)@.bodies.len(),
        ensures
            final(self).wf(),
            final(self)@.next_handle == old(self)@.next_handle,
            e == old(self)@.bodies[i as int],
            final(self)@.bodies == old(self)@.bodies.remove(i as int),
    {
        self.entries.remove(i)
    }

    /// Deletes the body with handle `h`, or fails with `StaleHandle` and leaves
    /// the store as it was.
    pub fn despawn(&mut self, h: u64) -> (r: Result<StoredBody, SimError>)
        requires
            old(self).wf(),
        ensures
            final(self).wf(),
            final(self)@.next_handle == old(self)@.next_handle,
            r is Ok <==> has_handle(old(self)@.bodies, h),
            r matches Err(e) ==> e == SimError::StaleHandle && final(self)@ == old(self)@,
            r matches Ok(e) ==> {
                &&& e == old(self)@.bodies[handle_index(old(self)@.bodies, h)]
                &&& !has_handle(final(self)@.bodies, h)
                &&& final(self)@.bodies == old(self)@.bodies.remove(
                    handle_index(old(self)@.bodies, h),
                )
            },
    {
        proof {
            lemma_handle_index_unique(self@.bodies, h);
        }
        match self.find(h) {
            Some(i) => {
                let e = self.remove_at(i);
                proof {
                    let s = old(self)@.bodies;
                    let t = self@.bodies;
                    assert forall|k: int| 0 <= k < t.len() implies (#[trigger] t[k]).handle
                        != h by {
                        if k < i {
                            assert(t[k] == s[k]);
                        } else {
                            assert(t[k] == s[k + 1]);
                        }
                    }
                }
                Ok(e)
            },
            None => Err(SimError::StaleHandle),
        }
    }

    /// Removes every body whose mark is set.
    pub fn remove_marked(&mut self, marks: &Vec<bool>)
        requires
            old(self).wf(),
            marks@.len() == old(self)@.bodies.len(),
        ensures
            final(self).wf(),
            final(self)@.next_handle == old(self)@.next_handle,
            final(self)@.bodies == unmarked(old(self)@.bodies, marks@),
    {
        let n = self.entries.len();
        let mut kept: Vec<StoredBody> = Vec::new();
        let mut i: usize = 0;
        while i < n
            invariant
                i <= n,
                n == self.entries@.len(),
                n == marks@.len(),
                kept@ == unmarked(self.entries@.take(i as int), marks@.take(i as int)),
            decreases n - i,
        {
            proof {
                assert(self.entries@.take(i + 1).drop_last() =~= self.entries@.take(i as int));
                assert(marks@.take(i + 1).drop_last() =~= marks@.take(i as int));
            }
            if !marks[i] {
                kept.push(self.entries[i]);
            }
            i += 1;
        }
        proof {
            assert(self.entries@.take(n as int) =~= self.entries@);
            assert(marks@.take(n as int) =~= marks@);
            lemma_unmarked_source(self.entries@, marks@);
        }
        self.entries = kept;
    }

    /// Deletes every preview body.
    pub fn clear_previews(&mut self)
        requires
            old(self).wf(),
        ensures
            final(self).wf(),
            final(self)@.next_handle == old(self)@.next_handle,
            final(self)@.bodies == real_bodies(old(self)@.bodies),
    {
        let n = self.entries.len();
        let mut marks: Vec<bool> = Vec::new();
        let mut i: usize = 0;
        while i < n
            invariant
                i <= n,
                n == self.entries@.len(),
                marks@.len() == i,
                forall|k: int| 0 <= k < i ==> marks@[k] == self.entries@[k].preview,
            decreases n - i,
        {
            marks.push(self.entries[i].preview);
            i += 1;
        }
        assert(marks@ =~= preview_flags(self@.bodies));
        self.remove_marked(&marks);
    }

    /// The states of all live bodies with their handles and preview flags, in
    /// the order of the store.
    pub fn snapshot(&self) -> (v: Vec<StoredBody>)
        ensures
            v@ == self@.bodies,
    {
        self.entries.clone()
    }
}

/// What admitting `body` returns when the next free handle is `next`.
pub open spec fn spec_spawn_result(next: u64, body: KinematicBody) -> Result<u64, SimError> {
    if !body.spec_is_valid() {
        Err(SimError::InvalidBodyParameters)
    } else if next == u64::MAX {
        Err(SimError::HandlesExhausted)
    } else {
        Ok(next)
    }
}

/// What replacing the state of the body with handle `h` by `body` returns for
/// the content `s`.
pub open spec fn spec_replace_result(s: Seq<StoredBody>, h: u64, body: KinematicBody) -> Result<
    (),
    SimError,
> {
    if !has_handle(s, h) {
        Err(SimError::StaleHandle)
    } else if !body.spec_is_valid() {
        Err(SimError::InvalidBodyParameters)
    } else {
        Ok(())
    }
}

} // verus!
