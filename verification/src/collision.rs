//! The collision resolver: bodies whose discs touch are merged into one.
//!
//! The bodies are visited in the order of the store. A body that has not been
//! absorbed yet absorbs every later body that touches it and has not been
//! absorbed either, so the first body of a group is the one that survives, under
//! its own handle. Whether two bodies touch is judged on their state before the
//! pass. Previews take no part.
use crate::body::KinematicBody;
use crate::fixed::wide_mul;
use crate::gravity::{dist_sq, dist_squared};
use crate::merge::Totals;
use crate::resources::{InspectedEntity, NewPreview, Paused, PhysicsToggles};
use crate::store::{
    handle_index, handles_increase, has_handle, unmarked, BodyStore, StoredBody,
};
use vstd::prelude::*;

verus! {

/// Whether the discs of two bodies touch or overlap: the distance between the
/// centres is at most the sum of the radii.
pub open spec fn overlaps(a: KinematicBody, b: KinematicBody) -> bool {
    dist_sq(a.pos, b.pos) <= (a.radius + b.radius) * (a.radius + b.radius)
}

/// Whether body `i` of `s`, at its turn, absorbs the later body `j`: both are
/// real, neither has been absorbed so far, and they touch.
pub open spec fn claims(s: Seq<StoredBody>, owner: Seq<int>, i: int, j: int) -> bool {
    &&& 0 <= i < j < s.len()
    &&& !s[i].preview
    &&& owner[i] == i
    &&& !s[j].preview
    &&& owner[j] == j
    &&& overlaps(s[i].body, s[j].body)
}

/// The owners after the turn of body `i`, `owner` being the owners before it.
pub open spec fn owners_step(s: Seq<StoredBody>, owner: Seq<int>, i: int) -> Seq<int> {
    Seq::new(
        s.len(),
        |j: int|
            if claims(s, owner, i, j) {
                i
            } else {
                owner[j]
            },
    )
}

/// For each body of `s`, the position of the body that has absorbed it once the
/// first `i` bodies have had their turn; its own position if none has.
pub open spec fn owners_after(s: Seq<StoredBody>, i: int) -> Seq<int>
    decreases i,
{
    if i <= 0 {
        Seq::new(s.len(), |j: int| j)
    } else {
        owners_step(s, owners_after(s, i - 1), i - 1)
    }
}

/// For each body of `s`, the position of the body it ends up in after a whole
/// pass.
pub open spec fn final_owners(s: Seq<StoredBody>) -> Seq<int> {
    owners_after(s, s.len() as int)
}

/// For each body, whether it ends up in body `i`.
pub open spec fn members(owner: Seq<int>, i: int) -> Seq<bool> {
    Seq::new(owner.len(), |k: int| owner[k] == i)
}

/// Whether body `i` has absorbed another body.
pub open spec fn has_partner(owner: Seq<int>, i: int) -> bool {
    exists|j: int| 0 <= j < owner.len() && j != i && #[trigger] owner[j] == i
}

/// The totals of those among the first `n` bodies of `s` that are members.
pub open spec fn totals_of(s: Seq<StoredBody>, member: Seq<bool>, n: int) -> Totals
    decreases n,
{
    if n <= 0 {
        Totals::spec_zero()
    } else {
        let t = totals_of(s, member, n - 1);
        if member[n - 1] {
            t.spec_plus(s[n - 1].body)
        } else {
            t
        }
    }
}

/// Body `i` of `s` after the pass, if it is still there: merged with the bodies
/// it absorbed, or as it was if it absorbed none.
pub open spec fn resolved(s: Seq<StoredBody>, owner: Seq<int>, i: int) -> StoredBody {
    if owner[i] == i && has_partner(owner, i) {
        StoredBody { body: totals_of(s, members(owner, i), s.len() as int).spec_merged(), ..s[i] }
    } else {
        s[i]
    }
}

/// For each body, whether another body has absorbed it.
pub open spec fn consumed_flags(owner: Seq<int>) -> Seq<bool> {
    Seq::new(owner.len(), |j: int| owner[j] != j)
}

/// The content `s` after a collision pass.
pub open spec fn spec_collide(s: Seq<StoredBody>) -> Seq<StoredBody> {
    let owner = final_owners(s);
    unmarked(Seq::new(s.len(), |i: int| resolved(s, owner, i)), consumed_flags(owner))
}

/// For each body of `s`, the handle of the body it ends up in after a pass.
pub open spec fn spec_heirs(s: Seq<StoredBody>) -> Seq<u64> {
    Seq::new(s.len(), |j: int| s[final_owners(s)[j]].handle)
}

/// For each body of `s`, its own handle.
pub open spec fn spec_handles(s: Seq<StoredBody>) -> Seq<u64> {
    Seq::new(s.len(), |j: int| s[j].handle)
}

/// Whether a collision pass does anything under these settings.
pub open spec fn collisions_enabled(paused: Paused, toggles: PhysicsToggles) -> bool {
    !paused.0 && toggles.collisions
}

/// A body is owned by itself or by an earlier body.
pub proof fn lemma_owner_not_later(s: Seq<StoredBody>, i: int, k: int)
    requires
        0 <= i <= s.len(),
        0 <= k < s.len(),
    ensures
        owners_after(s, i).len() == s.len(),
        0 <= owners_after(s, i)[k] <= k,
        owners_after(s, i)[k] != k ==> owners_after(s, i)[k] < i,
    decreases i,
{
    if i > 0 {
        lemma_owner_not_later(s, i - 1, k);
    }
}

/// Whether the discs of two bodies touch or overlap.
pub fn touching(a: &KinematicBody, b: &KinematicBody) -> (r: bool)
    requires
        a.wf(),
        b.wf(),
    ensures
        r == overlaps(*a, *b),
{
    let reach: i64 = a.radius + b.radius;
    dist_squared(a.pos, b.pos) <= wide_mul(reach, reach)
}

/// Whether `v`, read as integers, is the sequence `o`.
pub open spec fn same_owners(v: Seq<usize>, o: Seq<int>) -> bool {
    v.len() == o.len() && forall|k: int| 0 <= k < v.len() ==> v[k] as int == #[trigger] o[k]
}

/// Decides, for each body of `bodies`, which body it ends up in.
fn assign_owners(bodies: &Vec<StoredBody>) -> (owner: Vec<usize>)
    requires
        forall|k: int| 0 <= k < bodies@.len() ==> (#[trigger] bodies@[k]).body.wf(),
    ensures
        same_owners(owner@, final_owners(bodies@)),
        forall|k: int| 0 <= k < owner@.len() ==> #[trigger] owner@[k] <= k,
{
    let n = bodies.len();
    let mut owner: Vec<usize> = Vec::new();
    let mut k: usize = 0;
    while k < n
        invariant
            k <= n,
            owner@.len() == k,
            forall|t: int| 0 <= t < k ==> owner@[t] == t,
        decreases n - k,
    {
        owner.push(k);
        k += 1;
    }
    let mut i: usize = 0;
    while i < n
        invariant
            i <= n,
            n == bodies@.len(),
            forall|k: int| 0 <= k < bodies@.len() ==> (#[trigger] bodies@[k]).body.wf(),
            same_owners(owner@, owners_after(bodies@, i as int)),
            owner@.len() == n,
        decreases n - i,
    {
        let ghost start = owners_after(bodies@, i as int);
        let first = bodies[i];
        if !first.preview && owner[i] == i {
            let mut j: usize = i + 1;
            while j < n
                invariant
                    i < j <= n,
                    n == bodies@.len(),
                    first == bodies@[i as int],
                    !first.preview,
                    forall|k: int| 0 <= k < bodies@.len() ==> (#[trigger] bodies@[k]).body.wf(),
                    start.len() == n,
                    start[i as int] == i,
                    owner@.len() == n,
                    forall|k: int|
                        0 <= k < n ==> owner@[k] as int == (if k < j && claims(
                            bodies@,
                            start,
                            i as int,
                            k,
                        ) {
                            i as int
                        } else {
                            #[trigger] start[k]
                        }),
                decreases n - j,
            {
                let other = bodies[j];
                if !other.preview && owner[j] == j && touching(&first.body, &other.body) {
                    owner[j] = i;
                }
                j += 1;
            }
        }
        proof {
            let next = owners_step(bodies@, start, i as int);
            assert forall|k: int| 0 <= k < n implies owner@[k] as int == #[trigger] next[k] by {}
            assert(owners_after(bodies@, i + 1) == next);
        }
        i += 1;
    }
    proof {
        assert forall|k: int| 0 <= k < owner@.len() implies #[trigger] owner@[k] <= k by {
            lemma_owner_not_later(bodies@, n as int, k);
        }
    }
    owner
}

/// Replaces every body of `store` that has absorbed others by the merged body.
fn merge_groups(store: &mut BodyStore, owner: &Vec<usize>)
    requires
        old(store).wf(),
        owner@.len() == old(store)@.bodies.len(),
        forall|k: int| 0 <= k < owner@.len() ==> #[trigger] owner@[k] <= k,
    ensures
        final(store).wf(),
        final(store)@.next_handle == old(store)@.next_handle,
        final(store)@.bodies == Seq::new(
            old(store)@.bodies.len(),
            |i: int| resolved(old(store)@.bodies, owner@.map_values(|x: usize| x as int), i),
        ),
{
    let before = store.snapshot();
    let n = store.len();
    let ghost o = owner@.map_values(|x: usize| x as int);
    let mut i: usize = 0;
    while i < n
        invariant
            i <= n,
            store.wf(),
            old(store).wf(),
            store@.next_handle == old(store)@.next_handle,
            before@ == old(store)@.bodies,
            store@.bodies.len() == n,
            before@.len() == n,
            owner@.len() == n,
            o == owner@.map_values(|x: usize| x as int),
            forall|k: int| 0 <= k < i ==> store@.bodies[k] == resolved(before@, o, k),
            forall|k: int| i <= k < n ==> store@.bodies[k] == #[trigger] before@[k],
        decreases n - i,
    {
        if owner[i] == i {
            let ghost member = members(o, i as int);
            let mut t = Totals::zero();
            let mut found = false;
            let mut k: usize = 0;
            while k < n
                invariant
                    k <= n,
                    i < n,
                    before@.len() == n,
                    owner@.len() == n,
                    old(store).wf(),
                    before@ == old(store)@.bodies,
                    o == owner@.map_values(|x: usize| x as int),
                    member == members(o, i as int),
                    owner@[i as int] == i,
                    t.wf(),
                    t == totals_of(before@, member, k as int),
                    k > i ==> t.mass > 0 && t.volume@ > 0,
                    found <==> exists|j: int| 0 <= j < k && j != i && #[trigger] o[j] == i,
                decreases n - k,
            {
                if owner[k] == i {
                    t = t.plus(before[k].body);
                    if k != i {
                        found = true;
                        assert(o[k as int] == i);
                    }
                }
                k += 1;
            }
            if found {
                store.set_body(i, t.merged());
            }
        }
        i += 1;
    }
    assert(store@.bodies =~= Seq::new(before@.len(), |i: int| resolved(before@, o, i)));
}

/// Merges the bodies of `store` that touch, and returns for each body that was
/// there before the pass the handle of the body it ends up in.
pub fn collide(store: &mut BodyStore) -> (heirs: Vec<u64>)
    requires
        old(store).wf(),
    ensures
        final(store).wf(),
        final(store)@.next_handle == old(store)@.next_handle,
        final(store)@.bodies == spec_collide(old(store)@.bodies),
        heirs@ == spec_heirs(old(store)@.bodies),
{
    let before = store.snapshot();
    let n = before.len();
    let owner = assign_owners(&before);
    let ghost o = final_owners(before@);
    assert(owner@.map_values(|x: usize| x as int) =~= o);
    merge_groups(store, &owner);
    let mut marks: Vec<bool> = Vec::new();
    let mut heirs: Vec<u64> = Vec::new();
    let mut j: usize = 0;
    while j < n
        invariant
            j <= n,
            n == before@.len(),
            owner@.len() == n,
            same_owners(owner@, o),
            forall|k: int| 0 <= k < owner@.len() ==> #[trigger] owner@[k] <= k,
            marks@.len() == j,
            heirs@.len() == j,
            forall|k: int| 0 <= k < j ==> marks@[k] == (o[k] != k),
            forall|k: int| 0 <= k < j ==> heirs@[k] == before@[o[k]].handle,
        decreases n - j,
    {
        marks.push(owner[j] != j);
        heirs.push(before[owner[j]].handle);
        j += 1;
    }
    assert(marks@ =~= consumed_flags(o));
    assert(heirs@ =~= spec_heirs(before@));
    store.remove_marked(&marks);
    heirs
}

/// The handle under which the body that had handle `h` before a pass over `s`
/// lives on after it: the handle of the body that absorbed it, or `h` itself if
/// it was not absorbed or was not there at all.
pub open spec fn spec_heir(s: Seq<StoredBody>, h: u64) -> u64 {
    if has_handle(s, h) {
        spec_heirs(s)[handle_index(s, h)]
    } else {
        h
    }
}

/// What a marker that pointed at `marker` before a pass over `s` points at
/// after it.
pub open spec fn spec_inherit(s: Seq<StoredBody>, marker: Option<u64>) -> Option<u64> {
    match marker {
        Some(h) => Some(spec_heir(s, h)),
        None => None,
    }
}

/// The handle under which the body that had handle `h` lives on, given the
/// bodies as they stood before a pass and the heirs that the pass returned.
pub fn heir_of(before: &Vec<StoredBody>, heirs: &Vec<u64>, h: u64) -> (r: u64)
    requires
        handles_increase(before@),
        heirs@.len() == before@.len(),
    ensures
        has_handle(before@, h) ==> r == heirs@[handle_index(before@, h)],
        !has_handle(before@, h) ==> r == h,
{
    let n = before.len();
    let mut j: usize = 0;
    while j < n
        invariant
            j <= n,
            n == before@.len(),
            heirs@.len() == n,
            handles_increase(before@),
            forall|k: int| 0 <= k < j ==> (#[trigger] before@[k]).handle != h,
        decreases n - j,
    {
        if before[j].handle == h {
            proof {
                assert(before@[j as int].handle == h);
                assert(has_handle(before@, h));
                let c = handle_index(before@, h);
                if c < j {
                    assert(before@[c].handle < before@[j as int].handle);
                }
                if j < c {
                    assert(before@[j as int].handle < before@[c].handle);
                }
            }
            return heirs[j];
        }
        j += 1;
    }
    h
}

/// Merges the bodies that touch, unless the simulation is paused or collisions
/// are switched off, and lets the marker of the inspected body pass on to the
/// body that absorbed it.
///
/// Returns, for each body that was there before the pass, the handle of the
/// body it ends up in, so that whatever else is kept per body can follow.
pub fn collision_sys(
    store: &mut BodyStore,
    inspected: &mut InspectedEntity,
    toggles: PhysicsToggles,
    paused: Paused,
) -> (heirs: Vec<u64>)
    requires
        old(store).wf(),
    ensures
        final(store).wf(),
        final(store)@.next_handle == old(store)@.next_handle,
        collisions_enabled(paused, toggles) ==> {
            &&& final(store)@.bodies == spec_collide(old(store)@.bodies)
            &&& heirs@ == spec_heirs(old(store)@.bodies)
            &&& final(inspected).0 == spec_inherit(old(store)@.bodies, old(inspected).0)
        },
        !collisions_enabled(paused, toggles) ==> {
            &&& final(store)@.bodies == old(store)@.bodies
            &&& heirs@ == spec_handles(old(store)@.bodies)
            &&& final(inspected).0 == old(inspected).0
        },
{
    let before = store.snapshot();
    if paused.0 || !toggles.collisions {
        let n = before.len();
        let mut handles: Vec<u64> = Vec::new();
        let mut j: usize = 0;
        while j < n
            invariant
                j <= n,
                n == before@.len(),
                handles@.len() == j,
                forall|k: int| 0 <= k < j ==> handles@[k] == before@[k].handle,
            decreases n - j,
        {
            handles.push(before[j].handle);
            j += 1;
        }
        assert(handles@ =~= spec_handles(before@));
        return handles;
    }
    let heirs = collide(store);
    match inspected.0 {
        Some(h) => {
            inspected.0 = Some(heir_of(&before, &heirs, h));
        },
        None => {},
    }
    heirs
}

/// Whether preview `i` of `s` lies within reach of a body that is not a
/// preview.
pub open spec fn preview_hit(s: Seq<StoredBody>, i: int) -> bool {
    s[i].preview && exists|j: int|
        0 <= j < s.len() && !(#[trigger] s[j]).preview && overlaps(s[i].body, s[j].body)
}

/// For each body of `s`, whether it is a preview within reach of a body that is
/// not.
pub open spec fn hit_flags(s: Seq<StoredBody>) -> Seq<bool> {
    Seq::new(s.len(), |i: int| preview_hit(s, i))
}

/// The content `s` after the previews that ran into a body are deleted.
pub open spec fn spec_preview_collide(s: Seq<StoredBody>) -> Seq<StoredBody> {
    unmarked(s, hit_flags(s))
}

/// Whether some preview of `s` lies within reach of a body that is not a
/// preview.
pub open spec fn any_preview_hit(s: Seq<StoredBody>) -> bool {
    exists|i: int| 0 <= i < s.len() && preview_hit(s, i)
}

/// Deletes every preview that touches a body which is not a preview, and says
/// whether there was one. Nothing is merged, and previews do not collide with
/// each other.
pub fn preview_collision_sys(store: &mut BodyStore) -> (hit: NewPreview)
    requires
        old(store).wf(),
    ensures
        final(store).wf(),
        final(store)@.next_handle == old(store)@.next_handle,
        final(store)@.bodies == spec_preview_collide(old(store)@.bodies),
        hit.0 == any_preview_hit(old(store)@.bodies),
{
    let before = store.snapshot();
    let n = before.len();
    let mut marks: Vec<bool> = Vec::new();
    let mut any = false;
    let mut i: usize = 0;
    while i < n
        invariant
            i <= n,
            n == before@.len(),
            before@ == old(store)@.bodies,
            old(store).wf(),
            marks@.len() == i,
            forall|k: int| 0 <= k < i ==> marks@[k] == preview_hit(before@, k),
            any <==> exists|k: int| 0 <= k < i && preview_hit(before@, k),
        decreases n - i,
    {
        let e = before[i];
        let mut hit = false;
        if e.preview {
            let mut j: usize = 0;
            while j < n
                invariant
                    j <= n,
                    i < n,
                    n == before@.len(),
                    before@ == old(store)@.bodies,
                    old(store).wf(),
                    e == before@[i as int],
                    hit <==> exists|k: int|
                        0 <= k < j && !(#[trigger] before@[k]).preview && overlaps(
                            e.body,
                            before@[k].body,
                        ),
                decreases n - j,
            {
                let other = before[j];
                if !other.preview && touching(&e.body, &other.body) {
                    hit = true;
                }
                j += 1;
            }
        }
        proof {
            assert(hit == preview_hit(before@, i as int));
        }
        marks.push(hit);
        if hit {
            any = true;
        }
        i += 1;
    }
    assert(marks@ =~= hit_flags(before@));
    store.remove_marked(&marks);
    NewPreview(any)
}

/// An absorbed body stays with the body that absorbed it.
pub proof fn lemma_absorbed_stays(s: Seq<StoredBody>, t1: int, t2: int, k: int)
    requires
        0 <= t1 <= t2 <= s.len(),
        0 <= k < s.len(),
        owners_after(s, t1)[k] != k,
    ensures
        owners_after(s, t2)[k] == owners_after(s, t1)[k],
    decreases t2,
{
    if t1 < t2 {
        lemma_absorbed_stays(s, t1, t2 - 1, k);
        lemma_owner_not_later(s, t2 - 1, k);
    }
}

/// A body is absorbed only at the turn of the body that absorbs it, and only
/// if the two touched, neither was a preview, and the absorbing body had not
/// been absorbed itself.
pub proof fn lemma_owner_touches(s: Seq<StoredBody>, t: int, j: int)
    requires
        0 <= t <= s.len(),
        0 <= j < s.len(),
        owners_after(s, t)[j] != j,
    ensures
        ({
            let i = owners_after(s, t)[j];
            &&& 0 <= i < j
            &&& i < t
            &&& !s[i].preview
            &&& !s[j].preview
            &&& overlaps(s[i].body, s[j].body)
            &&& owners_after(s, t)[i] == i
        }),
    decreases t,
{
    lemma_owner_not_later(s, t, j);
    if t > 0 {
        let before = owners_after(s, t - 1);
        lemma_owner_not_later(s, t - 1, j);
        if before[j] != j {
            lemma_owner_touches(s, t - 1, j);
            let i = before[j];
            lemma_owner_not_later(s, t - 1, i);
            lemma_owner_not_later(s, t, i);
            assert(!claims(s, before, t - 1, i));
        } else {
            let i = t - 1;
            assert(claims(s, before, i, j));
            lemma_owner_not_later(s, t - 1, i);
            assert(!claims(s, before, i, i));
        }
    }
}

/// No spurious collisions: whenever a body ends up in another, the discs of
/// the two touched before the pass, and neither was a preview.
pub proof fn lemma_no_spurious_merge(s: Seq<StoredBody>, j: int)
    requires
        0 <= j < s.len(),
        final_owners(s)[j] != j,
    ensures
        0 <= final_owners(s)[j] < j,
        !s[final_owners(s)[j]].preview,
        !s[j].preview,
        overlaps(s[final_owners(s)[j]].body, s[j].body),
        final_owners(s)[final_owners(s)[j]] == final_owners(s)[j],
{
    lemma_owner_touches(s, s.len() as int, j);
}

/// Where no two bodies that are not previews touch, a pass changes nothing.
pub proof fn lemma_apart_untouched(s: Seq<StoredBody>)
    requires
        forall|i: int, j: int|
            0 <= i < j < s.len() && !s[i].preview && !s[j].preview ==> !overlaps(
                s[i].body,
                s[j].body,
            ),
    ensures
        spec_collide(s) == s,
        spec_heirs(s) == spec_handles(s),
{
    let owner = final_owners(s);
    let n = s.len() as int;
    assert forall|j: int| 0 <= j < n implies owner[j] == j by {
        lemma_owner_not_later(s, n, j);
        if owner[j] != j {
            lemma_no_spurious_merge(s, j);
        }
    }
    let updated = Seq::new(s.len(), |i: int| resolved(s, owner, i));
    assert(updated =~= s);
    crate::store::lemma_unmarked_none(s, consumed_flags(owner));
    assert(spec_heirs(s) =~= spec_handles(s));
}

/// Guaranteed collision: of two bodies that touch, neither a preview, at most
/// one is left standing as itself; the other has been absorbed.
pub proof fn lemma_touching_pair_merges(s: Seq<StoredBody>, i: int, j: int)
    requires
        0 <= i < j < s.len(),
        !s[i].preview,
        !s[j].preview,
        overlaps(s[i].body, s[j].body),
    ensures
        final_owners(s)[i] != i || final_owners(s)[j] != j,
{
    let n = s.len() as int;
    let at_turn = owners_after(s, i);
    lemma_owner_not_later(s, i, i);
    lemma_owner_not_later(s, i, j);
    if at_turn[i] != i {
        lemma_absorbed_stays(s, i, n, i);
    } else if at_turn[j] != j {
        lemma_absorbed_stays(s, i, n, j);
    } else {
        assert(claims(s, at_turn, i, j));
        assert(owners_after(s, i + 1)[j] == i);
        lemma_absorbed_stays(s, i + 1, n, j);
    }
}

/// Two touching bodies, alone in the world, become exactly one: the merge of
/// the two, under the handle of the first.
pub proof fn lemma_two_touching_bodies_become_one(s: Seq<StoredBody>)
    requires
        s.len() == 2,
        !s[0].preview,
        !s[1].preview,
        overlaps(s[0].body, s[1].body),
    ensures
        spec_collide(s).len() == 1,
        spec_collide(s)[0].handle == s[0].handle,
        !spec_collide(s)[0].preview,
        spec_collide(s)[0].body == totals_of(s, seq![true, true], 2).spec_merged(),
        spec_heirs(s) == seq![s[0].handle, s[0].handle],
{
    let owner = final_owners(s);
    lemma_owner_not_later(s, 2, 0);
    lemma_owner_not_later(s, 2, 1);
    lemma_touching_pair_merges(s, 0, 1);
    assert(owner[0] == 0);
    assert(owner[1] == 0);
    assert(has_partner(owner, 0));
    assert(members(owner, 0) =~= seq![true, true]);
    let updated = Seq::new(s.len(), |i: int| resolved(s, owner, i));
    let flags = consumed_flags(owner);
    assert(flags =~= seq![false, true]);
    reveal_with_fuel(unmarked, 3);
    assert(updated.drop_last().len() == 1);
    assert(flags.drop_last() =~= seq![false]);
    assert(updated.drop_last().drop_last().len() == 0);
    assert(unmarked(updated.drop_last().drop_last(), flags.drop_last().drop_last()).len() == 0);
    assert(unmarked(updated.drop_last(), flags.drop_last()) =~= seq![updated[0]]);
    assert(unmarked(updated, flags) =~= seq![updated[0]]);
    assert(spec_heirs(s) =~= seq![s[0].handle, s[0].handle]);
}

} // verus!
