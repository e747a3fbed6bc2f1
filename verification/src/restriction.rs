//! The simulation without its previews.
//!
//! Deleting the previews and then running a step gives the same bodies as
//! running the step and then deleting the previews: the bodies of a simulation
//! move exactly as they would if there were no previews at all.
use crate::body::{KinematicBody, Vec2};
use crate::collision::{
    claims, consumed_flags, final_owners, has_partner, members, owners_after, owners_step,
    resolved, spec_collide, totals_of,
};
use crate::fixed::sat;
use crate::gravity::{
    dist_sq, pair_force_x, pair_force_y, partial_force_x, partial_force_y, spec_gravity_all,
};
use crate::integration::spec_integrate_all;
use crate::isolation::lemma_preview_steps_keep_bodies;
use crate::main_state::{
    lemma_preview_steps_keep_settings, lemma_ticks_keep_settings, spec_frame,
    spec_preview_steps, spec_tick, spec_tick_bodies, spec_ticks, spec_update, spec_updates, Model,
};
use crate::resources::SimulationConfig;
use crate::store::{preview_flags, real_bodies, unmarked, StoredBody};
use vstd::prelude::*;

verus! {

/// The number of bodies that are not previews among the first `n` of `s`.
pub open spec fn rank(s: Seq<StoredBody>, n: int) -> int
    decreases n,
{
    if n <= 0 {
        0
    } else {
        rank(s, n - 1) + if s[n - 1].preview {
            0int
        } else {
            1int
        }
    }
}

/// Whether a preview stands in `a` wherever one stands in `s`, and nowhere
/// else.
pub open spec fn same_flags(a: Seq<StoredBody>, s: Seq<StoredBody>) -> bool {
    a.len() == s.len() && forall|k: int| 0 <= k < s.len() ==> (#[trigger] a[k]).preview == s[k].preview
}

/// The count of bodies among the first `n` depends on the preview flags of the
/// first `n` only.
pub proof fn lemma_rank_prefix(a: Seq<StoredBody>, s: Seq<StoredBody>, n: int)
    requires
        0 <= n <= a.len(),
        n <= s.len(),
        forall|k: int| 0 <= k < n ==> (#[trigger] a[k]).preview == s[k].preview,
    ensures
        rank(a, n) == rank(s, n),
    decreases n,
{
    if n > 0 {
        lemma_rank_prefix(a, s, n - 1);
        assert(a[n - 1].preview == s[n - 1].preview);
    }
}

/// The count grows with the prefix, by at least one over a body that is not a
/// preview, and never beyond the length of the prefix.
pub proof fn lemma_rank_grows(s: Seq<StoredBody>, a: int, b: int)
    requires
        0 <= a <= b,
    ensures
        0 <= rank(s, a) <= rank(s, b),
        rank(s, a) <= a,
        a < b && !s[a].preview ==> rank(s, a) < rank(s, b),
    decreases b,
{
    if a < b {
        lemma_rank_grows(s, a, b - 1);
    } else {
        lemma_rank_bounds(s, a);
    }
}

/// The count is between zero and the length of the prefix.
pub proof fn lemma_rank_bounds(s: Seq<StoredBody>, n: int)
    requires
        0 <= n,
    ensures
        0 <= rank(s, n) <= n,
    decreases n,
{
    if n > 0 {
        lemma_rank_bounds(s, n - 1);
    }
}

/// Two bodies that are not previews and have the same count before them are
/// the same body.
pub proof fn lemma_rank_injective(s: Seq<StoredBody>, a: int, b: int)
    requires
        0 <= a,
        0 <= b,
        !s[a].preview,
        !s[b].preview,
        rank(s, a) == rank(s, b),
    ensures
        a == b,
{
    if a < b {
        lemma_rank_grows(s, a, b);
    }
    if b < a {
        lemma_rank_grows(s, b, a);
    }
}

/// Every count below that of a prefix is the count before some body of the
/// prefix that is not a preview.
pub proof fn lemma_rank_onto(s: Seq<StoredBody>, n: int, k: int) -> (j: int)
    requires
        0 <= n,
        0 <= k < rank(s, n),
    ensures
        0 <= j < n,
        !s[j].preview,
        rank(s, j) == k,
    decreases n,
{
    if n <= 0 {
        0
    } else if !s[n - 1].preview && rank(s, n - 1) == k {
        n - 1
    } else {
        lemma_rank_onto(s, n - 1, k)
    }
}

/// The bodies without the previews, after one more body: the same if it is a
/// preview, one more if it is not.
pub proof fn lemma_real_bodies_push(s: Seq<StoredBody>, e: StoredBody)
    ensures
        e.preview ==> real_bodies(s.push(e)) == real_bodies(s),
        !e.preview ==> real_bodies(s.push(e)) == real_bodies(s).push(e),
{
    let t = s.push(e);
    assert(t.drop_last() =~= s);
    assert(preview_flags(t).drop_last() =~= preview_flags(s));
}

/// A content is its content without the last body, and the last body.
pub proof fn lemma_split_last(s: Seq<StoredBody>)
    requires
        s.len() > 0,
    ensures
        s == s.drop_last().push(s.last()),
{
    assert(s =~= s.drop_last().push(s.last()));
}

/// What is left when the previews are deleted from `a`: as many bodies as `a`
/// holds that are not previews, and in the place of each count the body of `a`
/// before which that many stand.
pub proof fn lemma_real_bodies_by_rank(a: Seq<StoredBody>)
    ensures
        real_bodies(a).len() == rank(a, a.len() as int),
        forall|j: int|
            0 <= j < a.len() && !(#[trigger] a[j]).preview ==> 0 <= rank(a, j) < real_bodies(
                a,
            ).len() && real_bodies(a)[rank(a, j)] == a[j],
        forall|k: int| 0 <= k < real_bodies(a).len() ==> !(#[trigger] real_bodies(a)[k]).preview,
    decreases a.len(),
{
    if a.len() > 0 {
        let a0 = a.drop_last();
        let last = a.last();
        let n = a.len() as int;
        lemma_split_last(a);
        lemma_real_bodies_by_rank(a0);
        lemma_real_bodies_push(a0, last);
        lemma_rank_prefix(a0, a, n - 1);
        let r0 = real_bodies(a0);
        let r = real_bodies(a);
        assert forall|j: int| 0 <= j < a.len() && !(#[trigger] a[j]).preview implies 0 <= rank(a, j)
            < r.len() && r[rank(a, j)] == a[j] by {
            if j < n - 1 {
                lemma_rank_prefix(a0, a, j);
                assert(a0[j] == a[j]);
                assert(r0[rank(a0, j)] == a0[j]);
            } else {
                assert(rank(a, j) == r0.len());
            }
        }
        assert forall|k: int| 0 <= k < r.len() implies !(#[trigger] r[k]).preview by {
            if k < r0.len() {
                assert(r[k] == r0[k]);
            }
        }
    } else {
        assert(real_bodies(a) =~= a);
    }
}

/// Deleting marked bodies and then the previews is deleting the previews and
/// then the bodies that were marked. Here `mb` holds, in the place of each
/// count, the mark of the body of `a` before which that many bodies stand.
pub proof fn lemma_unmarked_then_real(a: Seq<StoredBody>, ma: Seq<bool>, mb: Seq<bool>)
    requires
        ma.len() == a.len(),
        mb.len() == rank(a, a.len() as int),
        forall|j: int|
            0 <= j < a.len() && !(#[trigger] a[j]).preview ==> mb[rank(a, j)] == ma[j],
    ensures
        real_bodies(unmarked(a, ma)) == unmarked(real_bodies(a), mb),
    decreases a.len(),
{
    lemma_real_bodies_by_rank(a);
    if a.len() > 0 {
        let n = a.len() as int;
        let a0 = a.drop_last();
        let ma0 = ma.drop_last();
        let last = a.last();
        lemma_split_last(a);
        lemma_rank_prefix(a0, a, n - 1);
        lemma_real_bodies_push(a0, last);
        lemma_real_bodies_by_rank(a0);
        let mb0 = if last.preview {
            mb
        } else {
            mb.drop_last()
        };
        assert forall|j: int| 0 <= j < a0.len() && !(#[trigger] a0[j]).preview implies mb0[rank(
            a0,
            j,
        )] == ma0[j] by {
            lemma_rank_prefix(a0, a, j);
            assert(a0[j] == a[j]);
            assert(!a[j].preview);
            lemma_rank_grows(a, j, n - 1);
        }
        lemma_unmarked_then_real(a0, ma0, mb0);
        let kept0 = unmarked(a0, ma0);
        if last.preview {
            if !ma.last() {
                lemma_real_bodies_push(kept0, last);
            }
        } else {
            assert(rank(a, n - 1) == mb.len() - 1);
            assert(mb[rank(a, n - 1)] == ma[n - 1]);
            let r = real_bodies(a);
            assert(r.drop_last() =~= real_bodies(a0));
            if !ma.last() {
                lemma_real_bodies_push(kept0, last);
            }
        }
    } else {
        assert(unmarked(a, ma) =~= a);
        assert(real_bodies(a) =~= a);
        assert(unmarked(real_bodies(a), mb) =~= real_bodies(a));
    }
}

/// The force along x that the first `n` bodies of `ctx`, previews left out,
/// exert on a body of mass `m` at `p`.
pub open spec fn field_x(g: int, ctx: Seq<StoredBody>, n: int, p: Vec2, m: int) -> int
    decreases n,
{
    if n <= 0 {
        0
    } else {
        field_x(g, ctx, n - 1, p, m) + if ctx[n - 1].preview {
            0
        } else {
            pair_force_x(g, p, m, ctx[n - 1].body.pos, ctx[n - 1].body.mass as int)
        }
    }
}

/// The force along y that the first `n` bodies of `ctx`, previews left out,
/// exert on a body of mass `m` at `p`.
pub open spec fn field_y(g: int, ctx: Seq<StoredBody>, n: int, p: Vec2, m: int) -> int
    decreases n,
{
    if n <= 0 {
        0
    } else {
        field_y(g, ctx, n - 1, p, m) + if ctx[n - 1].preview {
            0
        } else {
            pair_force_y(g, p, m, ctx[n - 1].body.pos, ctx[n - 1].body.mass as int)
        }
    }
}

/// The body `e` with the pull of the bodies of `ctx` added to its force.
pub open spec fn pulled_by(g: int, ctx: Seq<StoredBody>, e: StoredBody) -> StoredBody {
    StoredBody {
        body: KinematicBody {
            force: Vec2 {
                x: sat(
                    e.body.force.x + field_x(
                        g,
                        ctx,
                        ctx.len() as int,
                        e.body.pos,
                        e.body.mass as int,
                    ),
                ) as i64,
                y: sat(
                    e.body.force.y + field_y(
                        g,
                        ctx,
                        ctx.len() as int,
                        e.body.pos,
                        e.body.mass as int,
                    ),
                ) as i64,
            },
            ..e.body
        },
        ..e
    }
}

/// The content `s` with the pull of the bodies of `ctx` added to the force of
/// every body that is not a preview.
pub open spec fn pull_all(g: int, ctx: Seq<StoredBody>, s: Seq<StoredBody>) -> Seq<StoredBody> {
    Seq::new(
        s.len(),
        |k: int|
            if s[k].preview {
                s[k]
            } else {
                pulled_by(g, ctx, s[k])
            },
    )
}

/// A body does not pull at itself.
pub proof fn lemma_no_self_pull(g: int, p: Vec2, m: int)
    ensures
        pair_force_x(g, p, m, p, m) == 0,
        pair_force_y(g, p, m, p, m) == 0,
{
    assert(dist_sq(p, p) == 0) by (nonlinear_arith)
        requires
            dist_sq(p, p) == (p.x - p.x) * (p.x - p.x) + (p.y - p.y) * (p.y - p.y),
    ;
}

/// The pull of the first `n` bodies depends on the first `n` bodies only.
pub proof fn lemma_field_prefix(
    g: int,
    a: Seq<StoredBody>,
    b: Seq<StoredBody>,
    n: int,
    p: Vec2,
    m: int,
)
    requires
        0 <= n <= a.len(),
        n <= b.len(),
        forall|k: int| 0 <= k < n ==> a[k] == b[k],
    ensures
        field_x(g, a, n, p, m) == field_x(g, b, n, p, m),
        field_y(g, a, n, p, m) == field_y(g, b, n, p, m),
    decreases n,
{
    if n > 0 {
        lemma_field_prefix(g, a, b, n - 1, p, m);
    }
}

/// The net force on a body of `s` is the pull of all bodies of `s` at its
/// place: leaving the body itself out of the sum changes nothing.
pub proof fn lemma_net_force_is_field(g: int, s: Seq<StoredBody>, i: int, n: int)
    requires
        0 <= i < s.len(),
        0 <= n <= s.len(),
    ensures
        partial_force_x(g, s, i, n) == field_x(g, s, n, s[i].body.pos, s[i].body.mass as int),
        partial_force_y(g, s, i, n) == field_y(g, s, n, s[i].body.pos, s[i].body.mass as int),
    decreases n,
{
    if n > 0 {
        lemma_net_force_is_field(g, s, i, n - 1);
        if n - 1 == i {
            lemma_no_self_pull(g, s[i].body.pos, s[i].body.mass as int);
        }
    }
}

/// Previews pull at nothing: the pull of a content is the pull of its bodies
/// that are not previews.
pub proof fn lemma_field_without_previews(g: int, s: Seq<StoredBody>, p: Vec2, m: int)
    ensures
        field_x(g, s, s.len() as int, p, m) == field_x(
            g,
            real_bodies(s),
            real_bodies(s).len() as int,
            p,
            m,
        ),
        field_y(g, s, s.len() as int, p, m) == field_y(
            g,
            real_bodies(s),
            real_bodies(s).len() as int,
            p,
            m,
        ),
    decreases s.len(),
{
    if s.len() > 0 {
        let s0 = s.drop_last();
        let last = s.last();
        let n = s.len() as int;
        lemma_split_last(s);
        lemma_real_bodies_push(s0, last);
        lemma_field_without_previews(g, s0, p, m);
        lemma_field_prefix(g, s, s0, n - 1, p, m);
        let r0 = real_bodies(s0);
        let r = real_bodies(s);
        if !last.preview {
            lemma_field_prefix(g, r, r0, r0.len() as int, p, m);
        }
    } else {
        assert(real_bodies(s) =~= s);
    }
}

/// A gravity pass adds to every body the pull of the whole content.
pub proof fn lemma_gravity_is_pull(g: int, s: Seq<StoredBody>)
    ensures
        spec_gravity_all(g, s, false) == pull_all(g, s, s),
{
    let a = spec_gravity_all(g, s, false);
    let b = pull_all(g, s, s);
    assert forall|k: int| 0 <= k < s.len() implies a[k] == b[k] by {
        lemma_net_force_is_field(g, s, k, s.len() as int);
    }
    assert(a =~= b);
}

/// Pulling at every body and then deleting the previews is deleting the
/// previews and then pulling at every body.
pub proof fn lemma_pull_then_real(g: int, ctx: Seq<StoredBody>, s: Seq<StoredBody>)
    ensures
        real_bodies(pull_all(g, ctx, s)) == pull_all(g, ctx, real_bodies(s)),
    decreases s.len(),
{
    if s.len() > 0 {
        let s0 = s.drop_last();
        let last = s.last();
        lemma_split_last(s);
        lemma_pull_then_real(g, ctx, s0);
        lemma_real_bodies_push(s0, last);
        let moved_last = if last.preview {
            last
        } else {
            pulled_by(g, ctx, last)
        };
        assert(pull_all(g, ctx, s) =~= pull_all(g, ctx, s0).push(moved_last));
        lemma_real_bodies_push(pull_all(g, ctx, s0), moved_last);
        if !last.preview {
            assert(pull_all(g, ctx, real_bodies(s0).push(last)) =~= pull_all(
                g,
                ctx,
                real_bodies(s0),
            ).push(moved_last));
        }
    } else {
        assert(real_bodies(s) =~= s);
        assert(pull_all(g, ctx, s) =~= s);
        assert(real_bodies(pull_all(g, ctx, s)) =~= pull_all(g, ctx, s));
    }
}

/// Preview isolation, for gravity: deleting the previews and then running a
/// gravity pass gives what running the pass and then deleting the previews
/// gives.
pub proof fn lemma_gravity_without_previews(g: int, s: Seq<StoredBody>)
    ensures
        real_bodies(spec_gravity_all(g, s, false)) == spec_gravity_all(g, real_bodies(s), false),
{
    let r = real_bodies(s);
    lemma_gravity_is_pull(g, s);
    lemma_gravity_is_pull(g, r);
    lemma_pull_then_real(g, s, s);
    assert forall|k: int| 0 <= k < r.len() implies pull_all(g, s, r)[k] == pull_all(g, r, r)[k] by {
        lemma_field_without_previews(g, s, r[k].body.pos, r[k].body.mass as int);
    }
    assert(pull_all(g, s, r) =~= pull_all(g, r, r));
}

/// Preview isolation, for integration: deleting the previews and then moving
/// the bodies gives what moving the bodies and then deleting the previews
/// gives.
pub proof fn lemma_integrate_without_previews(s: Seq<StoredBody>, dt: int)
    ensures
        real_bodies(spec_integrate_all(s, false, dt)) == spec_integrate_all(
            real_bodies(s),
            false,
            dt,
        ),
    decreases s.len(),
{
    if s.len() > 0 {
        let s0 = s.drop_last();
        let last = s.last();
        lemma_split_last(s);
        lemma_integrate_without_previews(s0, dt);
        lemma_real_bodies_push(s0, last);
        let moved = spec_integrate_all(s, false, dt);
        let moved0 = spec_integrate_all(s0, false, dt);
        let moved_last = moved[s.len() - 1];
        assert(moved =~= moved0.push(moved_last));
        lemma_real_bodies_push(moved0, moved_last);
        if !last.preview {
            assert(spec_integrate_all(real_bodies(s0).push(last), false, dt) =~= spec_integrate_all(
                real_bodies(s0),
                false,
                dt,
            ).push(moved_last));
        }
    } else {
        assert(real_bodies(s) =~= s);
        assert(spec_integrate_all(s, false, dt) =~= s);
        assert(real_bodies(spec_integrate_all(s, false, dt)) =~= spec_integrate_all(s, false, dt));
    }
}

/// Whether the owners `o` of the content `s` and the owners `q` of its bodies
/// without the previews say the same of body `j`: a preview owns itself; a body
/// that is not a preview is owned by a body that is not a preview, and in the
/// place of its count `q` holds the count of its owner.
pub open spec fn owner_matches(s: Seq<StoredBody>, o: Seq<int>, q: Seq<int>, j: int) -> bool {
    if s[j].preview {
        o[j] == j
    } else {
        0 <= o[j] <= j && !s[o[j]].preview && q[rank(s, j)] == rank(s, o[j])
    }
}

/// Whether the owners `o` of the content `s` and the owners `q` of its bodies
/// without the previews say the same of every body.
pub open spec fn owners_match(s: Seq<StoredBody>, o: Seq<int>, q: Seq<int>) -> bool {
    &&& o.len() == s.len()
    &&& q.len() == rank(s, s.len() as int)
    &&& forall|j: int| 0 <= j < s.len() ==> #[trigger] owner_matches(s, o, q, j)
}

/// A body absorbs another at its turn with the previews exactly if it does
/// without them.
pub proof fn lemma_claims_without_previews(
    s: Seq<StoredBody>,
    o: Seq<int>,
    q: Seq<int>,
    t: int,
    j: int,
)
    requires
        o.len() == s.len(),
        q.len() == rank(s, s.len() as int),
        0 <= t < s.len(),
        0 <= j < s.len(),
        !s[t].preview,
        !s[j].preview,
        owner_matches(s, o, q, t),
        owner_matches(s, o, q, j),
    ensures
        claims(s, o, t, j) == claims(real_bodies(s), q, rank(s, t), rank(s, j)),
{
    let r = real_bodies(s);
    let k = rank(s, t);
    let kj = rank(s, j);
    lemma_real_bodies_by_rank(s);
    assert(r[k] == s[t]);
    assert(r[kj] == s[j]);
    if t < j {
        lemma_rank_grows(s, t, j);
    } else {
        lemma_rank_grows(s, j, t);
    }
    if o[t] != t && q[k] == k {
        lemma_rank_injective(s, o[t], t);
    }
    if o[j] != j && q[kj] == kj {
        lemma_rank_injective(s, o[j], j);
    }
}

/// The turn of a preview changes no owner.
pub proof fn lemma_preview_turn(s: Seq<StoredBody>, o: Seq<int>, t: int)
    requires
        o.len() == s.len(),
        0 <= t < s.len(),
        s[t].preview,
    ensures
        owners_step(s, o, t) == o,
{
    assert forall|j: int| 0 <= j < s.len() implies owners_step(s, o, t)[j] == o[j] by {
        assert(!claims(s, o, t, j));
    }
    assert(owners_step(s, o, t) =~= o);
}

/// The turn of a body that is not a preview changes the owner of a body alike
/// with and without the previews.
pub proof fn lemma_body_turn_at(s: Seq<StoredBody>, o: Seq<int>, q: Seq<int>, t: int, j: int)
    requires
        o.len() == s.len(),
        q.len() == rank(s, s.len() as int),
        0 <= t < s.len(),
        0 <= j < s.len(),
        !s[t].preview,
        owner_matches(s, o, q, t),
        owner_matches(s, o, q, j),
    ensures
        owner_matches(
            s,
            owners_step(s, o, t),
            owners_step(real_bodies(s), q, rank(s, t)),
            j,
        ),
{
    let r = real_bodies(s);
    lemma_real_bodies_by_rank(s);
    if s[j].preview {
        assert(!claims(s, o, t, j));
    } else {
        lemma_claims_without_previews(s, o, q, t, j);
        let k = rank(s, t);
        let kj = rank(s, j);
        assert(0 <= kj < r.len());
        assert(owners_step(r, q, k)[kj] == if claims(r, q, k, kj) {
            k
        } else {
            q[kj]
        });
    }
}

/// The turn of a body that is not a preview changes the owners alike with and
/// without the previews.
pub proof fn lemma_body_turn(s: Seq<StoredBody>, o: Seq<int>, q: Seq<int>, t: int)
    requires
        owners_match(s, o, q),
        0 <= t < s.len(),
        !s[t].preview,
    ensures
        owners_match(s, owners_step(s, o, t), owners_step(real_bodies(s), q, rank(s, t))),
{
    let r = real_bodies(s);
    let o1 = owners_step(s, o, t);
    let q1 = owners_step(r, q, rank(s, t));
    lemma_real_bodies_by_rank(s);
    assert(owner_matches(s, o, q, t));
    assert forall|j: int| 0 <= j < s.len() implies #[trigger] owner_matches(s, o1, q1, j) by {
        assert(owner_matches(s, o, q, j));
        lemma_body_turn_at(s, o, q, t, j);
    }
}

/// Collisions are resolved alike with and without the previews: after the
/// turns of the first `t` bodies of `s`, and of as many bodies of the content
/// without previews as are among them, the owners say the same.
pub proof fn lemma_owners_without_previews(s: Seq<StoredBody>, t: int)
    requires
        0 <= t <= s.len(),
    ensures
        owners_match(s, owners_after(s, t), owners_after(real_bodies(s), rank(s, t))),
    decreases t,
{
    let r = real_bodies(s);
    let n = s.len() as int;
    lemma_real_bodies_by_rank(s);
    if t == 0 {
        let o = owners_after(s, 0);
        let q = owners_after(r, 0);
        assert(rank(s, 0) == 0);
        assert forall|j: int| 0 <= j < n implies #[trigger] owner_matches(s, o, q, j) by {
            if !s[j].preview {
                assert(0 <= rank(s, j) < r.len());
            }
        }
    } else {
        lemma_owners_without_previews(s, t - 1);
        let o0 = owners_after(s, t - 1);
        let q0 = owners_after(r, rank(s, t - 1));
        if s[t - 1].preview {
            lemma_preview_turn(s, o0, t - 1);
        } else {
            lemma_body_turn(s, o0, q0, t - 1);
        }
    }
}

/// The totals of a group are the same with and without the previews.
pub proof fn lemma_totals_without_previews(
    s: Seq<StoredBody>,
    o: Seq<int>,
    q: Seq<int>,
    i: int,
    n: int,
)
    requires
        owners_match(s, o, q),
        0 <= i < s.len(),
        !s[i].preview,
        0 <= n <= s.len(),
    ensures
        totals_of(s, members(o, i), n) == totals_of(
            real_bodies(s),
            members(q, rank(s, i)),
            rank(s, n),
        ),
    decreases n,
{
    if n > 0 {
        lemma_totals_without_previews(s, o, q, i, n - 1);
        lemma_real_bodies_by_rank(s);
        let j = n - 1;
        assert(owner_matches(s, o, q, j));
        assert(owner_matches(s, o, q, i));
        if !s[j].preview {
            assert(real_bodies(s)[rank(s, j)] == s[j]);
            if o[j] != i && q[rank(s, j)] == rank(s, i) {
                lemma_rank_injective(s, o[j], i);
            }
        }
    }
}

/// A body has absorbed another with the previews exactly if it has without
/// them.
pub proof fn lemma_partner_without_previews(s: Seq<StoredBody>, o: Seq<int>, q: Seq<int>, i: int)
    requires
        owners_match(s, o, q),
        0 <= i < s.len(),
        !s[i].preview,
    ensures
        has_partner(o, i) == has_partner(q, rank(s, i)),
{
    let k = rank(s, i);
    lemma_real_bodies_by_rank(s);
    if has_partner(o, i) {
        let j = choose|j: int| 0 <= j < o.len() && j != i && #[trigger] o[j] == i;
        assert(owner_matches(s, o, q, j));
        assert(q[rank(s, j)] == k);
        if rank(s, j) == k {
            lemma_rank_injective(s, j, i);
        }
        assert(has_partner(q, k));
    }
    if has_partner(q, k) {
        let kj = choose|kj: int| 0 <= kj < q.len() && kj != k && #[trigger] q[kj] == k;
        let j = lemma_rank_onto(s, s.len() as int, kj);
        assert(owner_matches(s, o, q, j));
        lemma_rank_injective(s, o[j], i);
        assert(o[j] == i);
        assert(has_partner(o, i));
    }
}

/// Preview isolation, for collisions: deleting the previews and then
/// resolving the collisions gives what resolving the collisions and then
/// deleting the previews gives.
pub proof fn lemma_collide_without_previews(s: Seq<StoredBody>)
    ensures
        real_bodies(spec_collide(s)) == spec_collide(real_bodies(s)),
{
    let r = real_bodies(s);
    let n = s.len() as int;
    lemma_real_bodies_by_rank(s);
    lemma_owners_without_previews(s, n);
    let o = final_owners(s);
    let q = final_owners(r);
    assert(q == owners_after(r, rank(s, n)));
    let merged_s = Seq::new(s.len(), |i: int| resolved(s, o, i));
    let merged_r = Seq::new(r.len(), |i: int| resolved(r, q, i));
    assert(same_flags(merged_s, s));
    lemma_rank_prefix(merged_s, s, n);
    lemma_real_bodies_by_rank(merged_s);
    assert forall|j: int| 0 <= j < n && !(#[trigger] s[j]).preview implies merged_s[j]
        == merged_r[rank(s, j)] by {
        let k = rank(s, j);
        assert(r[k] == s[j]);
        assert(owner_matches(s, o, q, j));
        lemma_partner_without_previews(s, o, q, j);
        lemma_totals_without_previews(s, o, q, j, n);
        if o[j] != j && q[k] == k {
            lemma_rank_injective(s, o[j], j);
        }
    }
    assert(real_bodies(merged_s) =~= merged_r) by {
        assert forall|k: int| 0 <= k < merged_r.len() implies real_bodies(merged_s)[k]
            == merged_r[k] by {
            let j = lemma_rank_onto(s, n, k);
            lemma_rank_prefix(merged_s, s, j);
            assert(!merged_s[j].preview);
            assert(real_bodies(merged_s)[rank(merged_s, j)] == merged_s[j]);
        }
    }
    let marks_s = consumed_flags(o);
    let marks_r = consumed_flags(q);
    assert forall|j: int| 0 <= j < merged_s.len() && !(#[trigger] merged_s[j]).preview implies marks_r[rank(
        merged_s,
        j,
    )] == marks_s[j] by {
        lemma_rank_prefix(merged_s, s, j);
        assert(!s[j].preview);
        assert(owner_matches(s, o, q, j));
        if o[j] != j && q[rank(s, j)] == rank(s, j) {
            lemma_rank_injective(s, o[j], j);
        }
    }
    lemma_unmarked_then_real(merged_s, marks_s, marks_r);
}

/// Preview isolation, for a step of the simulation: deleting the previews and
/// then running the step gives what running the step and then deleting the
/// previews gives.
pub proof fn lemma_tick_without_previews(s: Seq<StoredBody>, config: SimulationConfig)
    ensures
        real_bodies(spec_tick_bodies(s, config)) == spec_tick_bodies(real_bodies(s), config),
{
    let g = config.g.0 as int;
    let pulled = spec_gravity_all(g, s, false);
    lemma_gravity_without_previews(g, s);
    let merged = if config.toggles.collisions {
        spec_collide(pulled)
    } else {
        pulled
    };
    if config.toggles.collisions {
        lemma_collide_without_previews(pulled);
    }
    if config.toggles.integration {
        lemma_integrate_without_previews(merged, config.dt.0 as int);
    }
}

/// Preview isolation, for two simulations: where two contents hold the same
/// bodies and differ in their previews only, they hold the same bodies after a
/// step.
pub proof fn lemma_tick_ignores_previews(
    s: Seq<StoredBody>,
    t: Seq<StoredBody>,
    config: SimulationConfig,
)
    requires
        real_bodies(s) == real_bodies(t),
    ensures
        real_bodies(spec_tick_bodies(s, config)) == real_bodies(spec_tick_bodies(t, config)),
{
    lemma_tick_without_previews(s, config);
    lemma_tick_without_previews(t, config);
}

/// The simulation `m` with its previews deleted.
pub open spec fn without_previews(m: Model) -> Model {
    Model { bodies: real_bodies(m.bodies), ..m }
}

/// Preview isolation, across any number of steps: however many steps a
/// simulation runs, its bodies are those of the same simulation started
/// without previews.
pub proof fn lemma_ticks_without_previews(m: Model, n: int)
    ensures
        real_bodies(spec_ticks(m, n).bodies) == spec_ticks(without_previews(m), n).bodies,
        spec_ticks(without_previews(m), n).config == m.config,
    decreases n,
{
    lemma_ticks_keep_settings(without_previews(m), n);
    if n > 0 {
        lemma_ticks_without_previews(m, n - 1);
        lemma_ticks_keep_settings(m, n - 1);
        lemma_ticks_keep_settings(without_previews(m), n - 1);
        let before = spec_ticks(m, n - 1);
        if !m.config.paused.0 {
            lemma_tick_without_previews(before.bodies, m.config);
        }
    }
}

/// The bodies after a number of steps depend on the bodies and the settings
/// before them, and on nothing else.
pub proof fn lemma_ticks_by_bodies(a: Model, b: Model, n: int)
    requires
        a.bodies == b.bodies,
        a.config == b.config,
    ensures
        spec_ticks(a, n).bodies == spec_ticks(b, n).bodies,
        spec_ticks(a, n).config == spec_ticks(b, n).config,
    decreases n,
{
    if n > 0 {
        lemma_ticks_by_bodies(a, b, n - 1);
    }
}

/// Running `a` steps and then `b` steps is running `a + b` steps.
pub proof fn lemma_ticks_add(m: Model, a: int, b: int)
    requires
        0 <= a,
        0 <= b,
    ensures
        spec_ticks(spec_ticks(m, a), b) == spec_ticks(m, a + b),
    decreases b,
{
    if b > 0 {
        lemma_ticks_add(m, a, b - 1);
    }
}

/// Preview isolation, for a frame: after the steps of the simulation and the
/// steps of the forecast that make up a frame, the bodies are those of the
/// same simulation after the same steps without any preview and without any
/// forecast.
pub proof fn lemma_frame_without_previews(m: Model)
    ensures
        real_bodies(spec_frame(m).bodies) == spec_ticks(
            without_previews(m),
            m.main_iterations.0 as int,
        ).bodies,
        spec_frame(m).config == m.config,
        spec_frame(m).main_iterations == m.main_iterations,
{
    let n = m.main_iterations.0 as int;
    let after = spec_ticks(m, n);
    lemma_ticks_keep_settings(m, n);
    lemma_preview_steps_keep_bodies(after, m.preview_iterations.0 as int);
    lemma_preview_steps_keep_settings(after, m.preview_iterations.0 as int);
    lemma_ticks_without_previews(m, n);
    let stepped = spec_preview_steps(after, m.preview_iterations.0 as int);
    assert(spec_frame(m).bodies == stepped.bodies);
}

/// The simulation `m` after `k` frames.
pub open spec fn spec_frames(m: Model, k: int) -> Model
    decreases k,
{
    if k <= 0 {
        m
    } else {
        spec_frame(spec_frames(m, k - 1))
    }
}

/// Preview isolation, across any number of frames: whatever forecasts run
/// beside it, and however their previews come and go, the bodies of a
/// simulation after `k` frames are those of the same simulation started
/// without previews after the steps of `k` frames and no forecast at all.
pub proof fn lemma_frames_without_previews(m: Model, k: int)
    requires
        0 <= k,
    ensures
        real_bodies(spec_frames(m, k).bodies) == spec_ticks(
            without_previews(m),
            k * (m.main_iterations.0 as int),
        ).bodies,
        spec_frames(m, k).config == m.config,
        spec_frames(m, k).main_iterations == m.main_iterations,
    decreases k,
{
    let n = m.main_iterations.0 as int;
    if k > 0 {
        lemma_frames_without_previews(m, k - 1);
        let before = spec_frames(m, k - 1);
        lemma_frame_without_previews(before);
        let bare = spec_ticks(without_previews(m), (k - 1) * n);
        lemma_ticks_keep_settings(without_previews(m), (k - 1) * n);
        lemma_ticks_by_bodies(without_previews(before), bare, n);
        assert((k - 1) * n >= 0) by (nonlinear_arith)
            requires
                k >= 1,
                n >= 0,
        ;
        lemma_ticks_add(without_previews(m), (k - 1) * n, n);
        assert((k - 1) * n + n == k * n) by (nonlinear_arith);
    } else {
        assert(k * n == 0) by (nonlinear_arith)
            requires
                k == 0,
        ;
    }
}

/// Preview isolation, for an update: after a step of the simulation and any
/// number of steps of the forecast, the bodies are those of the same
/// simulation after the step without any preview.
pub proof fn lemma_update_without_previews(m: Model, forecast_steps: int)
    ensures
        real_bodies(spec_update(m, forecast_steps).bodies) == spec_tick(
            without_previews(m),
        ).bodies,
        spec_update(m, forecast_steps).config == m.config,
{
    let stepped = spec_tick(m);
    if !m.config.paused.0 {
        lemma_tick_without_previews(m.bodies, m.config);
    }
    lemma_preview_steps_keep_bodies(stepped, forecast_steps);
    let forecast = spec_preview_steps(stepped, forecast_steps);
    assert(spec_update(m, forecast_steps).bodies == forecast.bodies);
}

/// Preview isolation, across any number of updates: of two worlds with the
/// same bodies and the same settings, one with previews and a forecast and one
/// without, the bodies agree after every update, in number, in order and in
/// every field. Here the world without previews is run by steps alone.
pub proof fn lemma_updates_without_previews(m: Model, n: int, forecast_steps: int)
    requires
        0 <= n,
    ensures
        real_bodies(spec_updates(m, n, forecast_steps).bodies) == spec_ticks(
            without_previews(m),
            n,
        ).bodies,
        spec_updates(m, n, forecast_steps).config == m.config,
    decreases n,
{
    if n > 0 {
        lemma_updates_without_previews(m, n - 1, forecast_steps);
        let before = spec_updates(m, n - 1, forecast_steps);
        let bare = spec_ticks(without_previews(m), n - 1);
        lemma_ticks_keep_settings(without_previews(m), n - 1);
        lemma_update_without_previews(before, forecast_steps);
        lemma_ticks_by_bodies(without_previews(before), bare, 1);
        assert(spec_ticks(without_previews(before), 1) == spec_tick(without_previews(before))) by {
            assert(spec_ticks(without_previews(before), 0) == without_previews(before));
        }
        assert(spec_ticks(bare, 1) == spec_tick(bare)) by {
            assert(spec_ticks(bare, 0) == bare);
        }
    }
}

} // verus!
