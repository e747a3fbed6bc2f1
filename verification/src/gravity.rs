//! The gravity accumulator: for every body of a kind, the sum of the pulls of
//! all bodies that are not previews, added to the force already collected.
//!
//! A pass reads the positions and masses as they stood before it and writes
//! nothing but the force of the body it is at, so the order in which the bodies
//! are visited does not matter.
use crate::body::{KinematicBody, Vec2};
use crate::fixed::{
    fmul, in_range, int_sqrt, is_sqrt, isqrt, lemma_sqrt_exists, lemma_trunc_div_bounds,
    lemma_trunc_div_odd, quot, sat, saturate, spec_fmul, trunc_div, wide_mul, LIMIT, ONE,
};
use crate::resources::{Paused, G};
use crate::store::{BodyStore, StoredBody};
use vstd::prelude::*;

verus! {

/// The squared distance between two points, in squared raw units.
pub open spec fn dist_sq(p: Vec2, q: Vec2) -> int {
    (q.x - p.x) * (q.x - p.x) + (q.y - p.y) * (q.y - p.y)
}

/// The strength of the pull between two masses at squared distance `d2`:
/// `g * m1 * m2 / distance^2`.
pub open spec fn pull_strength(g: int, m1: int, m2: int, d2: int) -> int {
    sat(trunc_div(spec_fmul(g, spec_fmul(m1, m2)) * (ONE * ONE), d2))
}

/// One component of a pull of the given strength along the offset `delta`, the
/// distance being `d`.
pub open spec fn pull_component(strength: int, delta: int, d: int) -> int {
    trunc_div(strength * delta, d)
}

/// The force along x that the body at `q` with mass `m2` exerts on the body at
/// `p` with mass `m1`. Bodies at the same point exert none on each other.
pub open spec fn pair_force_x(g: int, p: Vec2, m1: int, q: Vec2, m2: int) -> int {
    let d2 = dist_sq(p, q);
    if d2 == 0 {
        0
    } else {
        pull_component(pull_strength(g, m1, m2, d2), q.x - p.x, int_sqrt(d2))
    }
}

/// The force along y that the body at `q` with mass `m2` exerts on the body at
/// `p` with mass `m1`. Bodies at the same point exert none on each other.
pub open spec fn pair_force_y(g: int, p: Vec2, m1: int, q: Vec2, m2: int) -> int {
    let d2 = dist_sq(p, q);
    if d2 == 0 {
        0
    } else {
        pull_component(pull_strength(g, m1, m2, d2), q.y - p.y, int_sqrt(d2))
    }
}

/// What body `j` of `s` adds to the force along x on body `i`: nothing if it is
/// that body itself or a preview.
pub open spec fn contribution_x(g: int, s: Seq<StoredBody>, i: int, j: int) -> int {
    if j == i || s[j].preview {
        0
    } else {
        pair_force_x(g, s[i].body.pos, s[i].body.mass as int, s[j].body.pos, s[j].body.mass as int)
    }
}

/// What body `j` of `s` adds to the force along y on body `i`: nothing if it is
/// that body itself or a preview.
pub open spec fn contribution_y(g: int, s: Seq<StoredBody>, i: int, j: int) -> int {
    if j == i || s[j].preview {
        0
    } else {
        pair_force_y(g, s[i].body.pos, s[i].body.mass as int, s[j].body.pos, s[j].body.mass as int)
    }
}

/// The force along x on body `i` from the first `n` bodies of `s`.
pub open spec fn partial_force_x(g: int, s: Seq<StoredBody>, i: int, n: int) -> int
    decreases n,
{
    if n <= 0 {
        0
    } else {
        partial_force_x(g, s, i, n - 1) + contribution_x(g, s, i, n - 1)
    }
}

/// The force along y on body `i` from the first `n` bodies of `s`.
pub open spec fn partial_force_y(g: int, s: Seq<StoredBody>, i: int, n: int) -> int
    decreases n,
{
    if n <= 0 {
        0
    } else {
        partial_force_y(g, s, i, n - 1) + contribution_y(g, s, i, n - 1)
    }
}

/// The net gravitational force along x on body `i` of `s`.
pub open spec fn net_force_x(g: int, s: Seq<StoredBody>, i: int) -> int {
    partial_force_x(g, s, i, s.len() as int)
}

/// The net gravitational force along y on body `i` of `s`.
pub open spec fn net_force_y(g: int, s: Seq<StoredBody>, i: int) -> int {
    partial_force_y(g, s, i, s.len() as int)
}

/// Body `i` of `s` with its net gravitational force added to the force it has
/// collected so far.
pub open spec fn spec_pulled(g: int, s: Seq<StoredBody>, i: int) -> StoredBody {
    StoredBody {
        body: KinematicBody {
            force: Vec2 {
                x: sat(s[i].body.force.x + net_force_x(g, s, i)) as i64,
                y: sat(s[i].body.force.y + net_force_y(g, s, i)) as i64,
            },
            ..s[i].body
        },
        ..s[i]
    }
}

/// The content `s` after a gravity pass over the bodies whose preview flag is
/// `preview`.
pub open spec fn spec_gravity_all(g: int, s: Seq<StoredBody>, preview: bool) -> Seq<StoredBody> {
    Seq::new(
        s.len(),
        |i: int|
            if s[i].preview == preview {
                spec_pulled(g, s, i)
            } else {
                s[i]
            },
    )
}

/// The distance is at least as long as each of the two offsets it is made of.
pub proof fn lemma_offset_within_distance(dx: int, dy: int, d: int)
    requires
        is_sqrt(dx * dx + dy * dy, d),
    ensures
        -d <= dx <= d,
        -d <= dy <= d,
{
    assert(dx * dx < (d + 1) * (d + 1) && dy * dy < (d + 1) * (d + 1)) by (nonlinear_arith)
        requires
            dx * dx + dy * dy < (d + 1) * (d + 1),
    ;
    assert(-d <= dx <= d) by (nonlinear_arith)
        requires
            dx * dx < (d + 1) * (d + 1),
            0 <= d,
    ;
    assert(-d <= dy <= d) by (nonlinear_arith)
        requires
            dy * dy < (d + 1) * (d + 1),
            0 <= d,
    ;
}

/// A component of a pull is no larger in magnitude than the pull's strength.
pub proof fn lemma_component_bounded(strength: int, delta: int, d: int)
    requires
        in_range(strength),
        0 < d,
        -d <= delta <= d,
    ensures
        in_range(pull_component(strength, delta, d)),
{
    let a = strength * delta;
    lemma_trunc_div_bounds(a, d);
    assert(-(LIMIT * d) <= a <= LIMIT * d) by (nonlinear_arith)
        requires
            -LIMIT <= strength <= LIMIT,
            -d <= delta <= d,
            0 < d,
            a == strength * delta,
    ;
    let q = trunc_div(a, d);
    assert(-LIMIT <= q <= LIMIT) by (nonlinear_arith)
        requires
            -(LIMIT * d) <= a <= LIMIT * d,
            0 < d,
            a >= 0 ==> 0 <= q * d <= a,
            a <= 0 ==> 0 >= q * d >= a,
    ;
}

/// The force between two bodies is within the range of stored scalars.
pub proof fn lemma_pair_force_bounded(g: int, p: Vec2, m1: int, q: Vec2, m2: int)
    ensures
        in_range(pair_force_x(g, p, m1, q, m2)),
        in_range(pair_force_y(g, p, m1, q, m2)),
{
    let dx = q.x - p.x;
    let dy = q.y - p.y;
    let d2 = dist_sq(p, q);
    assert(dx * dx >= 0 && dy * dy >= 0) by (nonlinear_arith);
    if d2 != 0 {
        lemma_sqrt_exists(d2);
        let d = int_sqrt(d2);
        lemma_offset_within_distance(dx, dy, d);
        assert(d > 0) by {
            if d == 0 {
                assert((d + 1) * (d + 1) == 1) by (nonlinear_arith)
                    requires
                        d == 0,
                ;
            }
        }
        let strength = pull_strength(g, m1, m2, d2);
        lemma_component_bounded(strength, dx, d);
        lemma_component_bounded(strength, dy, d);
    }
}

/// Newton's third law: the force that one body exerts on another is the exact
/// opposite of the force that the other exerts on it.
pub proof fn lemma_gravity_antisymmetric(g: int, p: Vec2, m1: int, q: Vec2, m2: int)
    ensures
        pair_force_x(g, q, m2, p, m1) == -pair_force_x(g, p, m1, q, m2),
        pair_force_y(g, q, m2, p, m1) == -pair_force_y(g, p, m1, q, m2),
{
    let dx = q.x - p.x;
    let dy = q.y - p.y;
    let d2 = dist_sq(p, q);
    assert(dist_sq(q, p) == d2) by (nonlinear_arith)
        requires
            d2 == (q.x - p.x) * (q.x - p.x) + (q.y - p.y) * (q.y - p.y),
            dist_sq(q, p) == (p.x - q.x) * (p.x - q.x) + (p.y - q.y) * (p.y - q.y),
    ;
    assert(dx * dx >= 0 && dy * dy >= 0) by (nonlinear_arith);
    if d2 != 0 {
        lemma_sqrt_exists(d2);
        let d = int_sqrt(d2);
        assert(d > 0) by {
            if d == 0 {
                assert((d + 1) * (d + 1) == 1) by (nonlinear_arith)
                    requires
                        d == 0,
                ;
            }
        }
        assert(m1 * m2 == m2 * m1) by (nonlinear_arith);
        let strength = pull_strength(g, m1, m2, d2);
        assert(pull_strength(g, m2, m1, d2) == strength);
        assert(strength * (p.x - q.x) == -(strength * dx)) by (nonlinear_arith)
            requires
                dx == q.x - p.x,
        ;
        assert(strength * (p.y - q.y) == -(strength * dy)) by (nonlinear_arith)
            requires
                dy == q.y - p.y,
        ;
        lemma_trunc_div_odd(strength * dx, d);
        lemma_trunc_div_odd(strength * dy, d);
    }
}

/// What one body adds to the force on another is within the range of stored
/// scalars, so the sum over the first `n` bodies is at most `n` times `LIMIT`.
pub proof fn lemma_partial_force_bounded(g: int, s: Seq<StoredBody>, i: int, n: int)
    requires
        0 <= n,
    ensures
        -(n * LIMIT) <= partial_force_x(g, s, i, n) <= n * LIMIT,
        -(n * LIMIT) <= partial_force_y(g, s, i, n) <= n * LIMIT,
    decreases n,
{
    if n > 0 {
        lemma_partial_force_bounded(g, s, i, n - 1);
        let j = n - 1;
        lemma_pair_force_bounded(
            g,
            s[i].body.pos,
            s[i].body.mass as int,
            s[j].body.pos,
            s[j].body.mass as int,
        );
        assert(n * LIMIT == (n - 1) * LIMIT + LIMIT) by (nonlinear_arith);
    } else {
        assert(0 * LIMIT == 0);
    }
}

/// In a world of two bodies, neither a preview, the net forces on the two are
/// equal in magnitude and opposite in direction.
pub proof fn lemma_two_body_forces_opposite(g: int, s: Seq<StoredBody>)
    requires
        s.len() == 2,
        !s[0].preview,
        !s[1].preview,
    ensures
        net_force_x(g, s, 0) == -net_force_x(g, s, 1),
        net_force_y(g, s, 0) == -net_force_y(g, s, 1),
{
    reveal_with_fuel(partial_force_x, 3);
    reveal_with_fuel(partial_force_y, 3);
    lemma_gravity_antisymmetric(
        g,
        s[0].body.pos,
        s[0].body.mass as int,
        s[1].body.pos,
        s[1].body.mass as int,
    );
}

/// Gravity symmetry: after a gravity pass over two bodies alone in the world,
/// on which no force had been collected, the forces on the two are equal in
/// magnitude and opposite in direction.
pub proof fn lemma_two_body_pass_opposite(g: int, s: Seq<StoredBody>)
    requires
        s.len() == 2,
        !s[0].preview,
        !s[1].preview,
        s[0].body.force == (Vec2 { x: 0, y: 0 }),
        s[1].body.force == (Vec2 { x: 0, y: 0 }),
    ensures
        spec_gravity_all(g, s, false)[0].body.force.x == -spec_gravity_all(
            g,
            s,
            false,
        )[1].body.force.x,
        spec_gravity_all(g, s, false)[0].body.force.y == -spec_gravity_all(
            g,
            s,
            false,
        )[1].body.force.y,
{
    lemma_two_body_forces_opposite(g, s);
}

/// Preview isolation, for the sum over the first `n` bodies: two contents that
/// differ only in the state of their previews exert the same force on a body
/// that they share.
pub proof fn lemma_partial_force_ignores_previews(
    g: int,
    s: Seq<StoredBody>,
    t: Seq<StoredBody>,
    i: int,
    n: int,
)
    requires
        s.len() == t.len(),
        0 <= i < s.len(),
        0 <= n <= s.len(),
        s[i].body == t[i].body,
        forall|k: int| 0 <= k < s.len() ==> s[k].preview == t[k].preview,
        forall|k: int| 0 <= k < s.len() && !s[k].preview ==> s[k].body == t[k].body,
    ensures
        partial_force_x(g, s, i, n) == partial_force_x(g, t, i, n),
        partial_force_y(g, s, i, n) == partial_force_y(g, t, i, n),
    decreases n,
{
    if n > 0 {
        lemma_partial_force_ignores_previews(g, s, t, i, n - 1);
    }
}

/// Preview isolation: the gravity of a preview never shows in the force on a
/// body that is not a preview. Whatever the previews of two contents are
/// doing, bodies that the contents share feel the same net force.
pub proof fn lemma_preview_isolation(g: int, s: Seq<StoredBody>, t: Seq<StoredBody>, i: int)
    requires
        s.len() == t.len(),
        0 <= i < s.len(),
        !s[i].preview,
        forall|k: int| 0 <= k < s.len() ==> s[k].preview == t[k].preview,
        forall|k: int| 0 <= k < s.len() && !s[k].preview ==> s[k].body == t[k].body,
    ensures
        net_force_x(g, s, i) == net_force_x(g, t, i),
        net_force_y(g, s, i) == net_force_y(g, t, i),
        spec_pulled(g, s, i).body == spec_pulled(g, t, i).body,
{
    lemma_partial_force_ignores_previews(g, s, t, i, s.len() as int);
}

/// The squared distance between two points, in squared raw units.
pub fn dist_squared(p: Vec2, q: Vec2) -> (d2: i128)
    requires
        p.wf(),
        q.wf(),
    ensures
        d2 == dist_sq(p, q),
        0 <= d2,
{
    let dx: i64 = q.x - p.x;
    let dy: i64 = q.y - p.y;
    assert(0 <= dx * dx <= 0x3FFF_FFFF_FFFF_FFFE_0000_0000_0000_0004) by (nonlinear_arith)
        requires
            -0x7FFF_FFFF_FFFF_FFFE <= dx <= 0x7FFF_FFFF_FFFF_FFFE,
    ;
    assert(0 <= dy * dy <= 0x3FFF_FFFF_FFFF_FFFE_0000_0000_0000_0004) by (nonlinear_arith)
        requires
            -0x7FFF_FFFF_FFFF_FFFE <= dy <= 0x7FFF_FFFF_FFFF_FFFE,
    ;
    wide_mul(dx, dx) + wide_mul(dy, dy)
}

/// The force that the body at `q` with mass `m2` exerts on the body at `p` with
/// mass `m1`, under the gravitational constant `g`.
pub fn pair_force(g: i64, p: Vec2, m1: i64, q: Vec2, m2: i64) -> (f: Vec2)
    requires
        p.wf(),
        q.wf(),
    ensures
        f.x == pair_force_x(g as int, p, m1 as int, q, m2 as int),
        f.y == pair_force_y(g as int, p, m1 as int, q, m2 as int),
        f.wf(),
{
    let dx: i64 = q.x - p.x;
    let dy: i64 = q.y - p.y;
    let d2: i128 = dist_squared(p, q);
    proof {
        lemma_pair_force_bounded(g as int, p, m1 as int, q, m2 as int);
    }
    if d2 == 0 {
        return Vec2 { x: 0, y: 0 };
    }
    let d: i128 = isqrt(d2 as u128) as i128;
    proof {
        lemma_offset_within_distance(dx as int, dy as int, d as int);
        if d == 0 {
            assert((d + 1) * (d + 1) == 1) by (nonlinear_arith)
                requires
                    d == 0,
            ;
        }
    }
    let gmm: i64 = fmul(g, fmul(m1, m2));
    assert(-(LIMIT * 0x1_0000_0000_0000) <= gmm * 0x1_0000_0000_0000 <= LIMIT * 0x1_0000_0000_0000)
        by (nonlinear_arith)
        requires
            -LIMIT <= gmm <= LIMIT,
    ;
    let scaled: i128 = (gmm as i128) * 0x1_0000_0000_0000;
    let strength: i64 = saturate(quot(scaled, d2));
    let fx: i128 = quot(wide_mul(strength, dx), d);
    let fy: i128 = quot(wide_mul(strength, dy), d);
    Vec2 { x: fx as i64, y: fy as i64 }
}

/// The net gravitational force on body `i` of `bodies`.
pub fn net_force(g: i64, bodies: &Vec<StoredBody>, i: usize) -> (f: (i128, i128))
    requires
        i < bodies@.len(),
        forall|k: int| 0 <= k < bodies@.len() ==> (#[trigger] bodies@[k]).body.wf(),
    ensures
        f.0 == net_force_x(g as int, bodies@, i as int),
        f.1 == net_force_y(g as int, bodies@, i as int),
        -0x4000_0000_0000_0000_0000_0000_0000_0000 <= f.0 <= 0x4000_0000_0000_0000_0000_0000_0000_0000,
        -0x4000_0000_0000_0000_0000_0000_0000_0000 <= f.1 <= 0x4000_0000_0000_0000_0000_0000_0000_0000,
{
    let n = bodies.len();
    let on = bodies[i].body;
    let mut fx: i128 = 0;
    let mut fy: i128 = 0;
    let mut j: usize = 0;
    while j < n
        invariant
            j <= n,
            n == bodies@.len(),
            i < n,
            on == bodies@[i as int].body,
            forall|k: int| 0 <= k < bodies@.len() ==> (#[trigger] bodies@[k]).body.wf(),
            fx == partial_force_x(g as int, bodies@, i as int, j as int),
            fy == partial_force_y(g as int, bodies@, i as int, j as int),
        decreases n - j,
    {
        proof {
            lemma_partial_force_bounded(g as int, bodies@, i as int, j as int);
            lemma_partial_force_bounded(g as int, bodies@, i as int, j + 1);
            assert(j * LIMIT <= 0xFFFF_FFFF_FFFF_FFFF * LIMIT && (j + 1) * LIMIT
                <= 0x1_0000_0000_0000_0000 * LIMIT) by (nonlinear_arith)
                requires
                    0 <= j <= 0xFFFF_FFFF_FFFF_FFFF,
            ;
        }
        let by = bodies[j];
        if j != i && !by.preview {
            let f = pair_force(g, on.pos, on.mass, by.body.pos, by.body.mass);
            fx = fx + f.x as i128;
            fy = fy + f.y as i128;
        }
        j += 1;
    }
    proof {
        lemma_partial_force_bounded(g as int, bodies@, i as int, n as int);
        assert(n * LIMIT <= 0xFFFF_FFFF_FFFF_FFFF * LIMIT) by (nonlinear_arith)
            requires
                0 <= n <= 0xFFFF_FFFF_FFFF_FFFF,
        ;
    }
    (fx, fy)
}

/// Adds to every body whose preview flag is `preview` its net gravitational
/// force.
fn pull_kind(store: &mut BodyStore, g: i64, preview: bool)
    requires
        old(store).wf(),
    ensures
        final(store).wf(),
        final(store)@.next_handle == old(store)@.next_handle,
        final(store)@.bodies == spec_gravity_all(g as int, old(store)@.bodies, preview),
{
    let before = store.snapshot();
    let n = store.len();
    let mut i: usize = 0;
    while i < n
        invariant
            i <= n,
            store.wf(),
            store@.next_handle == old(store)@.next_handle,
            before@ == old(store)@.bodies,
            old(store).wf(),
            store@.bodies.len() == n,
            before@.len() == n,
            forall|k: int|
                0 <= k < i ==> store@.bodies[k] == #[trigger] spec_gravity_all(
                    g as int,
                    before@,
                    preview,
                )[k],
            forall|k: int| i <= k < n ==> store@.bodies[k] == #[trigger] before@[k],
        decreases n - i,
    {
        let e = store.entry(i);
        if e.preview == preview {
            let f = net_force(g, &before, i);
            let pulled = KinematicBody {
                force: Vec2 {
                    x: saturate(e.body.force.x as i128 + f.0),
                    y: saturate(e.body.force.y as i128 + f.1),
                },
                ..e.body
            };
            store.set_body(i, pulled);
        }
        i += 1;
    }
    assert(store@.bodies =~= spec_gravity_all(g as int, old(store)@.bodies, preview));
}

/// Adds to every body that is not a preview the pull of all the other bodies
/// that are not previews, unless the simulation is paused.
pub fn gravity_sys(store: &mut BodyStore, g: G, paused: Paused)
    requires
        old(store).wf(),
    ensures
        final(store).wf(),
        final(store)@.next_handle == old(store)@.next_handle,
        !paused.0 ==> final(store)@.bodies == spec_gravity_all(g.0 as int, old(store)@.bodies, false),
        paused.0 ==> final(store)@.bodies == old(store)@.bodies,
{
    if paused.0 {
        return ;
    }
    pull_kind(store, g.0, false);
}

/// Adds to every preview the pull of all the bodies that are not previews.
/// Previews pull at nothing, not even at each other.
pub fn preview_gravity_sys(store: &mut BodyStore, g: G)
    requires
        old(store).wf(),
    ensures
        final(store).wf(),
        final(store)@.next_handle == old(store)@.next_handle,
        final(store)@.bodies == spec_gravity_all(g.0 as int, old(store)@.bodies, true),
{
    pull_kind(store, g.0, true);
}

} // verus!
