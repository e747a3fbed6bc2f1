//! Stability at rest: bodies that stand still, pull at each other with less
//! than the smallest force there is, and do not touch, stay exactly where they
//! are for any number of steps.
use crate::body::{KinematicBody, Vec2};
use crate::collision::{lemma_apart_untouched, overlaps, spec_collide};
use crate::fixed::{int_sqrt, lemma_sqrt_exists, lemma_trunc_div_bounds, spec_fmul, trunc_div, ONE};
use crate::gravity::{
    dist_sq, pair_force_x, pair_force_y, partial_force_x, partial_force_y, pull_strength,
    spec_gravity_all,
};
use crate::integration::{lemma_free_motion, spec_integrate, spec_integrate_all};
use crate::main_state::{
    lemma_ticks_keep_settings, spec_tick_bodies, spec_ticks, spec_updates, Model,
};
use crate::restriction::{lemma_ticks_without_previews, lemma_updates_without_previews};
use crate::store::real_bodies;
use crate::resources::SimulationConfig;
use crate::store::StoredBody;
use vstd::prelude::*;

verus! {

/// Whether the body stands still and no force has been collected on it.
pub open spec fn at_rest(b: KinematicBody) -> bool {
    &&& b.vel == (Vec2 { x: 0, y: 0 })
    &&& b.accel == (Vec2 { x: 0, y: 0 })
    &&& b.force == (Vec2 { x: 0, y: 0 })
}

/// Whether the pull of `b` at `a` rounds to nothing.
pub open spec fn no_pull(g: int, a: KinematicBody, b: KinematicBody) -> bool {
    &&& pair_force_x(g, a.pos, a.mass as int, b.pos, b.mass as int) == 0
    &&& pair_force_y(g, a.pos, a.mass as int, b.pos, b.mass as int) == 0
}

/// Whether the world is quiet: every body that is not a preview is well
/// formed and at rest, and no two of them pull at each other or touch.
pub open spec fn quiet(g: int, s: Seq<StoredBody>) -> bool {
    &&& forall|i: int|
        0 <= i < s.len() && !(#[trigger] s[i]).preview ==> s[i].body.wf() && at_rest(s[i].body)
    &&& forall|i: int, j: int|
        0 <= i < s.len() && 0 <= j < s.len() && i != j && !s[i].preview && !s[j].preview
            ==> #[trigger] no_pull(g, s[i].body, s[j].body) && !overlaps(s[i].body, s[j].body)
}

/// Two bodies so far apart that the strength of their pull is less than one
/// raw unit do not pull at each other at all.
pub proof fn lemma_far_apart_no_pull(g: int, a: KinematicBody, b: KinematicBody)
    requires
        -dist_sq(a.pos, b.pos) < spec_fmul(g, spec_fmul(a.mass as int, b.mass as int)) * (ONE
            * ONE) < dist_sq(a.pos, b.pos),
    ensures
        no_pull(g, a, b),
{
    let d2 = dist_sq(a.pos, b.pos);
    let scaled = spec_fmul(g, spec_fmul(a.mass as int, b.mass as int)) * (ONE * ONE);
    lemma_trunc_div_bounds(scaled, d2);
    let q = trunc_div(scaled, d2);
    assert(q == 0) by (nonlinear_arith)
        requires
            d2 > 0,
            -d2 < scaled < d2,
            scaled >= 0 ==> 0 <= q * d2 <= scaled,
            scaled <= 0 ==> 0 >= q * d2 >= scaled,
    ;
    assert(pull_strength(g, a.mass as int, b.mass as int, d2) == 0);
    lemma_sqrt_exists(d2);
    let d = int_sqrt(d2);
    if d == 0 {
        assert((d + 1) * (d + 1) == 1) by (nonlinear_arith)
            requires
                d == 0,
        ;
    }
    assert(0 * (b.pos.x - a.pos.x) == 0 && 0 * (b.pos.y - a.pos.y) == 0);
    assert(0int / d == 0) by (nonlinear_arith)
        requires
            d > 0,
    ;
}

/// In a quiet world no force acts on a body.
pub proof fn lemma_quiet_no_force(g: int, s: Seq<StoredBody>, i: int, n: int)
    requires
        quiet(g, s),
        0 <= i < s.len(),
        !s[i].preview,
        0 <= n <= s.len(),
    ensures
        partial_force_x(g, s, i, n) == 0,
        partial_force_y(g, s, i, n) == 0,
    decreases n,
{
    if n > 0 {
        lemma_quiet_no_force(g, s, i, n - 1);
        let j = n - 1;
        if j != i && !s[j].preview {
            assert(no_pull(g, s[i].body, s[j].body));
        }
    }
}

/// A well-formed body at rest is left as it is by a step of the integrator.
pub proof fn lemma_rest_is_kept(b: KinematicBody, dt: int)
    requires
        b.wf(),
        at_rest(b),
    ensures
        spec_integrate(b, dt) == b,
{
    lemma_free_motion(b, dt);
    assert(0int * dt == 0);
    assert(0int / (ONE as int) == 0);
}

/// Zero-force stability: a step of the simulation leaves a quiet world exactly
/// as it is.
pub proof fn lemma_quiet_stays(s: Seq<StoredBody>, config: SimulationConfig)
    requires
        quiet(config.g.0 as int, s),
    ensures
        spec_tick_bodies(s, config) == s,
{
    let g = config.g.0 as int;
    let pulled = spec_gravity_all(g, s, false);
    assert forall|i: int| 0 <= i < s.len() implies pulled[i] == s[i] by {
        if !s[i].preview {
            lemma_quiet_no_force(g, s, i, s.len() as int);
        }
    }
    assert(pulled =~= s);
    assert forall|i: int, j: int|
        0 <= i < j < s.len() && !s[i].preview && !s[j].preview implies !overlaps(
        s[i].body,
        s[j].body,
    ) by {
        assert(no_pull(g, s[i].body, s[j].body));
    }
    lemma_apart_untouched(s);
    assert(spec_collide(s) == s);
    let moved = spec_integrate_all(s, false, config.dt.0 as int);
    assert forall|i: int| 0 <= i < s.len() implies moved[i] == s[i] by {
        if !s[i].preview {
            lemma_rest_is_kept(s[i].body, config.dt.0 as int);
        }
    }
    assert(moved =~= s);
}

/// Zero-force stability, over any number of steps: the bodies of a quiet world
/// are after every step where and as they were at the start. Nothing drifts,
/// and nothing is lost.
pub proof fn lemma_quiet_forever(m: Model, n: int)
    requires
        quiet(m.config.g.0 as int, m.bodies),
    ensures
        spec_ticks(m, n).bodies == m.bodies,
    decreases n,
{
    if n > 0 {
        lemma_quiet_forever(m, n - 1);
        lemma_ticks_keep_settings(m, n - 1);
        lemma_quiet_stays(m.bodies, m.config);
    }
}

/// Zero-force stability, over any number of updates: whatever the forecast
/// does beside them, the bodies of a quiet world are after every update where
/// and as they were at the start.
pub proof fn lemma_quiet_through_updates(m: Model, n: int, forecast_steps: int)
    requires
        0 <= n,
        quiet(m.config.g.0 as int, m.bodies),
    ensures
        real_bodies(spec_updates(m, n, forecast_steps).bodies) == real_bodies(m.bodies),
{
    lemma_updates_without_previews(m, n, forecast_steps);
    lemma_ticks_without_previews(m, n);
    lemma_quiet_forever(m, n);
}

} // verus!
