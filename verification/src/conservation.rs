//! What a merge conserves: mass exactly, momentum up to the rounding of one
//! division, volume up to the rounding of one cube root.
//!
//! Mass and momentum are conserved in every group whose summed mass is a
//! scalar. The radius is the cube root of the summed cubed radii in every
//! group, clamped to the range of scalars like every other result.
use crate::collision::{
    final_owners, has_partner, lemma_owner_not_later, members, resolved, totals_of,
};
use crate::fixed::{int_cbrt, lemma_cbrt_exists, lemma_trunc_div_bounds, sat, trunc_div, LIMIT};
use crate::volume::{
    lemma_cbrt_grows, lemma_cbrt_of_cube, lemma_cube_grows, spec_cube, spec_volume, vclamp,
    volume_cap,
};
use crate::store::StoredBody;
use vstd::prelude::*;

verus! {

/// The summed mass of the members among the first `n` bodies of `s`.
pub open spec fn mass_sum(s: Seq<StoredBody>, member: Seq<bool>, n: int) -> int
    decreases n,
{
    if n <= 0 {
        0
    } else {
        mass_sum(s, member, n - 1) + if member[n - 1] {
            s[n - 1].body.mass as int
        } else {
            0
        }
    }
}

/// The summed momentum along x of the members among the first `n` bodies of
/// `s`, in squared raw units.
pub open spec fn momentum_x_sum(s: Seq<StoredBody>, member: Seq<bool>, n: int) -> int
    decreases n,
{
    if n <= 0 {
        0
    } else {
        momentum_x_sum(s, member, n - 1) + if member[n - 1] {
            s[n - 1].body.mass * s[n - 1].body.vel.x
        } else {
            0
        }
    }
}

/// The summed momentum along y of the members among the first `n` bodies of
/// `s`, in squared raw units.
pub open spec fn momentum_y_sum(s: Seq<StoredBody>, member: Seq<bool>, n: int) -> int
    decreases n,
{
    if n <= 0 {
        0
    } else {
        momentum_y_sum(s, member, n - 1) + if member[n - 1] {
            s[n - 1].body.mass * s[n - 1].body.vel.y
        } else {
            0
        }
    }
}

/// The summed cubed radius of the members among the first `n` bodies of `s`.
pub open spec fn volume_sum(s: Seq<StoredBody>, member: Seq<bool>, n: int) -> int
    decreases n,
{
    if n <= 0 {
        0
    } else {
        volume_sum(s, member, n - 1) + if member[n - 1] {
            s[n - 1].body.radius * s[n - 1].body.radius * s[n - 1].body.radius
        } else {
            0
        }
    }
}

/// Whether the first `n` bodies of `s` are well formed.
pub open spec fn bodies_wf(s: Seq<StoredBody>, n: int) -> bool {
    n <= s.len() && forall|k: int| 0 <= k < n ==> (#[trigger] s[k]).body.wf()
}

/// While the summed mass can be represented, the running totals of mass and
/// momentum are the plain sums.
pub proof fn lemma_totals_exact(s: Seq<StoredBody>, member: Seq<bool>, n: int)
    requires
        0 <= n,
        bodies_wf(s, n),
        mass_sum(s, member, n) <= LIMIT,
    ensures
        totals_of(s, member, n).mass == mass_sum(s, member, n),
        totals_of(s, member, n).momentum_x == momentum_x_sum(s, member, n),
        totals_of(s, member, n).momentum_y == momentum_y_sum(s, member, n),
        0 <= mass_sum(s, member, n),
        -(mass_sum(s, member, n) * LIMIT) <= momentum_x_sum(s, member, n) <= mass_sum(s, member, n)
            * LIMIT,
        -(mass_sum(s, member, n) * LIMIT) <= momentum_y_sum(s, member, n) <= mass_sum(s, member, n)
            * LIMIT,
    decreases n,
{
    if n > 0 {
        lemma_mass_sum_grows(s, member, n);
        lemma_totals_exact(s, member, n - 1);
        let m0 = mass_sum(s, member, n - 1);
        let m1 = mass_sum(s, member, n);
        let px0 = momentum_x_sum(s, member, n - 1);
        let py0 = momentum_y_sum(s, member, n - 1);
        if member[n - 1] {
            let b = s[n - 1].body;
            let m = b.mass as int;
            let vx = b.vel.x as int;
            let vy = b.vel.y as int;
            assert(-(m * LIMIT) <= m * vx <= m * LIMIT && -(m * LIMIT) <= m * vy <= m * LIMIT)
                by (nonlinear_arith)
                requires
                    0 < m,
                    -LIMIT <= vx <= LIMIT,
                    -LIMIT <= vy <= LIMIT,
            ;
            assert(m1 * LIMIT == m0 * LIMIT + m * LIMIT) by (nonlinear_arith)
                requires
                    m1 == m0 + m,
            ;
            assert(m1 * LIMIT <= LIMIT * LIMIT) by (nonlinear_arith)
                requires
                    0 <= m1 <= LIMIT,
            ;
        } else {
            assert(m1 == m0);
        }
        assert(0 <= m1 * LIMIT <= LIMIT * LIMIT) by (nonlinear_arith)
            requires
                0 <= m1 <= LIMIT,
        ;
    } else {
        assert(0 * LIMIT == 0);
    }
}

/// The summed mass does not shrink as more bodies are taken in.
pub proof fn lemma_mass_sum_grows(s: Seq<StoredBody>, member: Seq<bool>, n: int)
    requires
        0 < n,
        bodies_wf(s, n),
    ensures
        0 <= mass_sum(s, member, n - 1) <= mass_sum(s, member, n),
    decreases n,
{
    if n > 1 {
        lemma_mass_sum_grows(s, member, n - 1);
    }
}

/// The summed volume does not shrink as more bodies are taken in.
pub proof fn lemma_volume_sum_grows(s: Seq<StoredBody>, member: Seq<bool>, n: int)
    requires
        0 < n,
        bodies_wf(s, n),
    ensures
        0 <= volume_sum(s, member, n - 1) <= volume_sum(s, member, n),
    decreases n,
{
    let r = s[n - 1].body.radius as int;
    assert(r * r * r > 0) by (nonlinear_arith)
        requires
            r > 0,
    ;
    if n > 1 {
        lemma_volume_sum_grows(s, member, n - 1);
    }
}

/// The volume that stands for a number up to `volume_cap()` stands for that
/// number.
pub proof fn lemma_volume_round_trip(v: int)
    requires
        0 <= v <= volume_cap(),
    ensures
        spec_volume(v)@ == v,
{
}

/// The running total of volume is the plain sum of the cubed radii, held at
/// `volume_cap()`.
pub proof fn lemma_volume_held(s: Seq<StoredBody>, member: Seq<bool>, n: int)
    requires
        0 <= n,
        bodies_wf(s, n),
    ensures
        totals_of(s, member, n).volume@ == vclamp(volume_sum(s, member, n)),
        0 <= volume_sum(s, member, n),
    decreases n,
{
    if n > 0 {
        lemma_volume_sum_grows(s, member, n);
        lemma_volume_held(s, member, n - 1);
        if member[n - 1] {
            let r = s[n - 1].body.radius as int;
            lemma_cube_grows(0, r);
            let before = totals_of(s, member, n - 1).volume@;
            lemma_volume_round_trip(vclamp(before + spec_cube(r)));
        }
    } else {
        lemma_volume_round_trip(0);
    }
}

/// The cube root of a volume held at `volume_cap()`, clamped to the range of
/// scalars, is the clamped cube root of the volume itself: the cap lies above
/// the cube of every scalar.
pub proof fn lemma_cap_above_scalars(v: int)
    requires
        0 <= v,
    ensures
        sat(int_cbrt(vclamp(v))) == sat(int_cbrt(v)),
{
    if v > volume_cap() {
        let top = spec_cube(LIMIT + 1);
        assert(top <= volume_cap()) by (nonlinear_arith)
            requires
                top == (LIMIT + 1) * (LIMIT + 1) * (LIMIT + 1),
                volume_cap() == 0x4000_0000_0000_0000_0000_0000_0000_0000 * 0x1_0000_0000_0000_0000,
                LIMIT == 0x3FFF_FFFF_FFFF_FFFF,
        ;
        lemma_cbrt_of_cube(LIMIT + 1);
        lemma_cube_grows(0, LIMIT + 1);
        lemma_cbrt_grows(top, volume_cap());
        lemma_cbrt_grows(volume_cap(), v);
    }
}

/// Conservation of mass and momentum in a merge. Of the body that takes the
/// place of a group whose summed mass is a scalar: its mass is the sum of the
/// masses, and its momentum, mass times velocity, misses the summed momentum by
/// less than its mass times one unit of velocity.
pub proof fn lemma_merge_conserves(s: Seq<StoredBody>, member: Seq<bool>)
    requires
        bodies_wf(s, s.len() as int),
        member.len() == s.len(),
        exists|k: int| 0 <= k < s.len() && member[k],
        mass_sum(s, member, s.len() as int) <= LIMIT,
    ensures
        ({
            let n = s.len() as int;
            let b = totals_of(s, member, n).spec_merged();
            &&& b.mass == mass_sum(s, member, n)
            &&& b.mass > 0
            &&& -b.mass < b.mass * b.vel.x - momentum_x_sum(s, member, n) < b.mass
            &&& -b.mass < b.mass * b.vel.y - momentum_y_sum(s, member, n) < b.mass
        }),
{
    let n = s.len() as int;
    let k = choose|k: int| 0 <= k < s.len() && member[k];
    lemma_totals_exact(s, member, n);
    lemma_member_counts(s, member, n, k);
    let m = mass_sum(s, member, n);
    let px = momentum_x_sum(s, member, n);
    let py = momentum_y_sum(s, member, n);
    lemma_quotient_keeps_bound(px, m);
    lemma_quotient_keeps_bound(py, m);
    lemma_trunc_div_bounds(px, m);
    lemma_trunc_div_bounds(py, m);
    let qx = trunc_div(px, m);
    let qy = trunc_div(py, m);
    assert(m * qx == qx * m) by (nonlinear_arith);
    assert(m * qy == qy * m) by (nonlinear_arith);
}

/// Conservation of volume in a merge. Of the body that takes the place of any
/// group: its radius is the cube root of the summed cubed radii, rounded down
/// and clamped to the range of scalars. So it is at least the radius of every
/// body of the group, and where the root is a scalar, the cube of the radius
/// misses the summed volume by less than the rounding of the root.
pub proof fn lemma_merge_keeps_volume(s: Seq<StoredBody>, member: Seq<bool>)
    requires
        bodies_wf(s, s.len() as int),
        member.len() == s.len(),
        exists|k: int| 0 <= k < s.len() && member[k],
    ensures
        ({
            let n = s.len() as int;
            let b = totals_of(s, member, n).spec_merged();
            let v = volume_sum(s, member, n);
            &&& b.radius == sat(int_cbrt(v))
            &&& b.radius > 0
            &&& forall|k: int| 0 <= k < n && member[k] ==> (#[trigger] s[k]).body.radius <= b.radius
            &&& int_cbrt(v) <= LIMIT ==> spec_cube(b.radius as int) <= v < spec_cube(b.radius + 1)
        }),
{
    let n = s.len() as int;
    let v = volume_sum(s, member, n);
    let b = totals_of(s, member, n).spec_merged();
    lemma_volume_held(s, member, n);
    lemma_cap_above_scalars(v);
    lemma_cbrt_exists(v);
    assert forall|k: int| 0 <= k < n && member[k] implies (#[trigger] s[k]).body.radius
        <= b.radius by {
        let r = s[k].body.radius as int;
        lemma_member_volume(s, member, n, k);
        lemma_cube_grows(0, r);
        lemma_cbrt_of_cube(r);
        lemma_cbrt_grows(spec_cube(r), v);
    }
    let k = choose|k: int| 0 <= k < s.len() && member[k];
    assert(s[k].body.radius <= b.radius);
}

/// The summed volume of a group is at least the volume of each of its bodies.
pub proof fn lemma_member_volume(s: Seq<StoredBody>, member: Seq<bool>, n: int, k: int)
    requires
        0 <= k < n,
        bodies_wf(s, n),
        member[k],
    ensures
        spec_cube(s[k].body.radius as int) <= volume_sum(s, member, n),
    decreases n,
{
    lemma_volume_sum_grows(s, member, n);
    if k < n - 1 {
        lemma_member_volume(s, member, n - 1, k);
    }
}

/// Conservation in a collision pass. Of a body that has absorbed others in a
/// pass over `s`: its radius is the cube root of the summed cubed radii of its
/// group, rounded down and clamped to the range of scalars, and no smaller than
/// it was; and where the summed mass of the group is a scalar, its mass is that
/// sum, and its momentum misses the summed momentum of the group by less than
/// its mass times one unit of velocity.
pub proof fn lemma_collision_conserves(s: Seq<StoredBody>, i: int)
    requires
        bodies_wf(s, s.len() as int),
        0 <= i < s.len(),
        final_owners(s)[i] == i,
        has_partner(final_owners(s), i),
    ensures
        ({
            let n = s.len() as int;
            let group = members(final_owners(s), i);
            let b = resolved(s, final_owners(s), i).body;
            &&& b.radius == sat(int_cbrt(volume_sum(s, group, n)))
            &&& b.radius >= s[i].body.radius
            &&& int_cbrt(volume_sum(s, group, n)) <= LIMIT ==> spec_cube(b.radius as int)
                <= volume_sum(s, group, n) < spec_cube(b.radius + 1)
            &&& mass_sum(s, group, n) <= LIMIT ==> {
                &&& b.mass == mass_sum(s, group, n)
                &&& -b.mass < b.mass * b.vel.x - momentum_x_sum(s, group, n) < b.mass
                &&& -b.mass < b.mass * b.vel.y - momentum_y_sum(s, group, n) < b.mass
            }
        }),
{
    lemma_owner_not_later(s, s.len() as int, i);
    let group = members(final_owners(s), i);
    assert(group[i]);
    lemma_merge_keeps_volume(s, group);
    if mass_sum(s, group, s.len() as int) <= LIMIT {
        lemma_merge_conserves(s, group);
    }
}

/// A member among the first `n` bodies makes the summed mass and the summed
/// volume positive.
pub proof fn lemma_member_counts(s: Seq<StoredBody>, member: Seq<bool>, n: int, k: int)
    requires
        0 <= k < n,
        bodies_wf(s, n),
        member[k],
    ensures
        mass_sum(s, member, n) > 0,
        volume_sum(s, member, n) > 0,
    decreases n,
{
    lemma_mass_sum_grows(s, member, n);
    lemma_volume_sum_grows(s, member, n);
    if k == n - 1 {
        let r = s[n - 1].body.radius as int;
        assert(r * r * r > 0) by (nonlinear_arith)
            requires
                r > 0,
        ;
    } else {
        lemma_member_counts(s, member, n - 1, k);
    }
}

/// A weighted sum that is at most `m` times `LIMIT` in magnitude, divided by
/// `m`, is at most `LIMIT` in magnitude.
pub proof fn lemma_quotient_keeps_bound(p: int, m: int)
    requires
        0 < m,
        -(m * LIMIT) <= p <= m * LIMIT,
    ensures
        -LIMIT <= trunc_div(p, m) <= LIMIT,
{
    lemma_trunc_div_bounds(p, m);
    let q = trunc_div(p, m);
    assert(-LIMIT <= q <= LIMIT) by (nonlinear_arith)
        requires
            0 < m,
            -(m * LIMIT) <= p <= m * LIMIT,
            p >= 0 ==> 0 <= q * m <= p,
            p <= 0 ==> 0 >= q * m >= p,
    ;
}

} // verus!
