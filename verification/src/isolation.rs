//! Preview isolation, for the forecast: previews are moved by the bodies of
//! the simulation and move none of them.
//!
//! A step of the forecast leaves every body that is not a preview exactly as
//! it was.
use crate::collision::{hit_flags, spec_preview_collide};
use crate::gravity::spec_gravity_all;
use crate::integration::spec_integrate_all;
use crate::main_state::{
    fresh_preview, spec_preview_advanced, spec_preview_step, spec_preview_steps, Model,
};
use crate::resources::SimulationConfig;
use crate::store::{preview_flags, real_bodies, unmarked, StoredBody};
use vstd::prelude::*;

verus! {

/// Whether `s` and `t` hold the same bodies apart from the state of their
/// previews: they are equally long, a preview stands where a preview stands,
/// and the bodies that are not previews are equal.
pub open spec fn agree_on_real(s: Seq<StoredBody>, t: Seq<StoredBody>) -> bool {
    &&& s.len() == t.len()
    &&& forall|k: int| 0 <= k < s.len() ==> (#[trigger] s[k]).preview == t[k].preview
    &&& forall|k: int| 0 <= k < s.len() && !(#[trigger] s[k]).preview ==> s[k] == t[k]
}

/// Contents that differ only in the state of their previews hold the same
/// bodies that are not previews.
pub proof fn lemma_agree_same_real(s: Seq<StoredBody>, t: Seq<StoredBody>)
    requires
        agree_on_real(s, t),
    ensures
        real_bodies(s) == real_bodies(t),
    decreases s.len(),
{
    if s.len() > 0 {
        let s0 = s.drop_last();
        let t0 = t.drop_last();
        assert(agree_on_real(s0, t0)) by {
            assert forall|k: int| 0 <= k < s0.len() implies (#[trigger] s0[k]).preview
                == t0[k].preview by {
                assert(s0[k] == s[k]);
            }
            assert forall|k: int| 0 <= k < s0.len() && !(#[trigger] s0[k]).preview implies s0[k]
                == t0[k] by {
                assert(s0[k] == s[k]);
            }
        }
        lemma_agree_same_real(s0, t0);
        assert(preview_flags(s).drop_last() =~= preview_flags(s0));
        assert(preview_flags(t).drop_last() =~= preview_flags(t0));
        assert(s[s.len() - 1].preview == t[s.len() - 1].preview);
    } else {
        assert(s =~= t);
    }
}

/// Deleting previews deletes no body that is not a preview.
pub proof fn lemma_dropping_previews_keeps_real(s: Seq<StoredBody>, marks: Seq<bool>)
    requires
        marks.len() == s.len(),
        forall|k: int| 0 <= k < s.len() && marks[k] ==> (#[trigger] s[k]).preview,
    ensures
        real_bodies(unmarked(s, marks)) == real_bodies(s),
    decreases s.len(),
{
    if s.len() > 0 {
        let s0 = s.drop_last();
        let m0 = marks.drop_last();
        let last = s.last();
        assert forall|k: int| 0 <= k < s0.len() && m0[k] implies (#[trigger] s0[k]).preview by {
            assert(s0[k] == s[k]);
        }
        lemma_dropping_previews_keeps_real(s0, m0);
        let kept0 = unmarked(s0, m0);
        assert(preview_flags(s).drop_last() =~= preview_flags(s0));
        if !marks.last() {
            let kept = kept0.push(last);
            assert(kept.drop_last() =~= kept0);
            assert(preview_flags(kept).drop_last() =~= preview_flags(kept0));
        } else {
            assert(s[s.len() - 1].preview);
        }
    } else {
        assert(unmarked(s, marks) =~= s);
    }
}

/// Adding a preview adds no body that is not a preview.
pub proof fn lemma_new_preview_keeps_real(s: Seq<StoredBody>, e: StoredBody)
    requires
        e.preview,
    ensures
        real_bodies(s.push(e)) == real_bodies(s),
{
    let t = s.push(e);
    assert(t.drop_last() =~= s);
    assert(preview_flags(t).drop_last() =~= preview_flags(s));
}

/// Deleting all previews twice is deleting them once.
pub proof fn lemma_real_bodies_idempotent(s: Seq<StoredBody>)
    ensures
        real_bodies(real_bodies(s)) == real_bodies(s),
{
    lemma_dropping_previews_keeps_real(s, preview_flags(s));
}

/// Preview isolation, for the forecast: a step of the forecast leaves the
/// bodies that are not previews as they were.
pub proof fn lemma_preview_step_keeps_bodies(s: Seq<StoredBody>, config: SimulationConfig)
    ensures
        real_bodies(spec_preview_collide(spec_preview_advanced(s, config))) == real_bodies(s),
{
    let pulled = spec_gravity_all(config.g.0 as int, s, true);
    assert(agree_on_real(pulled, s));
    let advanced = spec_preview_advanced(s, config);
    assert(agree_on_real(advanced, s)) by {
        if config.toggles.integration {
            let moved = spec_integrate_all(pulled, true, config.dt.0 as int);
            assert(agree_on_real(moved, pulled));
        }
    }
    lemma_agree_same_real(advanced, s);
    lemma_dropping_previews_keeps_real(advanced, hit_flags(advanced));
}

/// Preview isolation, for the forecast: however many steps the forecast runs,
/// the bodies that are not previews stay as they were.
pub proof fn lemma_preview_steps_keep_bodies(m: Model, n: int)
    ensures
        real_bodies(spec_preview_steps(m, n).bodies) == real_bodies(m.bodies),
        spec_preview_steps(m, n).config == m.config,
    decreases n,
{
    if n > 0 {
        lemma_preview_steps_keep_bodies(m, n - 1);
        let before = spec_preview_steps(m, n - 1);
        let after = spec_preview_step(before);
        let left = spec_preview_collide(spec_preview_advanced(before.bodies, before.config));
        lemma_preview_step_keeps_bodies(before.bodies, before.config);
        lemma_real_bodies_idempotent(before.bodies);
        if after.bodies != left && after.bodies != real_bodies(before.bodies) {
            lemma_new_preview_keeps_real(
                left,
                fresh_preview(before.next_handle, before.preview.parameters->0),
            );
        }
    }
}

} // verus!
