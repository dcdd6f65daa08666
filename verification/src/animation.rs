//! Animations: time-indexed timelines and their sampling.
//!
//! A timeline targets one scalar property of one bone or slot and holds
//! keyframes ordered by time; sampling interpolates between the two
//! bracketing keys with the left key's curve. Attachment timelines switch
//! a slot's attachment stepwise, and event keys are emitted, not sampled.

use vstd::prelude::*;
use crate::fixed::{
    FX_ONE, FX_LIMIT, fx_in_range, fx_tdiv, fx_div, fx_lerp, fx_lerp_spec,
    lemma_tdiv_mono, lemma_tdiv_cancel, lemma_lerp_bounds, lemma_lerp_monotone,
};

verus! {

/// How values run between a keyframe and the next.
#[derive(Clone, Copy, Debug, PartialEq, Eq, Structural)]
pub enum Curve {
    /// Straight interpolation toward the next key.
    Linear,
    /// The key's value holds until the next key.
    Stepped,
}

/// One keyframe of a scalar timeline.
#[derive(Clone, Copy, Debug)]
pub struct Keyframe {
    /// Key time, from the animation's start.
    pub time: i64,
    /// Keyed value.
    pub value: i64,
    /// Curve toward the next key.
    pub curve: Curve,
}

/// The scalar property a timeline drives.
#[derive(Clone, Copy, Debug, PartialEq, Eq, Structural)]
pub enum Target {
    BoneX(usize),
    BoneY(usize),
    BoneRotation(usize),
    BoneScaleX(usize),
    BoneScaleY(usize),
    BoneShearX(usize),
    BoneShearY(usize),
    SlotColorR(usize),
    SlotColorG(usize),
    SlotColorB(usize),
    SlotColorA(usize),
}

/// A scalar timeline: one target property, keys ordered by time.
#[derive(Clone, Debug)]
pub struct Timeline {
    pub target: Target,
    pub keys: Vec<Keyframe>,
}

/// One key of an attachment timeline.
#[derive(Clone, Copy, Debug)]
pub struct AttachmentKey {
    pub time: i64,
    /// Attachment taken at this key, or none to clear the slot.
    pub attachment: Option<usize>,
}

/// A stepwise attachment switch for one slot.
#[derive(Clone, Debug)]
pub struct AttachmentTimeline {
    pub slot: usize,
    pub keys: Vec<AttachmentKey>,
}

/// One event emission: when the playhead passes `time`, an event of this
/// name is queued.
#[derive(Clone, Debug)]
pub struct EventKey {
    pub time: i64,
    pub name: String,
}

/// A named bundle of timelines.
#[derive(Clone, Debug)]
pub struct Animation {
    pub name: String,
    /// Length of the animation; looping wraps at this time.
    pub duration: i64,
    pub timelines: Vec<Timeline>,
    pub attachment_timelines: Vec<AttachmentTimeline>,
    /// Event keys ordered by time.
    pub events: Vec<EventKey>,
}

/// Keys are ordered strictly by time, with storable times and values.
pub open spec fn keys_wf(keys: Seq<Keyframe>) -> bool {
    &&& forall|i: int| 0 <= i < keys.len()
        ==> 0 <= (#[trigger] keys[i]).time <= FX_LIMIT && fx_in_range(keys[i].value as int)
    &&& forall|i: int| 0 <= i < keys.len() - 1
        ==> (#[trigger] keys[i]).time < keys[i + 1].time
}

/// Where `t` sits between `t0` and `t1`, as a ratio clamped to
/// `[0, FX_ONE]`.
pub open spec fn ratio_between(t: int, t0: int, t1: int) -> int {
    if t <= t0 {
        0
    } else if t >= t1 {
        FX_ONE as int
    } else {
        fx_tdiv((t - t0) * (FX_ONE as int), t1 - t0)
    }
}

/// The value between key `k0` and the following key `k1` at time `t`,
/// by `k0`'s curve.
pub open spec fn interp_spec(k0: Keyframe, k1: Keyframe, t: int) -> int {
    match k0.curve {
        Curve::Stepped => k0.value as int,
        Curve::Linear => fx_lerp_spec(
            k0.value as int,
            k1.value as int,
            ratio_between(t, k0.time as int, k1.time as int),
        ),
    }
}

/// The sampled value of the keys from index `i` on: the last key's value
/// once past it, otherwise the interpolation inside the bracketing pair.
pub open spec fn sample_from(keys: Seq<Keyframe>, i: int, t: int) -> int
    decreases keys.len() - i,
{
    if i + 1 >= keys.len() {
        keys[i].value as int
    } else if t < keys[i + 1].time {
        interp_spec(keys[i], keys[i + 1], t)
    } else {
        sample_from(keys, i + 1, t)
    }
}

/// The sampled value of a timeline at time `t`; an empty timeline
/// samples to zero.
pub open spec fn sample_keys(keys: Seq<Keyframe>, t: int) -> int {
    if keys.len() == 0 {
        0
    } else {
        sample_from(keys, 0, t)
    }
}

/// The clamped ratio lies in `[0, FX_ONE]` and is monotone in `t`.
pub proof fn lemma_ratio_between(t1: int, t2: int, t0: int, tend: int)
    requires
        t1 <= t2,
        t0 < tend,
    ensures
        0 <= ratio_between(t1, t0, tend) <= FX_ONE as int,
        0 <= ratio_between(t2, t0, tend) <= FX_ONE as int,
        ratio_between(t1, t0, tend) <= ratio_between(t2, t0, tend),
        ratio_between(t0, t0, tend) == 0,
        ratio_between(tend, t0, tend) == FX_ONE as int,
{
    let one = FX_ONE as int;
    let d = tend - t0;
    lemma_tdiv_cancel(one, d);
    assert(one * d == d * one) by (nonlinear_arith);
    if t0 < t1 < tend {
        assert(0 <= (t1 - t0) * one <= d * one) by (nonlinear_arith)
            requires
                0 <= t1 - t0,
                t1 - t0 <= d,
                one > 0,
        ;
        lemma_tdiv_mono(0, (t1 - t0) * one, d);
        lemma_tdiv_mono((t1 - t0) * one, d * one, d);
        vstd::arithmetic::div_mod::lemma_div_of0(d);
    }
    if t0 < t2 < tend {
        assert(0 <= (t2 - t0) * one <= d * one) by (nonlinear_arith)
            requires
                0 <= t2 - t0,
                t2 - t0 <= d,
                one > 0,
        ;
        lemma_tdiv_mono(0, (t2 - t0) * one, d);
        lemma_tdiv_mono((t2 - t0) * one, d * one, d);
        vstd::arithmetic::div_mod::lemma_div_of0(d);
    }
    if t0 < t1 < tend && t0 < t2 < tend {
        assert((t1 - t0) * one <= (t2 - t0) * one) by (nonlinear_arith)
            requires
                t1 <= t2,
                one > 0,
        ;
        lemma_tdiv_mono((t1 - t0) * one, (t2 - t0) * one, d);
    }
}

/// Mixing a pose value with itself is the identity, whatever the mix
/// ratio: blending two identical animations — in particular half and
/// half — reproduces the single-animation pose exactly.
pub proof fn lemma_self_mix_identity(keys: Seq<Keyframe>, t: int, ratio: int)
    requires
        0 <= ratio <= FX_ONE as int,
    ensures
        fx_lerp_spec(sample_keys(keys, t), sample_keys(keys, t), ratio) == sample_keys(keys, t),
{
    lemma_lerp_bounds(sample_keys(keys, t), sample_keys(keys, t), ratio);
}

/// A cross-fade from pose value `va` to pose value `vb` over a mix window
/// of length `dur`: at the start it yields exactly `va`, at the end
/// exactly `vb`, and in between it moves monotonically from the one to
/// the other as time advances.
pub proof fn lemma_crossfade(va: int, vb: int, e1: int, e2: int, dur: int)
    requires
        e1 <= e2,
        dur > 0,
    ensures
        fx_lerp_spec(va, vb, ratio_between(0, 0, dur)) == va,
        fx_lerp_spec(va, vb, ratio_between(dur, 0, dur)) == vb,
        va <= vb ==> fx_lerp_spec(va, vb, ratio_between(e1, 0, dur))
            <= fx_lerp_spec(va, vb, ratio_between(e2, 0, dur)),
        vb <= va ==> fx_lerp_spec(va, vb, ratio_between(e2, 0, dur))
            <= fx_lerp_spec(va, vb, ratio_between(e1, 0, dur)),
        va <= vb ==> va <= fx_lerp_spec(va, vb, ratio_between(e1, 0, dur)) <= vb,
        vb <= va ==> vb <= fx_lerp_spec(va, vb, ratio_between(e1, 0, dur)) <= va,
{
    lemma_ratio_between(e1, e2, 0, dur);
    lemma_lerp_bounds(va, vb, 0);
    lemma_lerp_bounds(va, vb, FX_ONE as int);
    lemma_lerp_bounds(va, vb, ratio_between(e1, 0, dur));
    lemma_lerp_monotone(va, vb, ratio_between(e1, 0, dur), ratio_between(e2, 0, dur));
}

/// Sample a scalar timeline at time `t`.
#[verifier::rlimit(50)]
pub fn sample(keys: &Vec<Keyframe>, t: i64) -> (r: i64)
    requires
        keys_wf(keys@),
        0 <= t <= FX_LIMIT,
    ensures
        r as int == sample_keys(keys@, t as int),
        fx_in_range(r as int),
{
    let n = keys.len();
    if n == 0 {
        return 0;
    }
    let mut i: usize = 0;
    while i + 1 < n && keys[i + 1].time <= t
        invariant
            keys_wf(keys@),
            0 <= t <= FX_LIMIT,
            n == keys@.len(),
            n > 0,
            0 <= i < n,
            sample_from(keys@, 0, t as int) == sample_from(keys@, i as int, t as int),
        decreases n - i,
    {
        i = i + 1;
    }
    if i + 1 >= n {
        keys[i].value
    } else {
        let k0 = keys[i];
        let k1 = keys[i + 1];
        match k0.curve {
            Curve::Stepped => k0.value,
            Curve::Linear => {
                let ratio = if t <= k0.time {
                    0
                } else if t >= k1.time {
                    FX_ONE
                } else {
                    proof {
                        let one = FX_ONE as int;
                        let d = k1.time as int - k0.time as int;
                        lemma_tdiv_cancel(one, d);
                        assert(one * d == d * one) by (nonlinear_arith);
                        assert(0 <= (t - k0.time) as int * one <= d * one) by (nonlinear_arith)
                            requires
                                0 <= (t - k0.time) as int,
                                (t - k0.time) as int <= d,
                                one > 0,
                        ;
                        lemma_tdiv_mono(0, (t - k0.time) as int * one, d);
                        lemma_tdiv_mono((t - k0.time) as int * one, d * one, d);
                        vstd::arithmetic::div_mod::lemma_div_of0(d);
                    }
                    fx_div(t - k0.time, k1.time - k0.time)
                };
                fx_lerp(k0.value, k1.value, ratio)
            },
        }
    }
}

} // verus!
