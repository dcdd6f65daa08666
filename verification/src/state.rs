//! Per-skeleton playback: tracks, cross-fades and pose application.
//!
//! Each track plays one current entry, optionally cross-fades an incoming
//! entry over that entry's mix window, and queues further entries behind a
//! start delay. `update` advances the clock and the per-track state
//! machine; `apply` writes the blended sampled values onto a skeleton's
//! local pose and queues timeline events; the caller drains the event
//! queue afterwards.

use vstd::prelude::*;
use crate::animation::{
    Animation, AttachmentKey, Target, Timeline, keys_wf, ratio_between, sample, sample_keys,
};
use crate::color::Color;
use crate::error::EngineError;
use crate::fixed::{
    FX_ONE, FX_LIMIT, fx_in_range, fx_add, fx_add_spec, fx_sub, fx_sub_spec, fx_lerp,
    fx_lerp_spec,
};
use crate::skeleton::{Bone, Skeleton, Slot, bones_wf, bone_wf_at};

verus! {

/// One queued or playing animation on a track.
#[derive(Clone, Copy, Debug)]
pub struct TrackEntry {
    /// The animation played, or none for the empty animation.
    pub animation: Option<usize>,
    /// Whether the entry wraps at the animation's duration.
    pub looping: bool,
    /// Blend weight of this track's contribution, `0..=FX_ONE`.
    pub alpha: i64,
    /// Time since the entry started playing.
    pub track_time: i64,
    /// Time the last `apply` sampled events up to.
    pub last_time: i64,
    /// Cross-fade window when this entry fades in.
    pub mix_duration: i64,
    /// Wait before a queued entry starts.
    pub delay: i64,
}

/// One playback lane. States: empty (no current), playing (current
/// alone), mixing (current fading out, `mixing_to` fading in), with
/// queued entries waiting behind their delays.
#[derive(Clone, Debug)]
pub struct Track {
    pub current: Option<TrackEntry>,
    pub mixing_to: Option<TrackEntry>,
    pub queue: Vec<TrackEntry>,
}

/// A queued notification for the caller.
#[derive(Clone, Debug)]
pub enum EventItem {
    /// A non-looping entry ran past its duration, or a looping one
    /// crossed the loop boundary.
    Complete { track: usize },
    /// An event key of a playing animation was passed.
    Timeline { name: String, time: i64 },
    /// An incoming entry finished its cross-fade and was promoted to
    /// current on its track.
    Promoted { track: usize },
}

/// Playback state for one skeleton.
pub struct AnimationState {
    tracks: Vec<Track>,
    events: Vec<EventItem>,
}

/// Shared cross-fade configuration: the default mix window, and overrides
/// for specific animation pairs.
pub struct AnimationStateData {
    pub default_mix: i64,
    /// (from, to, duration) overrides, first match wins.
    pub mixes: Vec<(usize, usize, i64)>,
}

/// Scalars of one entry are storable and its animation index is valid.
pub open spec fn entry_wf(e: TrackEntry, anim_count: int) -> bool {
    &&& match e.animation {
        Some(a) => 0 <= a < anim_count,
        None => true,
    }
    &&& 0 <= e.alpha <= FX_ONE
    &&& 0 <= e.track_time <= FX_LIMIT
    &&& -FX_LIMIT <= e.last_time <= FX_LIMIT
    &&& 0 <= e.mix_duration <= FX_LIMIT
    &&& -FX_LIMIT <= e.delay <= FX_LIMIT
}

/// Every entry on the track is well formed.
pub open spec fn track_wf(t: Track, anim_count: int) -> bool {
    &&& match t.current {
        Some(c) => entry_wf(c, anim_count),
        None => t.mixing_to is None,
    }
    &&& match t.mixing_to {
        Some(m) => entry_wf(m, anim_count),
        None => true,
    }
    &&& forall|i: int| 0 <= i < t.queue@.len() ==> entry_wf(#[trigger] t.queue@[i], anim_count)
}

/// Every track of the state is well formed against the animation pool.
pub open spec fn state_wf(s: &AnimationState, anim_count: int) -> bool {
    forall|k: int| 0 <= k < s.tracks_view().len()
        ==> track_wf(#[trigger] s.tracks_view()[k], anim_count)
}

/// Every animation's duration is a storable, non-negative time.
pub open spec fn durations_wf(anims: Seq<Animation>) -> bool {
    forall|a: int| 0 <= a < anims.len()
        ==> 0 <= (#[trigger] anims[a]).duration <= FX_LIMIT
}

/// Duration of the animation an entry plays; the empty animation has
/// duration zero.
pub open spec fn entry_duration(anims: Seq<Animation>, e: TrackEntry) -> int {
    match e.animation {
        Some(a) => anims[a as int].duration as int,
        None => 0,
    }
}

/// The mix ratio an incoming entry has reached: its elapsed time over its
/// mix window, clamped to `[0, FX_ONE]`; an empty window is complete at
/// once.
pub open spec fn mix_ratio_of(m: TrackEntry) -> int {
    if m.mix_duration <= 0 {
        FX_ONE as int
    } else {
        ratio_between(m.track_time as int, 0, m.mix_duration as int)
    }
}


/// The mix durations of the shared configuration are storable times.
pub open spec fn state_data_wf(d: AnimationStateData) -> bool {
    &&& 0 <= d.default_mix <= FX_LIMIT
    &&& forall|i: int| 0 <= i < d.mixes@.len()
        ==> 0 <= (#[trigger] d.mixes@[i]).2 <= FX_LIMIT
}

/// First matching cross-fade override from index `i` on.
pub open spec fn mix_lookup(mixes: Seq<(usize, usize, i64)>, f: usize, t: usize, i: int) -> Option<i64>
    decreases mixes.len() - i,
{
    if i < 0 || i >= mixes.len() {
        None
    } else if mixes[i].0 == f && mixes[i].1 == t {
        Some(mixes[i].2)
    } else {
        mix_lookup(mixes, f, t, i + 1)
    }
}

/// The cross-fade window configured from one animation to another: the
/// first matching override, else the default; no fade when nothing was
/// playing.
pub open spec fn mix_for_spec(d: AnimationStateData, from: Option<usize>, to: usize) -> i64 {
    match from {
        Some(f) => match mix_lookup(d.mixes@, f, to, 0) {
            Some(m) => m,
            None => d.default_mix,
        },
        None => 0i64,
    }
}

/// The current entry of track `k`, none for a track that does not exist.
pub open spec fn cur_of(tracks: Seq<Track>, k: int) -> Option<TrackEntry> {
    if 0 <= k < tracks.len() {
        tracks[k].current
    } else {
        None
    }
}

/// The incoming entry of track `k`, none for a track that does not exist.
pub open spec fn mixto_of(tracks: Seq<Track>, k: int) -> Option<TrackEntry> {
    if 0 <= k < tracks.len() {
        tracks[k].mixing_to
    } else {
        None
    }
}

/// The queue of track `k`, empty for a track that does not exist.
pub open spec fn queue_of(tracks: Seq<Track>, k: int) -> Seq<TrackEntry> {
    if 0 <= k < tracks.len() {
        tracks[k].queue@
    } else {
        Seq::empty()
    }
}

/// The animation a newly queued entry would fade from: the latest queued
/// entry, else the incoming entry, else the current one.
pub open spec fn prev_animation_of(tracks: Seq<Track>, k: int) -> Option<usize> {
    if queue_of(tracks, k).len() > 0 {
        queue_of(tracks, k).last().animation
    } else {
        match mixto_of(tracks, k) {
            Some(m) => m.animation,
            None => match cur_of(tracks, k) {
                Some(c) => c.animation,
                None => None,
            },
        }
    }
}

/// The cross-fade configuration lookup, at runtime.
fn mix_for(data: &AnimationStateData, from: Option<usize>, to: usize) -> (r: i64)
    requires
        state_data_wf(*data),
    ensures
        r == mix_for_spec(*data, from, to),
        0 <= r <= FX_LIMIT,
{
    match from {
        Some(f) => {
            let n = data.mixes.len();
            let mut i: usize = 0;
            while i < n
                invariant
                    from == Some(f),
                    state_data_wf(*data),
                    0 <= i <= n,
                    n == data.mixes@.len(),
                    mix_lookup(data.mixes@, f, to, 0) == mix_lookup(data.mixes@, f, to, i as int),
                decreases n - i,
            {
                let m = data.mixes[i];
                if m.0 == f && m.1 == to {
                    proof {
                        assert(mix_lookup(data.mixes@, f, to, 0) == Some(m.2));
                    }
                    return m.2;
                }
                i = i + 1;
            }
            proof {
                assert(mix_lookup(data.mixes@, f, to, n as int) is None);
            }
            data.default_mix
        },
        None => 0,
    }
}

/// One update step of a track: the current entry's clock advances; an
/// incoming entry advances its fade and is promoted once its ratio is
/// full; with no fade running, the queue head counts its delay down and
/// begins a cross-fade when the delay is spent.
pub open spec fn step_track(t: Track, dt: int) -> Track {
    match t.current {
        None => {
            if t.queue@.len() > 0 {
                let h = t.queue@[0];
                let h2 = TrackEntry { delay: fx_sub_spec(h.delay as int, dt) as i64, ..h };
                if h2.delay <= 0 {
                    Track {
                        current: Some(TrackEntry { delay: 0i64, track_time: 0i64, last_time: -1i64, ..h }),
                        mixing_to: None,
                        queue: t.queue,
                    }
                } else {
                    Track { current: None, mixing_to: None, queue: t.queue }
                }
            } else {
                t
            }
        },
        Some(c) => {
            let c2 = TrackEntry { track_time: fx_add_spec(c.track_time as int, dt) as i64, ..c };
            match t.mixing_to {
                Some(m) => {
                    let m2 = TrackEntry {
                        track_time: fx_add_spec(m.track_time as int, dt) as i64,
                        ..m
                    };
                    if mix_ratio_of(m2) >= FX_ONE as int {
                        Track { current: Some(m2), mixing_to: None, queue: t.queue }
                    } else {
                        Track { current: Some(c2), mixing_to: Some(m2), queue: t.queue }
                    }
                },
                None => {
                    if t.queue@.len() > 0 {
                        let h = t.queue@[0];
                        let h2 = TrackEntry { delay: fx_sub_spec(h.delay as int, dt) as i64, ..h };
                        if h2.delay <= 0 {
                            Track {
                                current: Some(c2),
                                mixing_to: Some(TrackEntry {
                                    delay: 0i64,
                                    track_time: 0i64,
                                    last_time: -1i64,
                                    ..h
                                }),
                                queue: t.queue,
                            }
                        } else {
                            Track { current: Some(c2), mixing_to: None, queue: t.queue }
                        }
                    } else {
                        Track { current: Some(c2), mixing_to: None, queue: t.queue }
                    }
                },
            }
        },
    }
}

/// Sequence form of `step_track`'s queue: the spec above keeps `Vec` and
/// `Seq` apart, so this names the queue a stepped track ends with.
pub open spec fn step_queue(t: Track, dt: int) -> Seq<TrackEntry> {
    match t.current {
        None => {
            if t.queue@.len() > 0 {
                let h = t.queue@[0];
                let h2 = TrackEntry { delay: fx_sub_spec(h.delay as int, dt) as i64, ..h };
                if h2.delay <= 0 {
                    t.queue@.remove(0)
                } else {
                    t.queue@.update(0, h2)
                }
            } else {
                t.queue@
            }
        },
        Some(_) => {
            match t.mixing_to {
                Some(_) => t.queue@,
                None => {
                    if t.queue@.len() > 0 {
                        let h = t.queue@[0];
                        let h2 = TrackEntry { delay: fx_sub_spec(h.delay as int, dt) as i64, ..h };
                        if h2.delay <= 0 {
                            t.queue@.remove(0)
                        } else {
                            t.queue@.update(0, h2)
                        }
                    } else {
                        t.queue@
                    }
                },
            }
        },
    }
}

/// Whether this update step completes the current entry: a non-looping
/// entry runs past its duration, a looping one crosses the loop boundary.
pub open spec fn step_completes(t: Track, dur: int, dt: int) -> bool {
    match t.current {
        Some(c) => {
            let nt = fx_add_spec(c.track_time as int, dt);
            dur > 0 && (if c.looping {
                c.track_time as int / dur < nt / dur
            } else {
                c.track_time < dur && dur <= nt
            })
        },
        None => false,
    }
}

/// Whether this update step finishes a cross-fade: the incoming entry's
/// advanced mix ratio reaches one and it is promoted to current.
pub open spec fn step_promotes(t: Track, dt: int) -> bool {
    match t.current {
        Some(_) => match t.mixing_to {
            Some(m) => mix_ratio_of(TrackEntry {
                track_time: fx_add_spec(m.track_time as int, dt) as i64,
                ..m
            }) >= FX_ONE as int,
            None => false,
        },
        None => false,
    }
}

/// The bookkeeping events an update step queues for tracks `0..k`, in
/// track order: a completion when an entry runs out or laps, then a
/// promotion when a cross-fade finishes.
pub open spec fn update_events_upto(
    tracks: Seq<Track>,
    anims: Seq<Animation>,
    dt: int,
    k: int,
) -> Seq<EventItem>
    decreases k,
{
    if k <= 0 {
        Seq::empty()
    } else {
        let prev = update_events_upto(tracks, anims, dt, k - 1);
        let t = tracks[k - 1];
        let withc = if t.current matches Some(c)
            && step_completes(t, entry_duration(anims, c), dt) {
            prev.push(EventItem::Complete { track: (k - 1) as usize })
        } else {
            prev
        };
        if step_promotes(t, dt) {
            withc.push(EventItem::Promoted { track: (k - 1) as usize })
        } else {
            withc
        }
    }
}

impl AnimationState {
    /// The playback tracks, as the contracts speak of them.
    pub closed spec fn tracks_view(&self) -> Seq<Track> {
        self.tracks@
    }

    /// The queued, undrained events.
    pub closed spec fn events_view(&self) -> Seq<EventItem> {
        self.events@
    }

    /// A state with no tracks and no pending events.
    pub fn new() -> (s: AnimationState)
        ensures
            s.tracks_view().len() == 0,
            s.events_view().len() == 0,
    {
        AnimationState { tracks: Vec::new(), events: Vec::new() }
    }

    /// Advance every track by `dt`: clocks move, completed entries queue
    /// completion events, fades progress and queue a promotion event when
    /// the incoming entry takes the track over, and queued entries count
    /// their delays down.
    pub fn update(&mut self, animations: &Vec<Animation>, dt: i64) -> (r: Result<(), EngineError>)
        requires
            0 <= dt <= FX_LIMIT,
        ensures
            r is Ok <==> durations_wf(animations@)
                && state_wf(&*old(self), animations@.len() as int),
            r is Err ==> *final(self) == *old(self),
            r matches Err(e) ==> (if durations_wf(animations@) {
                e == EngineError::State
            } else {
                e == EngineError::Load
            }),
            r is Ok ==> {
                &&& final(self).tracks_view().len() == old(self).tracks_view().len()
                &&& forall|k: int| 0 <= k < old(self).tracks_view().len()
                    ==> {
                        let t0 = old(self).tracks_view()[k];
                        let t1 = #[trigger] final(self).tracks_view()[k];
                        t1.current == step_track(t0, dt as int).current
                            && t1.mixing_to == step_track(t0, dt as int).mixing_to
                            && t1.queue@ == step_queue(t0, dt as int)
                    }
                &&& final(self).events_view() == old(self).events_view()
                    + update_events_upto(
                        old(self).tracks_view(),
                        animations@,
                        dt as int,
                        old(self).tracks_view().len() as int,
                    )
            },
    {
        let nt = self.tracks.len();
        let na = animations.len();
        let mut d: usize = 0;
        while d < na
            invariant
                0 <= d <= na,
                na == animations@.len(),
                self.tracks@ == old(self).tracks_view(),
                self.events@ == old(self).events_view(),
                forall|j: int| 0 <= j < d
                    ==> 0 <= (#[trigger] animations@[j]).duration <= FX_LIMIT,
            decreases na - d,
        {
            let dur = animations[d].duration;
            if !(0 <= dur && dur <= FX_LIMIT) {
                return Err(EngineError::Load);
            }
            d = d + 1;
        }
        let mut k: usize = 0;
        while k < nt
            invariant
                0 <= k <= nt,
                nt == self.tracks_view().len(),
                na == animations@.len(),
                durations_wf(animations@),
                self.tracks@ == old(self).tracks_view(),
                self.events@ == old(self).events_view(),
                forall|j: int| 0 <= j < k
                    ==> track_wf(#[trigger] self.tracks_view()[j], na as int),
            decreases nt - k,
        {
            if !track_ok(&self.tracks[k], na) {
                return Err(EngineError::State);
            }
            k = k + 1;
        }
        let ghost old_tracks = self.tracks@;
        let ghost old_events = self.events@;
        let mut i: usize = 0;
        while i < nt
            invariant
                0 <= dt <= FX_LIMIT,
                0 <= i <= nt,
                nt == self.tracks@.len(),
                na == animations@.len(),
                old_tracks.len() == nt,
                forall|j: int| 0 <= j < nt ==> track_wf(#[trigger] old_tracks[j], na as int),
                durations_wf(animations@),
                forall|j: int| i <= j < nt ==> #[trigger] self.tracks@[j] == old_tracks[j],
                forall|j: int| 0 <= j < i
                    ==> {
                        let t1 = #[trigger] self.tracks@[j];
                        t1.current == step_track(old_tracks[j], dt as int).current
                            && t1.mixing_to == step_track(old_tracks[j], dt as int).mixing_to
                            && t1.queue@ == step_queue(old_tracks[j], dt as int)
                    },
                self.events@ == old_events + update_events_upto(old_tracks, animations@, dt as int, i as int),
            decreases nt - i,
        {
            let ghost pre = self.tracks@;
            let mut t2 = self.tracks.remove(i);
            let current = t2.current;
            let mixing_to = t2.mixing_to;
            match current {
                None => {
                    if t2.queue.len() > 0 {
                        let h = t2.queue[0];
                        let nd = fx_sub(h.delay, dt);
                        if nd <= 0 {
                            t2.current = Some(TrackEntry {
                                delay: 0,
                                track_time: 0,
                                last_time: -1,
                                ..h
                            });
                            t2.queue.remove(0);
                        } else {
                            t2.queue[0] = TrackEntry { delay: nd, ..h };
                        }
                    }
                },
                Some(c) => {
                    let c2 = TrackEntry { track_time: fx_add(c.track_time, dt), ..c };
                    let dur = match c.animation {
                        Some(a) => animations[a].duration,
                        None => 0,
                    };
                    if complete_crossed(&c, dur, dt) {
                        self.events.push(EventItem::Complete { track: i });
                    }
                    match mixing_to {
                        Some(m) => {
                            let m2 = TrackEntry { track_time: fx_add(m.track_time, dt), ..m };
                            if mix_ratio_exec(&m2) >= FX_ONE {
                                self.events.push(EventItem::Promoted { track: i });
                                t2.current = Some(m2);
                                t2.mixing_to = None;
                            } else {
                                t2.current = Some(c2);
                                t2.mixing_to = Some(m2);
                            }
                        },
                        None => {
                            t2.current = Some(c2);
                            if t2.queue.len() > 0 {
                                let h = t2.queue[0];
                                let nd = fx_sub(h.delay, dt);
                                if nd <= 0 {
                                    t2.mixing_to = Some(TrackEntry {
                                        delay: 0,
                                        track_time: 0,
                                        last_time: -1,
                                        ..h
                                    });
                                    t2.queue.remove(0);
                                } else {
                                    t2.queue[0] = TrackEntry { delay: nd, ..h };
                                }
                            }
                        },
                    }
                },
            }
            self.tracks.insert(i, t2);
            proof {
                assert(self.tracks@ =~= pre.update(i as int, self.tracks@[i as int]));
            }
            i = i + 1;
        }
        Ok(())
    }

    /// Make sure tracks up to and including `idx` exist; new ones are
    /// empty.
    fn ensure_track(&mut self, idx: usize)
        ensures
            final(self).tracks_view().len() == vstd::math::max(
                old(self).tracks_view().len() as int,
                idx + 1,
            ),
            forall|k: int| 0 <= k < old(self).tracks_view().len()
                ==> #[trigger] final(self).tracks_view()[k] == old(self).tracks_view()[k],
            forall|k: int| old(self).tracks_view().len() <= k < final(self).tracks_view().len()
                ==> (#[trigger] final(self).tracks_view()[k]).current is None
                    && final(self).tracks_view()[k].mixing_to is None
                    && final(self).tracks_view()[k].queue@.len() == 0,
            final(self).events_view() == old(self).events_view(),
    {
        while self.tracks.len() <= idx
            invariant
                self.tracks@.len() >= old(self).tracks@.len(),
                self.tracks@.len() <= vstd::math::max(old(self).tracks@.len() as int, idx + 1),
                self.events@ == old(self).events_view(),
                forall|k: int| 0 <= k < old(self).tracks@.len()
                    ==> #[trigger] self.tracks@[k] == old(self).tracks@[k],
                forall|k: int| old(self).tracks@.len() <= k < self.tracks@.len()
                    ==> (#[trigger] self.tracks@[k]).current is None
                        && self.tracks@[k].mixing_to is None
                        && self.tracks@[k].queue@.len() == 0,
            decreases idx + 1 - self.tracks@.len(),
        {
            self.tracks.push(Track { current: None, mixing_to: None, queue: Vec::new() });
        }
    }

    /// Start an animation on a track, replacing what plays there. With no
    /// current entry, or a zero mix window, the new entry starts at once;
    /// otherwise the current entry keeps playing and the new one fades in
    /// over the configured cross-fade. Queued entries are discarded.
    /// Fails with a state error — and only then, leaving the state
    /// unchanged — when the animation index is outside the pool.
    pub fn set_animation(
        &mut self,
        data: &AnimationStateData,
        animations: &Vec<Animation>,
        track_index: usize,
        animation: usize,
        looping: bool,
    ) -> (r: Result<(), EngineError>)
        requires
            state_data_wf(*data),
        ensures
            r is Ok <==> animation < animations@.len(),
            r is Err ==> *final(self) == *old(self),
            r matches Err(e) ==> e == EngineError::State,
            r is Ok ==> {
                let n0 = old(self).tracks_view().len() as int;
                let n1 = final(self).tracks_view().len() as int;
                &&& n1 == vstd::math::max(n0, track_index + 1)
                &&& forall|k: int| 0 <= k < n0 && k != track_index
                    ==> #[trigger] final(self).tracks_view()[k] == old(self).tracks_view()[k]
                &&& {
                    let c0 = cur_of(old(self).tracks_view(), track_index as int);
                    let mix = match c0 {
                        Some(c) => mix_for_spec(*data, c.animation, animation),
                        None => 0i64,
                    };
                    let entry = TrackEntry {
                        animation: Some(animation),
                        looping,
                        alpha: FX_ONE as i64,
                        track_time: 0i64,
                        last_time: -1i64,
                        mix_duration: mix,
                        delay: 0i64,
                    };
                    let t1 = final(self).tracks_view()[track_index as int];
                    if c0 is Some && mix > 0 {
                        t1.current == c0 && t1.mixing_to == Some(entry)
                    } else {
                        t1.current == Some(entry) && t1.mixing_to is None
                    }
                }
                &&& final(self).tracks_view()[track_index as int].queue@.len() == 0
                &&& final(self).events_view() == old(self).events_view()
            },
    {
        if animation >= animations.len() {
            return Err(EngineError::State);
        }
        self.ensure_track(track_index);
        let mut t = self.tracks.remove(track_index);
        let ghost pre = self.tracks@;
        let mix = match &t.current {
            Some(c) => mix_for(data, c.animation, animation),
            None => 0,
        };
        let entry = TrackEntry {
            animation: Some(animation),
            looping,
            alpha: FX_ONE,
            track_time: 0,
            last_time: -1,
            mix_duration: mix,
            delay: 0,
        };
        t.queue.clear();
        match t.current {
            Some(_) if mix > 0 => {
                t.mixing_to = Some(entry);
            },
            _ => {
                t.current = Some(entry);
                t.mixing_to = None;
            },
        }
        self.tracks.insert(track_index, t);
        proof {
            assert(self.tracks@ =~= pre.insert(track_index as int, self.tracks@[track_index as int]));
        }
        Ok(())
    }

    /// Queue an animation behind what already plays on the track; it
    /// starts once its delay is spent, cross-fading over the configured
    /// mix window. Fails with a state error — and only then, leaving the
    /// state unchanged — when the animation index is outside the pool.
    pub fn add_animation(
        &mut self,
        data: &AnimationStateData,
        animations: &Vec<Animation>,
        track_index: usize,
        animation: usize,
        looping: bool,
        delay: i64,
    ) -> (r: Result<(), EngineError>)
        requires
            state_data_wf(*data),
            0 <= delay <= FX_LIMIT,
        ensures
            r is Ok <==> animation < animations@.len(),
            r is Err ==> *final(self) == *old(self),
            r matches Err(e) ==> e == EngineError::State,
            r is Ok ==> {
                let n0 = old(self).tracks_view().len() as int;
                &&& final(self).tracks_view().len() == vstd::math::max(n0, track_index + 1)
                &&& forall|k: int| 0 <= k < n0 && k != track_index
                    ==> #[trigger] final(self).tracks_view()[k] == old(self).tracks_view()[k]
                &&& {
                    let tracks0 = old(self).tracks_view();
                    let ti = track_index as int;
                    let t1 = final(self).tracks_view()[ti];
                    let prev = prev_animation_of(tracks0, ti);
                    let mix = match prev {
                        Some(f) => mix_for_spec(*data, Some(f), animation),
                        None => 0i64,
                    };
                    t1.current == cur_of(tracks0, ti) && t1.mixing_to == mixto_of(tracks0, ti)
                        && t1.queue@ == queue_of(tracks0, ti).push(TrackEntry {
                            animation: Some(animation),
                            looping,
                            alpha: FX_ONE as i64,
                            track_time: 0i64,
                            last_time: -1i64,
                            mix_duration: mix,
                            delay,
                        })
                }
                &&& final(self).events_view() == old(self).events_view()
            },
    {
        if animation >= animations.len() {
            return Err(EngineError::State);
        }
        self.ensure_track(track_index);
        let mut t = self.tracks.remove(track_index);
        let ghost pre = self.tracks@;
        let prev = if t.queue.len() > 0 {
            t.queue[t.queue.len() - 1].animation
        } else {
            match &t.mixing_to {
                Some(m) => m.animation,
                None => {
                    match &t.current {
                        Some(c) => c.animation,
                        None => None,
                    }
                },
            }
        };
        let mix = match prev {
            Some(f) => mix_for(data, Some(f), animation),
            None => 0,
        };
        t.queue.push(TrackEntry {
            animation: Some(animation),
            looping,
            alpha: FX_ONE,
            track_time: 0,
            last_time: -1,
            mix_duration: mix,
            delay,
        });
        self.tracks.insert(track_index, t);
        proof {
            assert(self.tracks@ =~= pre.insert(track_index as int, self.tracks@[track_index as int]));
        }
        Ok(())
    }

    /// Fade the track out to nothing: an empty-animation entry fades in
    /// over the given mix window, sampling the setup pose.
    pub fn set_empty_animation(&mut self, track_index: usize, mix_duration: i64)
        requires
            0 <= mix_duration <= FX_LIMIT,
        ensures
            final(self).tracks_view().len() == vstd::math::max(
                old(self).tracks_view().len() as int,
                track_index + 1,
            ),
            forall|k: int| 0 <= k < old(self).tracks_view().len() && k != track_index
                ==> #[trigger] final(self).tracks_view()[k] == old(self).tracks_view()[k],
            ({
                let c0 = cur_of(old(self).tracks_view(), track_index as int);
                let t1 = final(self).tracks_view()[track_index as int];
                let entry = TrackEntry {
                    animation: None,
                    looping: false,
                    alpha: FX_ONE as i64,
                    track_time: 0i64,
                    last_time: -1i64,
                    mix_duration,
                    delay: 0i64,
                };
                &&& t1.queue@.len() == 0
                &&& (if c0 is Some && mix_duration > 0 {
                    t1.current == c0 && t1.mixing_to == Some(entry)
                } else {
                    t1.current == Some(entry) && t1.mixing_to is None
                })
            }),
            final(self).events_view() == old(self).events_view(),
    {
        self.ensure_track(track_index);
        let mut t = self.tracks.remove(track_index);
        let ghost pre = self.tracks@;
        let entry = TrackEntry {
            animation: None,
            looping: false,
            alpha: FX_ONE,
            track_time: 0,
            last_time: -1,
            mix_duration,
            delay: 0,
        };
        t.queue.clear();
        match t.current {
            Some(_) if mix_duration > 0 => {
                t.mixing_to = Some(entry);
            },
            _ => {
                t.current = Some(entry);
                t.mixing_to = None;
            },
        }
        self.tracks.insert(track_index, t);
        proof {
            assert(self.tracks@ =~= pre.insert(track_index as int, self.tracks@[track_index as int]));
        }
    }

    /// Scale how strongly a track's playing entry contributes to the
    /// pose: its alpha is the blend weight `apply` layers it with, so a
    /// caller can dim or override a track from outside. Fails with a
    /// state error — and only then, leaving the state unchanged — when
    /// the track does not exist, nothing plays on it, or the weight is
    /// outside `[0, FX_ONE]`.
    pub fn set_track_alpha(&mut self, track_index: usize, alpha: i64) -> (r: Result<(), EngineError>)
        ensures
            r is Ok <==> (track_index < old(self).tracks_view().len()
                && cur_of(old(self).tracks_view(), track_index as int) is Some
                && 0 <= alpha <= FX_ONE),
            r is Err ==> *final(self) == *old(self),
            r matches Err(e) ==> e == EngineError::State,
            r is Ok ==> {
                &&& final(self).tracks_view().len() == old(self).tracks_view().len()
                &&& forall|k: int| 0 <= k < old(self).tracks_view().len() && k != track_index
                    ==> #[trigger] final(self).tracks_view()[k] == old(self).tracks_view()[k]
                &&& {
                    let t0 = old(self).tracks_view()[track_index as int];
                    let t1 = final(self).tracks_view()[track_index as int];
                    match t0.current {
                        Some(c) => t1.current == Some(TrackEntry { alpha, ..c })
                            && t1.mixing_to == t0.mixing_to && t1.queue@ == t0.queue@,
                        None => false,
                    }
                }
                &&& final(self).events_view() == old(self).events_view()
            },
    {
        if track_index >= self.tracks.len() {
            return Err(EngineError::State);
        }
        if !(0 <= alpha && alpha <= FX_ONE) {
            return Err(EngineError::State);
        }
        let has_current = self.tracks[track_index].current.is_some();
        if !has_current {
            return Err(EngineError::State);
        }
        let ghost pre0 = self.tracks@;
        let mut t = self.tracks.remove(track_index);
        let ghost pre = self.tracks@;
        match t.current {
            Some(c) => {
                t.current = Some(TrackEntry { alpha, ..c });
            },
            None => {},
        }
        self.tracks.insert(track_index, t);
        proof {
            assert(self.tracks@ =~= pre0.update(track_index as int, self.tracks@[track_index as int]));
        }
        Ok(())
    }

    /// Empty a track at once: no entry plays, nothing is queued. A track
    /// index beyond the known tracks is a quiet no-op.
    pub fn clear_track(&mut self, track_index: usize)
        ensures
            final(self).tracks_view().len() == old(self).tracks_view().len(),
            forall|k: int| 0 <= k < old(self).tracks_view().len() && k != track_index
                ==> #[trigger] final(self).tracks_view()[k] == old(self).tracks_view()[k],
            track_index < old(self).tracks_view().len() ==> {
                let t1 = final(self).tracks_view()[track_index as int];
                t1.current is None && t1.mixing_to is None && t1.queue@.len() == 0
            },
            final(self).events_view() == old(self).events_view(),
    {
        if track_index < self.tracks.len() {
            let ghost pre0 = self.tracks@;
            let _ = self.tracks.remove(track_index);
            let ghost pre = self.tracks@;
            self.tracks.insert(track_index, Track {
                current: None,
                mixing_to: None,
                queue: Vec::new(),
            });
            proof {
                assert(self.tracks@ =~= pre.insert(
                    track_index as int,
                    self.tracks@[track_index as int],
                ));
            }
        }
    }

    /// Hand the queued events to the caller, oldest first, exactly once.
    pub fn drain_events(&mut self) -> (r: Vec<EventItem>)
        ensures
            r@ == old(self).events_view(),
            final(self).events_view().len() == 0,
            final(self).tracks_view() == old(self).tracks_view(),
    {
        let mut out: Vec<EventItem> = Vec::new();
        core::mem::swap(&mut out, &mut self.events);
        out
    }
}

/// The current value of the property a timeline drives, read from the
/// live pose; zero for a target outside the valid range.
pub open spec fn read_prop(bones: Seq<Bone>, slots: Seq<Slot>, tg: Target) -> int {
    match tg {
        Target::BoneX(b) => if 0 <= b < bones.len() { bones[b as int].x as int } else { 0 },
        Target::BoneY(b) => if 0 <= b < bones.len() { bones[b as int].y as int } else { 0 },
        Target::BoneRotation(b) => if 0 <= b < bones.len() { bones[b as int].rotation as int } else { 0 },
        Target::BoneScaleX(b) => if 0 <= b < bones.len() { bones[b as int].scale_x as int } else { 0 },
        Target::BoneScaleY(b) => if 0 <= b < bones.len() { bones[b as int].scale_y as int } else { 0 },
        Target::BoneShearX(b) => if 0 <= b < bones.len() { bones[b as int].shear_x as int } else { 0 },
        Target::BoneShearY(b) => if 0 <= b < bones.len() { bones[b as int].shear_y as int } else { 0 },
        Target::SlotColorR(s) => if 0 <= s < slots.len() { slots[s as int].color.r as int } else { 0 },
        Target::SlotColorG(s) => if 0 <= s < slots.len() { slots[s as int].color.g as int } else { 0 },
        Target::SlotColorB(s) => if 0 <= s < slots.len() { slots[s as int].color.b as int } else { 0 },
        Target::SlotColorA(s) => if 0 <= s < slots.len() { slots[s as int].color.a as int } else { 0 },
    }
}

/// The pose with one property overwritten; a target outside the valid
/// range writes nothing.
pub open spec fn write_prop(
    bones: Seq<Bone>,
    slots: Seq<Slot>,
    tg: Target,
    v: i64,
) -> (Seq<Bone>, Seq<Slot>) {
    match tg {
        Target::BoneX(b) => if 0 <= b < bones.len() {
            (bones.update(b as int, Bone { x: v, ..bones[b as int] }), slots)
        } else { (bones, slots) },
        Target::BoneY(b) => if 0 <= b < bones.len() {
            (bones.update(b as int, Bone { y: v, ..bones[b as int] }), slots)
        } else { (bones, slots) },
        Target::BoneRotation(b) => if 0 <= b < bones.len() {
            (bones.update(b as int, Bone { rotation: v, ..bones[b as int] }), slots)
        } else { (bones, slots) },
        Target::BoneScaleX(b) => if 0 <= b < bones.len() {
            (bones.update(b as int, Bone { scale_x: v, ..bones[b as int] }), slots)
        } else { (bones, slots) },
        Target::BoneScaleY(b) => if 0 <= b < bones.len() {
            (bones.update(b as int, Bone { scale_y: v, ..bones[b as int] }), slots)
        } else { (bones, slots) },
        Target::BoneShearX(b) => if 0 <= b < bones.len() {
            (bones.update(b as int, Bone { shear_x: v, ..bones[b as int] }), slots)
        } else { (bones, slots) },
        Target::BoneShearY(b) => if 0 <= b < bones.len() {
            (bones.update(b as int, Bone { shear_y: v, ..bones[b as int] }), slots)
        } else { (bones, slots) },
        Target::SlotColorR(s) => if 0 <= s < slots.len() {
            (bones, slots.update(s as int, Slot {
                color: Color { r: v, ..slots[s as int].color },
                ..slots[s as int]
            }))
        } else { (bones, slots) },
        Target::SlotColorG(s) => if 0 <= s < slots.len() {
            (bones, slots.update(s as int, Slot {
                color: Color { g: v, ..slots[s as int].color },
                ..slots[s as int]
            }))
        } else { (bones, slots) },
        Target::SlotColorB(s) => if 0 <= s < slots.len() {
            (bones, slots.update(s as int, Slot {
                color: Color { b: v, ..slots[s as int].color },
                ..slots[s as int]
            }))
        } else { (bones, slots) },
        Target::SlotColorA(s) => if 0 <= s < slots.len() {
            (bones, slots.update(s as int, Slot {
                color: Color { a: v, ..slots[s as int].color },
                ..slots[s as int]
            }))
        } else { (bones, slots) },
    }
}

/// The time within the animation an entry samples at: wrapped at the
/// duration when looping, the raw entry time otherwise.
pub open spec fn entry_time(e: TrackEntry, dur: int) -> int {
    if e.looping && dur > 0 {
        (e.track_time as int) % dur
    } else {
        e.track_time as int
    }
}

/// First timeline driving the given target, from index `i` on.
pub open spec fn find_target_from(tls: Seq<Timeline>, tg: Target, i: int) -> Option<int>
    decreases tls.len() - i,
{
    if i < 0 || i >= tls.len() {
        None
    } else if tls[i].target == tg {
        Some(i)
    } else {
        find_target_from(tls, tg, i + 1)
    }
}

/// The value a cross-fading track writes for one of the outgoing entry's
/// timelines: the outgoing sample, faded toward the incoming entry's
/// sample of the same property where the incoming animation drives it.
pub open spec fn faded_value(
    tl: Timeline,
    tc: int,
    mix: Option<(Seq<Timeline>, int, int)>,
) -> int {
    let vc = sample_keys(tl.keys@, tc);
    match mix {
        Some((mtls, tm, ratio)) => match find_target_from(mtls, tl.target, 0) {
            Some(j) => fx_lerp_spec(vc, sample_keys(mtls[j].keys@, tm), ratio),
            None => vc,
        },
        None => vc,
    }
}

/// Each timeline is the first driving its target: no two timelines of
/// the animation write the same property. Authoring tools keep one
/// timeline per property, so real animation data satisfies this.
pub open spec fn targets_unique(tls: Seq<Timeline>) -> bool {
    forall|i: int| 0 <= i < tls.len()
        ==> find_target_from(tls, (#[trigger] tls[i]).target, 0) == Some(i)
}

/// Mixing a timeline with itself reproduces the single-animation value:
/// when the incoming entry plays the same animation at the same time —
/// so the fade pairs a timeline with itself — the faded value equals the
/// plain sampled value, whatever the mix ratio.
pub proof fn lemma_self_mix_track(tls: Seq<Timeline>, i: int, tc: int, ratio: int)
    requires
        0 <= i < tls.len(),
        find_target_from(tls, tls[i].target, 0) == Some(i),
        0 <= ratio <= FX_ONE as int,
    ensures
        faded_value(tls[i], tc, Some((tls, tc, ratio))) == sample_keys(tls[i].keys@, tc),
{
    crate::animation::lemma_self_mix_identity(tls[i].keys@, tc, ratio);
}

/// Fading a timeline list toward itself, at the same time, changes no
/// write: the whole fold equals the unmixed fold, whatever the ratio.
proof fn lemma_self_mix_timelines(
    bones: Seq<Bone>,
    slots: Seq<Slot>,
    tls: Seq<Timeline>,
    tc: int,
    ratio: int,
    alpha: i64,
    i: int,
)
    requires
        0 <= i,
        targets_unique(tls),
        0 <= ratio <= FX_ONE as int,
    ensures
        apply_timelines_from(bones, slots, tls, tc, Some((tls, tc, ratio)), alpha, i)
            == apply_timelines_from(bones, slots, tls, tc, None, alpha, i),
    decreases tls.len() - i,
{
    if i < tls.len() {
        lemma_self_mix_track(tls, i, tc, ratio);
        let v = faded_value(tls[i], tc, Some((tls, tc, ratio)));
        let blended = fx_lerp_spec(read_prop(bones, slots, tls[i].target), v, alpha as int);
        let written = write_prop(bones, slots, tls[i].target, blended as i64);
        lemma_self_mix_timelines(written.0, written.1, tls, tc, ratio, alpha, i + 1);
    }
}

/// Blending two identical entries reproduces the single-animation pose:
/// a track whose incoming entry plays the same animation at the same
/// local time — mixed at any ratio, half and half included — applies
/// exactly the pose the outgoing entry applies alone. Holds for
/// animations whose timelines drive distinct targets.
pub proof fn lemma_self_mix_pose(
    bones: Seq<Bone>,
    slots: Seq<Slot>,
    anims: Seq<Animation>,
    c: TrackEntry,
    m: TrackEntry,
)
    requires
        m.animation == c.animation,
        m.track_time == c.track_time,
        m.looping == c.looping,
        match c.animation {
            Some(a) => 0 <= a < anims.len() && targets_unique(anims[a as int].timelines@),
            None => true,
        },
    ensures
        apply_entry_pose(bones, slots, anims, c, Some(m)) == apply_entry_pose(bones, slots, anims, c, None),
{
    match c.animation {
        Some(a) => {
            let dur = anims[a as int].duration as int;
            let tc = entry_time(c, dur);
            if m.mix_duration <= 0 {
            } else {
                crate::animation::lemma_ratio_between(
                    m.track_time as int,
                    m.track_time as int,
                    0,
                    m.mix_duration as int,
                );
            }
            lemma_self_mix_timelines(
                bones,
                slots,
                anims[a as int].timelines@,
                tc,
                mix_ratio_of(m),
                c.alpha,
                0,
            );
        },
        None => {},
    }
}

/// At the start of a cross-fade the incoming entry contributes nothing:
/// with its mix ratio still zero, the track applies exactly the pose of
/// the outgoing animation alone.
proof fn lemma_crossfade_start_timelines(
    bones: Seq<Bone>,
    slots: Seq<Slot>,
    tls: Seq<Timeline>,
    mtls: Seq<Timeline>,
    tc: int,
    tm: int,
    alpha: i64,
    i: int,
)
    requires
        0 <= i,
    ensures
        apply_timelines_from(bones, slots, tls, tc, Some((mtls, tm, 0)), alpha, i)
            == apply_timelines_from(bones, slots, tls, tc, None, alpha, i),
    decreases tls.len() - i,
{
    if i < tls.len() {
        match find_target_from(mtls, tls[i].target, 0) {
            Some(j) => {
                crate::fixed::lemma_lerp_bounds(
                    sample_keys(tls[i].keys@, tc),
                    sample_keys(mtls[j].keys@, tm),
                    0,
                );
            },
            None => {},
        }
        let v = faded_value(tls[i], tc, Some((mtls, tm, 0)));
        let blended = fx_lerp_spec(read_prop(bones, slots, tls[i].target), v, alpha as int);
        let written = write_prop(bones, slots, tls[i].target, blended as i64);
        lemma_crossfade_start_timelines(written.0, written.1, tls, mtls, tc, tm, alpha, i + 1);
    }
}

/// Sampling at the very start of a cross-fade yields the outgoing pose:
/// an incoming entry that has not advanced — elapsed time zero over a
/// positive mix window — leaves the applied pose exactly what the
/// outgoing entry gives alone.
pub proof fn lemma_crossfade_start_pose(
    bones: Seq<Bone>,
    slots: Seq<Slot>,
    anims: Seq<Animation>,
    c: TrackEntry,
    m: TrackEntry,
)
    requires
        m.track_time <= 0,
        m.mix_duration > 0,
        match c.animation {
            Some(a) => 0 <= a < anims.len(),
            None => true,
        },
    ensures
        apply_entry_pose(bones, slots, anims, c, Some(m)) == apply_entry_pose(bones, slots, anims, c, None),
{
    match c.animation {
        Some(a) => {
            match m.animation {
                Some(_) => {
                    let dur = anims[a as int].duration as int;
                    lemma_crossfade_start_timelines(
                        bones,
                        slots,
                        anims[a as int].timelines@,
                        mix_args(anims, Some(m)).unwrap().0,
                        entry_time(c, dur),
                        mix_args(anims, Some(m)).unwrap().1,
                        c.alpha,
                        0,
                    );
                },
                None => {},
            }
        },
        None => {},
    }
}

/// At the end of a cross-fade the incoming entry owns the track: once
/// its ratio reaches one, the update step promotes it to current with no
/// fade left, so the next apply writes the incoming animation's pose
/// alone.
pub proof fn lemma_crossfade_end_promotes(t: Track, dt: int)
    requires
        step_promotes(t, dt),
    ensures
        t.mixing_to matches Some(m) && step_track(t, dt).current == Some(TrackEntry {
            track_time: fx_add_spec(m.track_time as int, dt) as i64,
            ..m
        }),
        step_track(t, dt).mixing_to is None,
{
}

/// The pose after the timelines of one entry, from timeline `i` on, are
/// blended over it with the track's alpha.
pub open spec fn apply_timelines_from(
    bones: Seq<Bone>,
    slots: Seq<Slot>,
    tls: Seq<Timeline>,
    tc: int,
    mix: Option<(Seq<Timeline>, int, int)>,
    alpha: i64,
    i: int,
) -> (Seq<Bone>, Seq<Slot>)
    decreases tls.len() - i,
{
    if i < 0 || i >= tls.len() {
        (bones, slots)
    } else {
        let v = faded_value(tls[i], tc, mix);
        let blended = fx_lerp_spec(read_prop(bones, slots, tls[i].target), v, alpha as int);
        let written = write_prop(bones, slots, tls[i].target, blended as i64);
        apply_timelines_from(written.0, written.1, tls, tc, mix, alpha, i + 1)
    }
}

/// The attachment an attachment timeline selects at time `t`: that of
/// the last key at or before `t`, or the slot's own attachment before
/// the first key.
pub open spec fn sample_attachment_from(
    keys: Seq<AttachmentKey>,
    t: int,
    dflt: Option<usize>,
    i: int,
) -> Option<usize>
    decreases keys.len() - i,
{
    if i < 0 || i >= keys.len() {
        dflt
    } else if t < keys[i].time {
        dflt
    } else {
        sample_attachment_from(keys, t, keys[i].attachment, i + 1)
    }
}

/// The slots after one entry's attachment timelines, from index `i` on,
/// are applied at time `tc`.
pub open spec fn apply_attachments_from(
    slots: Seq<Slot>,
    atls: Seq<crate::animation::AttachmentTimeline>,
    tc: int,
    i: int,
) -> Seq<Slot>
    decreases atls.len() - i,
{
    if i < 0 || i >= atls.len() {
        slots
    } else {
        let s = atls[i].slot;
        let next = if 0 <= s < slots.len() {
            slots.update(s as int, Slot {
                attachment: sample_attachment_from(
                    atls[i].keys@,
                    tc,
                    slots[s as int].attachment,
                    0,
                ),
                ..slots[s as int]
            })
        } else {
            slots
        };
        apply_attachments_from(next, atls, tc, i + 1)
    }
}

/// Whether an event key at `kt` fires when the playhead moves over the
/// window from `last` to `now`: it fires once when passed, and again on
/// a loop only when the loop boundary carries the playhead over it.
pub open spec fn event_fires(kt: int, last: int, now: int, dur: int, looping: bool) -> bool {
    if !looping || dur <= 0 {
        last < kt <= now
    } else {
        let a = last % dur;
        let b = now % dur;
        if a < b {
            a < kt <= b
        } else if a > b {
            kt > a || kt <= b
        } else {
            false
        }
    }
}

/// The timeline events of one entry fired over the window, for keys from
/// `i` on, in key order.
pub open spec fn events_fired_from(
    keys: Seq<crate::animation::EventKey>,
    last: int,
    now: int,
    dur: int,
    looping: bool,
    track: usize,
    i: int,
) -> Seq<EventItem>
    decreases keys.len() - i,
{
    if i < 0 || i >= keys.len() {
        Seq::empty()
    } else {
        let rest = events_fired_from(keys, last, now, dur, looping, track, i + 1);
        if event_fires(keys[i].time as int, last, now, dur, looping) {
            seq![EventItem::Timeline { name: keys[i].name, time: keys[i].time }] + rest
        } else {
            rest
        }
    }
}

/// Every animation's duration is storable and every scalar timeline's
/// keys are well formed.
pub open spec fn anims_wf(anims: Seq<Animation>) -> bool {
    &&& durations_wf(anims)
    &&& forall|a: int, i: int|
        0 <= a < anims.len() && 0 <= i < anims[a].timelines@.len()
            ==> keys_wf((#[trigger] anims[a].timelines@[i]).keys@)
}

/// Every slot's tint is storable.
pub open spec fn slots_colors_wf(slots: Seq<Slot>) -> bool {
    forall|i: int| 0 <= i < slots.len()
        ==> crate::color::color_in_range((#[trigger] slots[i]).color)
}

/// Every attachment index an attachment timeline can write lies inside
/// a pool of the given size.
pub open spec fn attachment_keys_wf(anims: Seq<Animation>, attachment_count: int) -> bool {
    forall|a: int, t: int, k: int|
        0 <= a < anims.len() && 0 <= t < anims[a].attachment_timelines@.len()
            && 0 <= k < anims[a].attachment_timelines@[t].keys@.len()
            ==> match (#[trigger] anims[a].attachment_timelines@[t].keys@[k]).attachment {
                Some(x) => 0 <= x < attachment_count,
                None => true,
            }
}

/// A slot's attachment, if any, lies inside a pool of the given size.
pub open spec fn slot_attachment_in_pool(s: Slot, attachment_count: int) -> bool {
    match s.attachment {
        Some(x) => 0 <= x < attachment_count,
        None => true,
    }
}

/// The runtime check behind `keys_wf`.
#[verifier::spinoff_prover]
#[verifier::rlimit(100)]
fn keys_ok(keys: &Vec<crate::animation::Keyframe>) -> (r: bool)
    ensures
        r == keys_wf(keys@),
{
    let n = keys.len();
    let mut i: usize = 0;
    while i < n
        invariant
            0 <= i <= n,
            n == keys@.len(),
            forall|j: int| 0 <= j < i
                ==> 0 <= (#[trigger] keys@[j]).time <= FX_LIMIT
                    && fx_in_range(keys@[j].value as int),
            forall|j: int| 0 <= j < i - 1
                ==> (#[trigger] keys@[j]).time < keys@[j + 1].time,
        decreases n - i,
    {
        let k = keys[i];
        if !(0 <= k.time && k.time <= FX_LIMIT && -FX_LIMIT <= k.value && k.value <= FX_LIMIT) {
            return false;
        }
        if i > 0 {
            if !(keys[i - 1].time < k.time) {
                proof {
                    assert((keys@[i - 1]).time >= keys@[i - 1 + 1].time);
                }
                return false;
            }
        }
        i = i + 1;
    }
    true
}

/// Check at runtime that a set of animations is fit for playback:
/// durations and keyframes are storable and ordered, and every
/// attachment timeline key points inside an attachment pool of the given
/// size — so a host can test these preconditions and fail instead of
/// feeding `apply` malformed data.
#[verifier::spinoff_prover]
#[verifier::rlimit(100)]
pub fn animations_valid(animations: &Vec<Animation>, attachment_count: usize) -> (r: bool)
    ensures
        r == (anims_wf(animations@)
            && attachment_keys_wf(animations@, attachment_count as int)),
{
    let na = animations.len();
    let mut a: usize = 0;
    while a < na
        invariant
            0 <= a <= na,
            na == animations@.len(),
            forall|j: int| 0 <= j < a
                ==> 0 <= (#[trigger] animations@[j]).duration <= FX_LIMIT,
            forall|j: int, t: int|
                0 <= j < a && 0 <= t < animations@[j].timelines@.len()
                    ==> keys_wf((#[trigger] animations@[j].timelines@[t]).keys@),
            forall|j: int, t: int, k: int|
                0 <= j < a && 0 <= t < animations@[j].attachment_timelines@.len()
                    && 0 <= k < animations@[j].attachment_timelines@[t].keys@.len()
                    ==> match (#[trigger] animations@[j].attachment_timelines@[t].keys@[k]).attachment {
                        Some(x) => 0 <= x < attachment_count,
                        None => true,
                    },
        decreases na - a,
    {
        let anim = &animations[a];
        if !(0 <= anim.duration && anim.duration <= FX_LIMIT) {
            return false;
        }
        let nt = anim.timelines.len();
        let mut t: usize = 0;
        while t < nt
            invariant
                0 <= a < na,
                na == animations@.len(),
                *anim == animations@[a as int],
                0 <= t <= nt,
                nt == anim.timelines@.len(),
                forall|q: int| 0 <= q < t
                    ==> keys_wf((#[trigger] animations@[a as int].timelines@[q]).keys@),
            decreases nt - t,
        {
            if !keys_ok(&anim.timelines[t].keys) {
                proof {
                    assert(!keys_wf(animations@[a as int].timelines@[t as int].keys@));
                }
                return false;
            }
            t = t + 1;
        }
        let natl = anim.attachment_timelines.len();
        let mut at: usize = 0;
        while at < natl
            invariant
                0 <= a < na,
                na == animations@.len(),
                *anim == animations@[a as int],
                0 <= at <= natl,
                natl == anim.attachment_timelines@.len(),
                forall|q: int, k: int|
                    0 <= q < at && 0 <= k < animations@[a as int].attachment_timelines@[q].keys@.len()
                        ==> match (#[trigger] animations@[a as int]
                            .attachment_timelines@[q].keys@[k]).attachment {
                            Some(x) => 0 <= x < attachment_count,
                            None => true,
                        },
            decreases natl - at,
        {
            let atl = &anim.attachment_timelines[at];
            let nk = atl.keys.len();
            let mut k: usize = 0;
            while k < nk
                invariant
                    0 <= a < na,
                    na == animations@.len(),
                    *anim == animations@[a as int],
                    0 <= at < natl,
                    natl == anim.attachment_timelines@.len(),
                    *atl == animations@[a as int].attachment_timelines@[at as int],
                    0 <= k <= nk,
                    nk == atl.keys@.len(),
                    forall|q: int| 0 <= q < k
                        ==> match (#[trigger] animations@[a as int]
                            .attachment_timelines@[at as int].keys@[q]).attachment {
                            Some(x) => 0 <= x < attachment_count,
                            None => true,
                        },
                decreases nk - k,
            {
                let bad = match atl.keys[k].attachment {
                    Some(x) => x >= attachment_count,
                    None => false,
                };
                if bad {
                    proof {
                        assert(!(match animations@[a as int].attachment_timelines@[at as int]
                            .keys@[k as int].attachment {
                            Some(x) => 0 <= x < attachment_count as int,
                            None => true,
                        }));
                    }
                    return false;
                }
                k = k + 1;
            }
            at = at + 1;
        }
        a = a + 1;
    }
    true
}

/// The cross-fade the incoming entry imposes on the outgoing one's
/// timelines, if a fade with a real animation is running.
pub open spec fn mix_args(anims: Seq<Animation>, mixto: Option<TrackEntry>) -> Option<(Seq<Timeline>, int, int)> {
    match mixto {
        Some(m) => match m.animation {
            Some(ma) => Some((
                anims[ma as int].timelines@,
                entry_time(m, anims[ma as int].duration as int),
                mix_ratio_of(m),
            )),
            None => None,
        },
        None => None,
    }
}

/// The pose after one track is applied: the current entry's scalar
/// timelines are sampled at the entry's time, faded toward the incoming
/// entry where one is mixing in, blended over the pose with the track's
/// alpha, and the entry's attachment timelines re-attach their slots.
pub open spec fn apply_entry_pose(
    bones: Seq<Bone>,
    slots: Seq<Slot>,
    anims: Seq<Animation>,
    c: TrackEntry,
    mixto: Option<TrackEntry>,
) -> (Seq<Bone>, Seq<Slot>) {
    match c.animation {
        Some(a) => {
            let tc = entry_time(c, anims[a as int].duration as int);
            let p = apply_timelines_from(
                bones,
                slots,
                anims[a as int].timelines@,
                tc,
                mix_args(anims, mixto),
                c.alpha,
                0,
            );
            (p.0, apply_attachments_from(p.1, anims[a as int].attachment_timelines@, tc, 0))
        },
        None => (bones, slots),
    }
}

/// The pose after one track is applied.
pub open spec fn apply_track_pose(
    bones: Seq<Bone>,
    slots: Seq<Slot>,
    anims: Seq<Animation>,
    t: Track,
) -> (Seq<Bone>, Seq<Slot>) {
    match t.current {
        Some(c) => apply_entry_pose(bones, slots, anims, c, t.mixing_to),
        None => (bones, slots),
    }
}

/// The pose after the tracks from `k` on are applied in track order:
/// the track index strictly defines layering priority.
pub open spec fn apply_all_pose(
    bones: Seq<Bone>,
    slots: Seq<Slot>,
    tracks: Seq<Track>,
    anims: Seq<Animation>,
    k: int,
) -> (Seq<Bone>, Seq<Slot>)
    decreases tracks.len() - k,
{
    if k < 0 || k >= tracks.len() {
        (bones, slots)
    } else {
        let p = apply_track_pose(bones, slots, anims, tracks[k]);
        apply_all_pose(p.0, p.1, tracks, anims, k + 1)
    }
}

/// The timeline events one track fires during this apply.
pub open spec fn apply_entry_events(anims: Seq<Animation>, c: TrackEntry, track: usize) -> Seq<EventItem> {
    match c.animation {
        Some(a) => events_fired_from(
            anims[a as int].events@,
            c.last_time as int,
            c.track_time as int,
            anims[a as int].duration as int,
            c.looping,
            track,
            0,
        ),
        None => Seq::empty(),
    }
}

/// The timeline events one track fires during this apply.
pub open spec fn apply_track_events(anims: Seq<Animation>, t: Track, track: usize) -> Seq<EventItem> {
    match t.current {
        Some(c) => apply_entry_events(anims, c, track),
        None => Seq::empty(),
    }
}

/// The timeline events of tracks `0..k`, in track order.
pub open spec fn apply_events_upto(tracks: Seq<Track>, anims: Seq<Animation>, k: int) -> Seq<EventItem>
    decreases k,
{
    if k <= 0 {
        Seq::empty()
    } else {
        apply_events_upto(tracks, anims, k - 1)
            + apply_track_events(anims, tracks[k - 1], (k - 1) as usize)
    }
}

/// The attachment a timeline scan yields lies in any pool holding its
/// default and all its keys.
proof fn lemma_sample_attachment_pool(
    keys: Seq<AttachmentKey>,
    t: int,
    dflt: Option<usize>,
    i: int,
    c: int,
)
    requires
        0 <= i,
        match dflt {
            Some(x) => 0 <= x < c,
            None => true,
        },
        forall|k: int| 0 <= k < keys.len()
            ==> match (#[trigger] keys[k]).attachment {
                Some(x) => 0 <= x < c,
                None => true,
            },
    ensures
        match sample_attachment_from(keys, t, dflt, i) {
            Some(x) => 0 <= x < c,
            None => true,
        },
    decreases keys.len() - i,
{
    if i < keys.len() && !(t < keys[i].time) {
        lemma_sample_attachment_pool(keys, t, keys[i].attachment, i + 1, c);
    }
}

/// Applying attachment timelines whose keys lie in the pool keeps every
/// slot's attachment in the pool.
proof fn lemma_apply_attachments_pool(
    slots: Seq<Slot>,
    atls: Seq<crate::animation::AttachmentTimeline>,
    tc: int,
    i: int,
    c: int,
)
    requires
        0 <= i,
        forall|t: int, k: int|
            0 <= t < atls.len() && 0 <= k < atls[t].keys@.len()
                ==> match (#[trigger] atls[t].keys@[k]).attachment {
                    Some(x) => 0 <= x < c,
                    None => true,
                },
        forall|j: int| 0 <= j < slots.len() ==> slot_attachment_in_pool(#[trigger] slots[j], c),
    ensures
        apply_attachments_from(slots, atls, tc, i).len() == slots.len(),
        forall|j: int| 0 <= j < slots.len()
            ==> slot_attachment_in_pool(#[trigger] apply_attachments_from(slots, atls, tc, i)[j], c),
    decreases atls.len() - i,
{
    if i < atls.len() {
        let sl = atls[i].slot;
        let next = if 0 <= sl < slots.len() {
            slots.update(sl as int, Slot {
                attachment: sample_attachment_from(atls[i].keys@, tc, slots[sl as int].attachment, 0),
                ..slots[sl as int]
            })
        } else {
            slots
        };
        if 0 <= sl < slots.len() {
            lemma_sample_attachment_pool(atls[i].keys@, tc, slots[sl as int].attachment, 0, c);
        }
        assert(forall|j: int| 0 <= j < next.len()
            ==> slot_attachment_in_pool(#[trigger] next[j], c));
        lemma_apply_attachments_pool(next, atls, tc, i + 1, c);
    }
}

/// Scalar timelines never touch a slot's attachment.
proof fn lemma_apply_timelines_slots(
    bones: Seq<Bone>,
    slots: Seq<Slot>,
    tls: Seq<Timeline>,
    tc: int,
    mix: Option<(Seq<Timeline>, int, int)>,
    alpha: i64,
    i: int,
)
    requires
        0 <= i,
    ensures
        apply_timelines_from(bones, slots, tls, tc, mix, alpha, i).1.len() == slots.len(),
        forall|j: int| 0 <= j < slots.len()
            ==> (#[trigger] apply_timelines_from(bones, slots, tls, tc, mix, alpha, i).1[j]).attachment
                == slots[j].attachment,
    decreases tls.len() - i,
{
    if i < tls.len() {
        let v = faded_value(tls[i], tc, mix);
        let blended = fx_lerp_spec(read_prop(bones, slots, tls[i].target), v, alpha as int);
        let written = write_prop(bones, slots, tls[i].target, blended as i64);
        assert(written.1.len() == slots.len() && forall|j: int| 0 <= j < slots.len()
            ==> (#[trigger] written.1[j]).attachment == slots[j].attachment);
        lemma_apply_timelines_slots(written.0, written.1, tls, tc, mix, alpha, i + 1);
    }
}

/// Pose application keeps every slot's attachment inside the template's
/// attachment pool, provided the animations' attachment keys point
/// inside that pool: a validated animation set can never make `apply`
/// leave a slot dangling outside the pool.
pub proof fn lemma_apply_keeps_attachments_in_pool(
    bones: Seq<Bone>,
    slots: Seq<Slot>,
    tracks: Seq<Track>,
    anims: Seq<Animation>,
    k: int,
    c: int,
)
    requires
        0 <= k,
        attachment_keys_wf(anims, c),
        forall|j: int| 0 <= j < tracks.len() ==> track_wf(#[trigger] tracks[j], anims.len() as int),
        forall|j: int| 0 <= j < slots.len() ==> slot_attachment_in_pool(#[trigger] slots[j], c),
    ensures
        apply_all_pose(bones, slots, tracks, anims, k).1.len() == slots.len(),
        forall|j: int| 0 <= j < slots.len()
            ==> slot_attachment_in_pool(#[trigger] apply_all_pose(bones, slots, tracks, anims, k).1[j], c),
    decreases tracks.len() - k,
{
    if k < tracks.len() {
        let p = apply_track_pose(bones, slots, anims, tracks[k]);
        match tracks[k].current {
            Some(ce) => {
                match ce.animation {
                    Some(a) => {
                        let tc = entry_time(ce, anims[a as int].duration as int);
                        let mid = apply_timelines_from(
                            bones,
                            slots,
                            anims[a as int].timelines@,
                            tc,
                            mix_args(anims, tracks[k].mixing_to),
                            ce.alpha,
                            0,
                        );
                        lemma_apply_timelines_slots(
                            bones,
                            slots,
                            anims[a as int].timelines@,
                            tc,
                            mix_args(anims, tracks[k].mixing_to),
                            ce.alpha,
                            0,
                        );
                        assert(forall|j: int| 0 <= j < mid.1.len()
                            ==> slot_attachment_in_pool(#[trigger] mid.1[j], c));
                        assert forall|t: int, kk: int|
                            0 <= t < anims[a as int].attachment_timelines@.len()
                                && 0 <= kk < anims[a as int].attachment_timelines@[t].keys@.len()
                            implies match (#[trigger] anims[a as int]
                                .attachment_timelines@[t].keys@[kk]).attachment {
                                Some(x) => 0 <= x < c,
                                None => true,
                            } by {
                            assert(0 <= a < anims.len());
                        }
                        lemma_apply_attachments_pool(
                            mid.1,
                            anims[a as int].attachment_timelines@,
                            tc,
                            0,
                            c,
                        );
                    },
                    None => {},
                }
            },
            None => {},
        }
        lemma_apply_keeps_attachments_in_pool(p.0, p.1, tracks, anims, k + 1, c);
    }
}

/// A track after `apply` has run: the current entry remembers the time
/// events were delivered up to.
pub open spec fn mark_applied(t: Track) -> Track {
    match t.current {
        Some(c) => Track {
            current: Some(TrackEntry { last_time: c.track_time, ..c }),
            mixing_to: t.mixing_to,
            queue: t.queue,
        },
        None => t,
    }
}

/// The completion test, at runtime.
fn complete_crossed(c: &TrackEntry, dur: i64, dt: i64) -> (r: bool)
    requires
        0 <= c.track_time <= FX_LIMIT,
        0 <= dt <= FX_LIMIT,
        -FX_LIMIT <= dur <= FX_LIMIT,
    ensures
        r == (dur > 0 && (if c.looping {
            ((c.track_time as int) / (dur as int)) < (fx_add_spec(c.track_time as int, dt as int) / (dur as int))
        } else {
            c.track_time < dur && dur <= fx_add_spec(c.track_time as int, dt as int)
        })),
{
    if dur <= 0 {
        return false;
    }
    let nt = fx_add(c.track_time, dt);
    if c.looping {
        let q0 = (c.track_time as u64) / (dur as u64);
        let q1 = (nt as u64) / (dur as u64);
        q0 < q1
    } else {
        c.track_time < dur && dur <= nt
    }
}

/// The mix ratio test, at runtime.
fn mix_ratio_exec(m: &TrackEntry) -> (r: i64)
    requires
        0 <= m.track_time <= FX_LIMIT,
        0 <= m.mix_duration <= FX_LIMIT,
    ensures
        r as int == mix_ratio_of(*m),
        0 <= r <= FX_ONE,
{
    if m.mix_duration <= 0 {
        FX_ONE
    } else if m.track_time <= 0 {
        0
    } else if m.track_time >= m.mix_duration {
        FX_ONE
    } else {
        proof {
            let one = FX_ONE as int;
            let d = m.mix_duration as int;
            let t = m.track_time as int;
            crate::fixed::lemma_tdiv_cancel(one, d);
            assert(one * d == d * one) by (nonlinear_arith);
            assert(0 <= t * one <= d * one) by (nonlinear_arith)
                requires
                    0 <= t,
                    t <= d,
                    one > 0,
            ;
            crate::fixed::lemma_tdiv_mono(0, t * one, d);
            crate::fixed::lemma_tdiv_mono(t * one, d * one, d);
            vstd::arithmetic::div_mod::lemma_div_of0(d);
        }
        crate::fixed::fx_div(m.track_time, m.mix_duration)
    }
}

/// The entry well-formedness test, at runtime.
fn entry_ok(e: &TrackEntry, anim_count: usize) -> (r: bool)
    ensures
        r == entry_wf(*e, anim_count as int),
{
    let anim_ok = match e.animation {
        Some(a) => a < anim_count,
        None => true,
    };
    anim_ok && 0 <= e.alpha && e.alpha <= FX_ONE && 0 <= e.track_time
        && e.track_time <= FX_LIMIT && -FX_LIMIT <= e.last_time && e.last_time <= FX_LIMIT
        && 0 <= e.mix_duration && e.mix_duration <= FX_LIMIT && -FX_LIMIT <= e.delay
        && e.delay <= FX_LIMIT
}

/// The track well-formedness test, at runtime.
fn track_ok(t: &Track, anim_count: usize) -> (r: bool)
    ensures
        r == track_wf(*t, anim_count as int),
{
    let cur_ok = match &t.current {
        Some(c) => entry_ok(c, anim_count),
        None => t.mixing_to.is_none(),
    };
    if !cur_ok {
        return false;
    }
    let mix_ok = match &t.mixing_to {
        Some(m) => entry_ok(m, anim_count),
        None => true,
    };
    if !mix_ok {
        return false;
    }
    let n = t.queue.len();
    let mut i: usize = 0;
    while i < n
        invariant
            0 <= i <= n,
            n == t.queue@.len(),
            forall|j: int| 0 <= j < i ==> entry_wf(#[trigger] t.queue@[j], anim_count as int),
        decreases n - i,
    {
        if !entry_ok(&t.queue[i], anim_count) {
            return false;
        }
        i = i + 1;
    }
    true
}


/// Read the property a timeline drives from the live pose.
fn read_prop_exec(skeleton: &Skeleton, tg: Target) -> (v: i64)
    requires
        bones_wf(skeleton.bones_view()),
        slots_colors_wf(skeleton.slots_view()),
    ensures
        v as int == read_prop(skeleton.bones_view(), skeleton.slots_view(), tg),
        fx_in_range(v as int),
{
    let bones = skeleton.bones();
    let slots = skeleton.slots();
    match tg {
        Target::BoneX(b) => if b < bones.len() {
            proof { assert(bone_wf_at(skeleton.bones_view(), b as int)); }
            bones[b].x
        } else { 0 },
        Target::BoneY(b) => if b < bones.len() {
            proof { assert(bone_wf_at(skeleton.bones_view(), b as int)); }
            bones[b].y
        } else { 0 },
        Target::BoneRotation(b) => if b < bones.len() {
            proof { assert(bone_wf_at(skeleton.bones_view(), b as int)); }
            bones[b].rotation
        } else { 0 },
        Target::BoneScaleX(b) => if b < bones.len() {
            proof { assert(bone_wf_at(skeleton.bones_view(), b as int)); }
            bones[b].scale_x
        } else { 0 },
        Target::BoneScaleY(b) => if b < bones.len() {
            proof { assert(bone_wf_at(skeleton.bones_view(), b as int)); }
            bones[b].scale_y
        } else { 0 },
        Target::BoneShearX(b) => if b < bones.len() {
            proof { assert(bone_wf_at(skeleton.bones_view(), b as int)); }
            bones[b].shear_x
        } else { 0 },
        Target::BoneShearY(b) => if b < bones.len() {
            proof { assert(bone_wf_at(skeleton.bones_view(), b as int)); }
            bones[b].shear_y
        } else { 0 },
        Target::SlotColorR(sl) => if sl < slots.len() { slots[sl].color.r } else { 0 },
        Target::SlotColorG(sl) => if sl < slots.len() { slots[sl].color.g } else { 0 },
        Target::SlotColorB(sl) => if sl < slots.len() { slots[sl].color.b } else { 0 },
        Target::SlotColorA(sl) => if sl < slots.len() { slots[sl].color.a } else { 0 },
    }
}

/// Overwrite the property a timeline drives on the live pose.
fn write_prop_exec(skeleton: &mut Skeleton, tg: Target, v: i64)
    ensures
        ({
            let w = write_prop(old(skeleton).bones_view(), old(skeleton).slots_view(), tg, v);
            final(skeleton).bones_view() == w.0 && final(skeleton).slots_view() == w.1
        }),
        final(skeleton).names_view() == old(skeleton).names_view(),
        final(skeleton).draw_order_view() == old(skeleton).draw_order_view(),
{
    match tg {
        Target::BoneX(b) => {
            let bones = skeleton.bones_mut();
            if b < bones.len() {
                let o = bones[b];
                bones[b] = Bone { x: v, ..o };
            }
        },
        Target::BoneY(b) => {
            let bones = skeleton.bones_mut();
            if b < bones.len() {
                let o = bones[b];
                bones[b] = Bone { y: v, ..o };
            }
        },
        Target::BoneRotation(b) => {
            let bones = skeleton.bones_mut();
            if b < bones.len() {
                let o = bones[b];
                bones[b] = Bone { rotation: v, ..o };
            }
        },
        Target::BoneScaleX(b) => {
            let bones = skeleton.bones_mut();
            if b < bones.len() {
                let o = bones[b];
                bones[b] = Bone { scale_x: v, ..o };
            }
        },
        Target::BoneScaleY(b) => {
            let bones = skeleton.bones_mut();
            if b < bones.len() {
                let o = bones[b];
                bones[b] = Bone { scale_y: v, ..o };
            }
        },
        Target::BoneShearX(b) => {
            let bones = skeleton.bones_mut();
            if b < bones.len() {
                let o = bones[b];
                bones[b] = Bone { shear_x: v, ..o };
            }
        },
        Target::BoneShearY(b) => {
            let bones = skeleton.bones_mut();
            if b < bones.len() {
                let o = bones[b];
                bones[b] = Bone { shear_y: v, ..o };
            }
        },
        Target::SlotColorR(sl) => {
            let slots = skeleton.slots_mut();
            if sl < slots.len() {
                let o = slots[sl];
                slots[sl] = Slot { color: Color { r: v, ..o.color }, ..o };
            }
        },
        Target::SlotColorG(sl) => {
            let slots = skeleton.slots_mut();
            if sl < slots.len() {
                let o = slots[sl];
                slots[sl] = Slot { color: Color { g: v, ..o.color }, ..o };
            }
        },
        Target::SlotColorB(sl) => {
            let slots = skeleton.slots_mut();
            if sl < slots.len() {
                let o = slots[sl];
                slots[sl] = Slot { color: Color { b: v, ..o.color }, ..o };
            }
        },
        Target::SlotColorA(sl) => {
            let slots = skeleton.slots_mut();
            if sl < slots.len() {
                let o = slots[sl];
                slots[sl] = Slot { color: Color { a: v, ..o.color }, ..o };
            }
        },
    }
}

/// First timeline driving the target, at runtime.
fn find_target(tls: &Vec<Timeline>, tg: Target) -> (r: Option<usize>)
    ensures
        match r {
            Some(j) => find_target_from(tls@, tg, 0) == Some(j as int) && j < tls@.len(),
            None => find_target_from(tls@, tg, 0) is None,
        },
{
    let n = tls.len();
    let mut i: usize = 0;
    while i < n
        invariant
            0 <= i <= n,
            n == tls@.len(),
            find_target_from(tls@, tg, 0) == find_target_from(tls@, tg, i as int),
        decreases n - i,
    {
        if tls[i].target == tg {
            return Some(i);
        }
        i = i + 1;
    }
    None
}

/// The time an entry samples at, at runtime.
fn entry_time_exec(e: &TrackEntry, dur: i64) -> (t: i64)
    requires
        0 <= e.track_time <= FX_LIMIT,
        0 <= dur <= FX_LIMIT,
    ensures
        t as int == entry_time(*e, dur as int),
        0 <= t <= FX_LIMIT,
{
    if e.looping && dur > 0 {
        crate::fixed::emod(e.track_time, dur)
    } else {
        e.track_time
    }
}

/// The event window test, at runtime.
fn event_fires_exec(kt: i64, last: i64, now: i64, dur: i64, looping: bool) -> (r: bool)
    requires
        -FX_LIMIT <= last <= FX_LIMIT,
        -FX_LIMIT <= now <= FX_LIMIT,
        0 <= dur <= FX_LIMIT,
    ensures
        r == event_fires(kt as int, last as int, now as int, dur as int, looping),
{
    if !looping || dur <= 0 {
        last < kt && kt <= now
    } else {
        let a = crate::fixed::emod(last, dur);
        let b = crate::fixed::emod(now, dur);
        if a < b {
            a < kt && kt <= b
        } else if a > b {
            kt > a || kt <= b
        } else {
            false
        }
    }
}

/// The attachment an attachment timeline selects at time `t`, at runtime.
fn sample_attachment(keys: &Vec<AttachmentKey>, t: i64, dflt: Option<usize>) -> (r: Option<usize>)
    ensures
        r == sample_attachment_from(keys@, t as int, dflt, 0),
{
    let n = keys.len();
    let mut cur = dflt;
    let mut i: usize = 0;
    while i < n
        invariant
            0 <= i <= n,
            n == keys@.len(),
            sample_attachment_from(keys@, t as int, cur, i as int)
                == sample_attachment_from(keys@, t as int, dflt, 0),
        decreases n - i,
    {
        if t < keys[i].time {
            proof {
                assert(sample_attachment_from(keys@, t as int, cur, i as int) == cur);
            }
            return cur;
        }
        cur = keys[i].attachment;
        i = i + 1;
    }
    cur
}

/// Sample one timeline (faded toward a mixing entry where one drives the
/// same property) and blend it over the pose with the track's alpha.
#[verifier::spinoff_prover]
#[verifier::rlimit(100)]
fn blend_one_timeline(
    skeleton: &mut Skeleton,
    animations: &Vec<Animation>,
    a: usize,
    i: usize,
    tc: i64,
    mix: Option<(usize, i64, i64)>,
    Ghost(mixg): Ghost<Option<(Seq<Timeline>, int, int)>>,
    alpha: i64,
)
    requires
        anims_wf(animations@),
        a < animations@.len(),
        i < animations@[a as int].timelines@.len(),
        0 <= tc <= FX_LIMIT,
        0 <= alpha <= FX_ONE,
        match mix {
            Some((ma, tm, ratio)) => ma < animations@.len()
                && mixg == Some((animations@[ma as int].timelines@, tm as int, ratio as int))
                && 0 <= tm <= FX_LIMIT && 0 <= ratio <= FX_ONE,
            None => mixg is None,
        },
        bones_wf(old(skeleton).bones_view()),
        slots_colors_wf(old(skeleton).slots_view()),
    ensures
        ({
            let tl = animations@[a as int].timelines@[i as int];
            let v = faded_value(tl, tc as int, mixg);
            let blended = fx_lerp_spec(
                read_prop(old(skeleton).bones_view(), old(skeleton).slots_view(), tl.target),
                v,
                alpha as int,
            );
            let w = write_prop(
                old(skeleton).bones_view(),
                old(skeleton).slots_view(),
                tl.target,
                blended as i64,
            );
            final(skeleton).bones_view() == w.0 && final(skeleton).slots_view() == w.1
        }),
        bones_wf(final(skeleton).bones_view()),
        slots_colors_wf(final(skeleton).slots_view()),
        final(skeleton).names_view() == old(skeleton).names_view(),
        final(skeleton).draw_order_view() == old(skeleton).draw_order_view(),
{
    let tl = &animations[a].timelines[i];
    let vc = sample(&tl.keys, tc);
    let v = match mix {
        Some((ma, tm, ratio)) => {
            match find_target(&animations[ma].timelines, tl.target) {
                Some(j) => {
                    let vm = sample(&animations[ma].timelines[j].keys, tm);
                    fx_lerp(vc, vm, ratio)
                },
                None => vc,
            }
        },
        None => vc,
    };
    proof {
        assert(v as int == faded_value(
            animations@[a as int].timelines@[i as int], tc as int, mixg));
    }
    let base = read_prop_exec(skeleton, tl.target);
    let blended = fx_lerp(base, v, alpha);
    let ghost pre_b = skeleton.bones_view();
    let ghost pre_s = skeleton.slots_view();
    write_prop_exec(skeleton, tl.target, blended);
    proof {
        assert forall|j: int| 0 <= j < skeleton.bones_view().len()
            implies #[trigger] crate::skeleton::bone_wf_at(skeleton.bones_view(), j) by {
            assert(crate::skeleton::bone_wf_at(pre_b, j));
        }
        assert forall|j: int| 0 <= j < skeleton.slots_view().len()
            implies crate::color::color_in_range(
                (#[trigger] skeleton.slots_view()[j]).color) by {
            assert(crate::color::color_in_range(pre_s[j].color));
        }
    }
}

/// Sample and blend one playing entry onto the skeleton and queue the
/// timeline events it passed; the engine of `AnimationState::apply`.
#[verifier::rlimit(100)]
fn apply_entry(
    skeleton: &mut Skeleton,
    events: &mut Vec<EventItem>,
    animations: &Vec<Animation>,
    c: TrackEntry,
    mixto: Option<TrackEntry>,
    k: usize,
)
    requires
        anims_wf(animations@),
        entry_wf(c, animations@.len() as int),
        match mixto {
            Some(m) => entry_wf(m, animations@.len() as int),
            None => true,
        },
        bones_wf(old(skeleton).bones_view()),
        slots_colors_wf(old(skeleton).slots_view()),
    ensures
        ({
            let w = apply_entry_pose(
                old(skeleton).bones_view(),
                old(skeleton).slots_view(),
                animations@,
                c,
                mixto,
            );
            final(skeleton).bones_view() == w.0 && final(skeleton).slots_view() == w.1
        }),
        bones_wf(final(skeleton).bones_view()),
        slots_colors_wf(final(skeleton).slots_view()),
        final(skeleton).names_view() == old(skeleton).names_view(),
        final(skeleton).draw_order_view() == old(skeleton).draw_order_view(),
        final(events)@ == old(events)@ + apply_entry_events(animations@, c, k),
{
    let na = animations.len();
    match c.animation {
        Some(a) => {
            let ghost tb = skeleton.bones_view();
            let ghost ts = skeleton.slots_view();
            let dur = animations[a].duration;
            let tc = entry_time_exec(&c, dur);
            let mix: Option<(usize, i64, i64)> = match mixto {
                Some(m) => match m.animation {
                    Some(ma) => {
                        let mdur = animations[ma].duration;
                        Some((ma, entry_time_exec(&m, mdur), mix_ratio_exec(&m)))
                    },
                    None => None,
                },
                None => None,
            };
            let ghost mixg = mix_args(animations@, mixto);
            proof {
                match mix {
                    Some((ma, tm, ratio)) => {
                        assert(mixg == Some((animations@[ma as int].timelines@,
                            tm as int, ratio as int)));
                    },
                    None => {
                        assert(mixg is None);
                    },
                }
            }
            let ntl = animations[a].timelines.len();
            let mut i: usize = 0;
            while i < ntl
                invariant
                    anims_wf(animations@),
                    na == animations@.len(),
                    a < na,
                    ntl == animations@[a as int].timelines@.len(),
                    0 <= i <= ntl,
                    0 <= tc <= FX_LIMIT,
                    0 <= c.alpha <= FX_ONE,
                    tc as int == entry_time(c, animations@[a as int].duration as int),
                    (match mix {
                        Some((ma, tm, ratio)) => ma < na
                            && mixg == Some((animations@[ma as int].timelines@,
                                tm as int, ratio as int))
                            && 0 <= tm <= FX_LIMIT && 0 <= ratio <= FX_ONE,
                        None => mixg is None,
                    }),
                    bones_wf(skeleton.bones_view()),
                    slots_colors_wf(skeleton.slots_view()),
                    skeleton.names_view() == old(skeleton).names_view(),
                    skeleton.draw_order_view() == old(skeleton).draw_order_view(),
                    apply_timelines_from(
                        skeleton.bones_view(),
                        skeleton.slots_view(),
                        animations@[a as int].timelines@,
                        tc as int,
                        mixg,
                        c.alpha,
                        i as int,
                    ) == apply_timelines_from(tb, ts, animations@[a as int].timelines@,
                        tc as int, mixg, c.alpha, 0),
                decreases ntl - i,
            {
                blend_one_timeline(skeleton, animations, a, i, tc, mix, Ghost(mixg), c.alpha);
                i = i + 1;
            }
            let ghost sb = skeleton.bones_view();
            let ghost ss = skeleton.slots_view();
            let natl = animations[a].attachment_timelines.len();
            let mut ai: usize = 0;
            while ai < natl
                invariant
                    na == animations@.len(),
                    a < na,
                    natl == animations@[a as int].attachment_timelines@.len(),
                    0 <= ai <= natl,
                    skeleton.bones_view() == sb,
                    slots_colors_wf(skeleton.slots_view()),
                    skeleton.names_view() == old(skeleton).names_view(),
                    skeleton.draw_order_view() == old(skeleton).draw_order_view(),
                    apply_attachments_from(skeleton.slots_view(),
                        animations@[a as int].attachment_timelines@, tc as int, ai as int)
                        == apply_attachments_from(ss,
                            animations@[a as int].attachment_timelines@, tc as int, 0),
                decreases natl - ai,
            {
                let atl = &animations[a].attachment_timelines[ai];
                let sl = atl.slot;
                let slen = skeleton.slots().len();
                let ghost pre_s = skeleton.slots_view();
                if sl < slen {
                    let dflt = skeleton.slots()[sl].attachment;
                    let att = sample_attachment(&atl.keys, tc, dflt);
                    let slots = skeleton.slots_mut();
                    let o = slots[sl];
                    slots[sl] = Slot { attachment: att, ..o };
                    proof {
                        assert forall|j: int| 0 <= j < skeleton.slots_view().len()
                            implies crate::color::color_in_range(
                                (#[trigger] skeleton.slots_view()[j]).color) by {
                            assert(crate::color::color_in_range(pre_s[j].color));
                        }
                    }
                }
                ai = ai + 1;
            }
            let ghost ev0 = events@;
            let nev = animations[a].events.len();
            let mut ei: usize = 0;
            while ei < nev
                invariant
                    na == animations@.len(),
                    a < na,
                    nev == animations@[a as int].events@.len(),
                    0 <= ei <= nev,
                    -FX_LIMIT <= c.last_time <= FX_LIMIT,
                    0 <= c.track_time <= FX_LIMIT,
                    0 <= animations@[a as int].duration <= FX_LIMIT,
                    events@ + events_fired_from(
                        animations@[a as int].events@,
                        c.last_time as int,
                        c.track_time as int,
                        animations@[a as int].duration as int,
                        c.looping,
                        k,
                        ei as int,
                    ) == ev0 + events_fired_from(
                        animations@[a as int].events@,
                        c.last_time as int,
                        c.track_time as int,
                        animations@[a as int].duration as int,
                        c.looping,
                        k,
                        0,
                    ),
                    skeleton.bones_view() == sb,
                    apply_attachments_from(ss,
                        animations@[a as int].attachment_timelines@, tc as int, 0)
                        == skeleton.slots_view(),
                    slots_colors_wf(skeleton.slots_view()),
                    skeleton.names_view() == old(skeleton).names_view(),
                    skeleton.draw_order_view() == old(skeleton).draw_order_view(),
                decreases nev - ei,
            {
                let ek = &animations[a].events[ei];
                if event_fires_exec(ek.time, c.last_time, c.track_time,
                    animations[a].duration, c.looping) {
                    events.push(EventItem::Timeline { name: ek.name.clone(), time: ek.time });
                }
                ei = ei + 1;
            }
        },
        None => {},
    }
}

impl AnimationState {
    /// Write the blended pose of every track onto the skeleton, in track
    /// order — a later track layers over an earlier one — and queue the
    /// timeline events each playing entry passed since its last apply.
    /// Bone and slot locals change; the cached world fields, names and
    /// draw order do not move until the world transform is next updated.
    /// A host can establish the preconditions at runtime with
    /// `animations_valid`; `lemma_apply_keeps_attachments_in_pool` shows
    /// that validated attachment keys keep every slot's attachment
    /// inside the template's pool.
    #[verifier::rlimit(100)]
    pub fn apply(&mut self, skeleton: &mut Skeleton, animations: &Vec<Animation>)
        requires
            anims_wf(animations@),
            state_wf(&*old(self), animations@.len() as int),
            bones_wf(old(skeleton).bones_view()),
            slots_colors_wf(old(skeleton).slots_view()),
        ensures
            ({
                let w = apply_all_pose(
                    old(skeleton).bones_view(),
                    old(skeleton).slots_view(),
                    old(self).tracks_view(),
                    animations@,
                    0,
                );
                final(skeleton).bones_view() == w.0 && final(skeleton).slots_view() == w.1
            }),
            final(skeleton).names_view() == old(skeleton).names_view(),
            final(skeleton).draw_order_view() == old(skeleton).draw_order_view(),
            final(self).events_view() == old(self).events_view() + apply_events_upto(
                old(self).tracks_view(),
                animations@,
                old(self).tracks_view().len() as int,
            ),
            final(self).tracks_view().len() == old(self).tracks_view().len(),
            forall|k: int| 0 <= k < old(self).tracks_view().len()
                ==> #[trigger] final(self).tracks_view()[k]
                    == mark_applied(old(self).tracks_view()[k]),
    {
        let ghost old_tracks = self.tracks@;
        let ghost old_events = self.events@;
        let ghost ob = skeleton.bones_view();
        let ghost os = skeleton.slots_view();
        let nt = self.tracks.len();
        let na = animations.len();
        let mut k: usize = 0;
        while k < nt
            invariant
                anims_wf(animations@),
                0 <= k <= nt,
                nt == self.tracks@.len(),
                na == animations@.len(),
                old_tracks.len() == nt,
                forall|j: int| 0 <= j < nt ==> track_wf(#[trigger] old_tracks[j], na as int),
                forall|j: int| k <= j < nt ==> #[trigger] self.tracks@[j] == old_tracks[j],
                forall|j: int| 0 <= j < k
                    ==> #[trigger] self.tracks@[j] == mark_applied(old_tracks[j]),
                self.events@ == old_events + apply_events_upto(old_tracks, animations@, k as int),
                bones_wf(skeleton.bones_view()),
                slots_colors_wf(skeleton.slots_view()),
                skeleton.names_view() == old(skeleton).names_view(),
                skeleton.draw_order_view() == old(skeleton).draw_order_view(),
                apply_all_pose(skeleton.bones_view(), skeleton.slots_view(), old_tracks,
                    animations@, k as int)
                    == apply_all_pose(ob, os, old_tracks, animations@, 0),
            decreases nt - k,
        {
            let cur = match &self.tracks[k].current {
                Some(c) => Some(*c),
                None => None,
            };
            match cur {
                Some(c) => {
                    proof {
                        assert(track_wf(old_tracks[k as int], na as int));
                    }
                    let mixto = match &self.tracks[k].mixing_to {
                        Some(m) => Some(*m),
                        None => None,
                    };
                    apply_entry(skeleton, &mut self.events, animations, c, mixto, k);
                    let ghost pre = self.tracks@;
                    let mut t2 = self.tracks.remove(k);
                    t2.current = Some(TrackEntry { last_time: c.track_time, ..c });
                    self.tracks.insert(k, t2);
                    proof {
                        assert(self.tracks@ =~= pre.update(k as int, self.tracks@[k as int]));
                    }
                },
                None => {},
            }
            k = k + 1;
        }
    }
}

} // verus!
