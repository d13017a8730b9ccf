//! Keyframe storage and deterministic time-to-value sampling.
//!
//! A track owns a fixed number of frame slots, each optionally holding
//! a keyframe, and samples by step interpolation: the value of the
//! slot that the wrapped time falls into, with no blending.  Time is
//! measured in integer ticks, so sampling is exact and total.

use crate::assoc::assoc_get;
use crate::assoc::assoc_has;
use crate::assoc::assoc_index;
use crate::assoc::assoc_put;
use crate::assoc::assoc_unique;
use crate::assoc::lemma_assoc_index;
use crate::assoc::lemma_assoc_put;
use crate::assoc::IdMap;
use crate::assoc::StrMap;
use crate::value::BoundComponentValue;
use crate::value::BoundValue;
use crate::value::BoundValueModel;
use crate::value::TrackValue;
use crate::value::TrackValueModel;
use crate::value::ValueBinding;
use crate::value::ValueBindingModel;
use vstd::arithmetic::div_mod::lemma_mod_bound;
use vstd::arithmetic::div_mod::lemma_mod_multiples_vanish;
use vstd::arithmetic::div_mod::lemma_multiply_divide_lt;
use vstd::arithmetic::mul::lemma_mul_strictly_positive;
use vstd::prelude::*;

verus! {

/// How sampling reads the keyframes between slots.  Only step
/// (nearest-preceding-slot) sampling exists; blending between
/// keyframes is a documented non-goal.
#[derive(Debug, Clone, Copy, PartialEq, Eq, Structural)]
pub enum InterpolationMode {
    Constant,
}

/// One authored sample: a unique identifier, the frame slot it
/// occupies, and the raw value.
#[derive(Debug)]
pub struct Keyframe {
    pub id: u128,
    pub location: usize,
    pub value: TrackValue,
}

/// Mathematical model of a [`Keyframe`].
pub ghost struct KeyframeModel {
    pub id: u128,
    pub location: usize,
    pub value: TrackValueModel,
}

impl View for Keyframe {
    type V = KeyframeModel;

    open spec fn view(&self) -> KeyframeModel {
        KeyframeModel { id: self.id, location: self.location, value: self.value@ }
    }
}

impl Clone for Keyframe {
    fn clone(&self) -> (r: Self)
        ensures
            r@ == self@,
    {
        Keyframe { id: self.id, location: self.location, value: self.value.clone() }
    }
}

/// Relies on `uuid::Uuid::new_v4` (via `Uuid::as_u128`) for a fresh
/// random version-4 identifier; nothing is promised of its value.
#[verifier::external_body]
fn fresh_keyframe_id() -> u128 {
    uuid::Uuid::new_v4().as_u128()
}

impl Keyframe {
    /// A new keyframe for slot `location` carrying `value`, under a
    /// freshly generated identifier.
    pub fn new(location: usize, value: TrackValue) -> (r: Self)
        ensures
            r@.location == location,
            r@.value == value@,
    {
        let id = fresh_keyframe_id();
        Keyframe { id, location, value }
    }
}

/// Keyframe storage for one track: `slots.len()` fixed frame slots,
/// each optionally naming a keyframe, and the keyframes by identifier.
#[derive(Debug)]
pub struct TrackDataContainer {
    /// The keyframes, keyed by their identifiers.
    pub keyframes: IdMap<Keyframe>,
    /// How values between slots are read.
    pub mode: InterpolationMode,
    /// Ticks each frame slot lasts; always at least one.
    pub frame_duration: u64,
    /// The identifier of the keyframe occupying each slot, if any.
    pub slots: Vec<Option<u128>>,
}

/// Mathematical model of a [`TrackDataContainer`].
pub ghost struct TrackDataContainerModel {
    pub keyframes: Seq<(u128, KeyframeModel)>,
    pub mode: InterpolationMode,
    pub frame_duration: u64,
    pub slots: Seq<Option<u128>>,
}

impl View for TrackDataContainer {
    type V = TrackDataContainerModel;

    open spec fn view(&self) -> TrackDataContainerModel {
        TrackDataContainerModel {
            keyframes: self.keyframes@,
            mode: self.mode,
            frame_duration: self.frame_duration,
            slots: self.slots@,
        }
    }
}

/// Well-formedness of keyframe storage: at least one slot, a positive
/// frame duration whose period fits the tick range, distinct keyframe
/// identifiers, and no slot naming a missing keyframe.
pub open spec fn container_wf(c: TrackDataContainerModel) -> bool {
    &&& 1 <= c.frame_duration
    &&& 1 <= c.slots.len()
    &&& c.frame_duration as int * c.slots.len() as int <= u64::MAX as int
    &&& assoc_unique(c.keyframes)
    &&& forall|i: int|
        0 <= i < c.slots.len() ==> (#[trigger] c.slots[i] matches Some(id) ==> assoc_has(
            c.keyframes,
            id,
        ))
}

/// Ticks after which playback wraps: the frame duration times the
/// number of slots.
pub open spec fn spec_period(c: TrackDataContainerModel) -> int {
    c.frame_duration as int * c.slots.len() as int
}

/// The slot that `time` falls into once wrapped into the period.
pub open spec fn spec_slot_at(c: TrackDataContainerModel, time: u64) -> int {
    (time as int % spec_period(c)) / c.frame_duration as int
}

/// What sampling the storage at `time` yields: the value of the
/// keyframe occupying the slot that `time` falls into, or `None` for
/// an empty slot.
pub open spec fn spec_container_fetch(c: TrackDataContainerModel, time: u64) -> Option<
    TrackValueModel,
> {
    match c.slots[spec_slot_at(c, time)] {
        Some(id) => match assoc_get(c.keyframes, id) {
            Some(kf) => Some(kf.value),
            None => None,
        },
        None => None,
    }
}

/// The container after inserting `kf`: its slot names the keyframe
/// and the keyframe map binds its identifier; a keyframe aimed past
/// the last slot is silently ignored.
pub open spec fn spec_add_keyframe(
    c: TrackDataContainerModel,
    kf: KeyframeModel,
) -> TrackDataContainerModel {
    if kf.location < c.slots.len() {
        TrackDataContainerModel {
            keyframes: assoc_put(c.keyframes, kf.id, kf),
            slots: c.slots.update(kf.location as int, Some(kf.id)),
            ..c
        }
    } else {
        c
    }
}

impl TrackDataContainer {
    /// Exec-level well-formedness; see [`container_wf`].
    pub open spec fn wf(&self) -> bool {
        container_wf(self@)
    }

    /// Fresh storage with `frame_count` empty slots of `frame_duration`
    /// ticks each.
    pub fn new(frame_duration: u64, frame_count: usize) -> (r: Self)
        requires
            1 <= frame_duration,
            1 <= frame_count,
            frame_duration as int * frame_count as int <= u64::MAX as int,
        ensures
            r.wf(),
            r@.keyframes == Seq::<(u128, KeyframeModel)>::empty(),
            r@.mode == InterpolationMode::Constant,
            r@.frame_duration == frame_duration,
            r@.slots == Seq::new(frame_count as nat, |i: int| None::<u128>),
    {
        let mut slots: Vec<Option<u128>> = Vec::new();
        for i in 0..frame_count
            invariant
                slots@.len() == i,
                forall|j: int| 0 <= j < i ==> slots@[j] is None,
        {
            slots.push(None);
        }
        proof {
            assert(slots@ =~= Seq::new(frame_count as nat, |i: int| None::<u128>));
        }
        TrackDataContainer {
            keyframes: IdMap::new(),
            mode: InterpolationMode::Constant,
            frame_duration,
            slots,
        }
    }

    /// Inserts `key_frame` into the slot it names, overwriting any
    /// prior occupant; an out-of-range slot is silently ignored.
    pub fn add_keyframe(&mut self, key_frame: Keyframe)
        requires
            old(self).wf(),
        ensures
            final(self).wf(),
            final(self)@ == spec_add_keyframe(old(self)@, key_frame@),
    {
        let ghost oldm = self@;
        let ghost kfm = key_frame@;
        if key_frame.location < self.slots.len() {
            let loc = key_frame.location;
            let id = key_frame.id;
            self.slots[loc] = Some(id);
            self.keyframes.insert(id, key_frame);
            proof {
                lemma_assoc_put(oldm.keyframes, kfm.id, kfm, kfm.id);
                assert(self@.slots =~= oldm.slots.update(kfm.location as int, Some(kfm.id)));
                assert(self@ == spec_add_keyframe(oldm, kfm));
                assert forall|i: int|
                    0 <= i < self@.slots.len() implies (#[trigger] self@.slots[i] matches Some(id2)
                    ==> assoc_has(self@.keyframes, id2)) by {
                    if self@.slots[i] is Some {
                        let id2 = self@.slots[i]->0;
                        if i == kfm.location as int {
                            assert(assoc_get(self@.keyframes, kfm.id) == Some(kfm));
                        } else {
                            assert(oldm.slots[i] == self@.slots[i]);
                            lemma_assoc_put(oldm.keyframes, kfm.id, kfm, id2);
                        }
                    }
                }
            }
        }
    }

    /// Samples the storage at `time`, wrapping into the period and
    /// reading the slot the wrapped time falls into.
    pub fn fetch(&self, time: u64) -> (r: Option<TrackValue>)
        requires
            self.wf(),
        ensures
            r matches Some(v) ==> spec_container_fetch(self@, time) == Some(v@),
            r is None ==> spec_container_fetch(self@, time) is None,
    {
        let count = self.slots.len();
        proof {
            lemma_mul_strictly_positive(self.frame_duration as int, count as int);
        }
        let period = self.frame_duration * (count as u64);
        let wrapped = time % period;
        proof {
            lemma_mod_bound(time as int, period as int);
            lemma_multiply_divide_lt(wrapped as int, self.frame_duration as int, count as int);
        }
        let slot = (wrapped / self.frame_duration) as usize;
        match self.mode {
            InterpolationMode::Constant => {
                match self.slots[slot] {
                    Some(id) => match self.keyframes.get(id) {
                        Some(kf) => Some(kf.value.clone()),
                        None => None,
                    },
                    None => None,
                }
            },
        }
    }
}

/// One animated value over time: a binding saying where the value is
/// written, keyframe storage, and an enabled flag; a disabled track
/// contributes nothing to a pose.
#[derive(Debug)]
pub struct Track {
    pub enabled: bool,
    pub frames: TrackDataContainer,
    pub binding: ValueBinding,
}

/// Mathematical model of a [`Track`].
pub ghost struct TrackModel {
    pub enabled: bool,
    pub frames: TrackDataContainerModel,
    pub binding: ValueBindingModel,
}

impl View for Track {
    type V = TrackModel;

    open spec fn view(&self) -> TrackModel {
        TrackModel { enabled: self.enabled, frames: self.frames@, binding: self.binding@ }
    }
}

/// Well-formedness of a track: its keyframe storage is well-formed.
pub open spec fn track_wf(t: TrackModel) -> bool {
    container_wf(t.frames)
}

/// What sampling a track yields: nothing while disabled, else the
/// sampled raw value paired with the track's binding.
pub open spec fn spec_track_fetch(t: TrackModel, time: u64) -> Option<BoundValueModel> {
    if !t.enabled {
        None
    } else {
        match spec_container_fetch(t.frames, time) {
            Some(v) => Some(BoundValueModel { binding: t.binding, value: v }),
            None => None,
        }
    }
}

impl Track {
    /// Exec-level well-formedness; see [`track_wf`].
    pub open spec fn wf(&self) -> bool {
        track_wf(self@)
    }

    /// A fresh enabled track for `binding` with `frame_count` empty
    /// slots of `frame_duration` ticks each.
    pub fn new(binding: ValueBinding, frame_duration: u64, frame_count: usize) -> (r: Self)
        requires
            1 <= frame_duration,
            1 <= frame_count,
            frame_duration as int * frame_count as int <= u64::MAX as int,
        ensures
            r.wf(),
            r@.enabled,
            r@.binding == binding@,
            r@.frames.frame_duration == frame_duration,
            r@.frames.slots == Seq::new(frame_count as nat, |i: int| None::<u128>),
            r@.frames.keyframes == Seq::<(u128, KeyframeModel)>::empty(),
    {
        Track { enabled: true, frames: TrackDataContainer::new(frame_duration, frame_count), binding }
    }

    /// Inserts `key_frame` into this track's storage.
    pub fn add_keyframe(&mut self, key_frame: Keyframe)
        requires
            old(self).wf(),
        ensures
            final(self).wf(),
            final(self)@.enabled == old(self)@.enabled,
            final(self)@.binding == old(self)@.binding,
            final(self)@.frames == spec_add_keyframe(old(self)@.frames, key_frame@),
    {
        self.frames.add_keyframe(key_frame);
    }

    /// The field path this track writes, or `None` for a whole-object
    /// track.
    pub fn path(&self) -> (r: &Option<String>)
        ensures
            match r {
                Some(p) => self@.binding.path == Some(p@),
                None => self@.binding.path is None,
            },
    {
        &self.binding.path
    }

    /// Samples the track at `time`.  A disabled track yields nothing;
    /// an empty slot yields nothing rather than a default value.
    pub fn fetch(&self, time: u64) -> (r: Option<BoundValue>)
        requires
            self.wf(),
        ensures
            r matches Some(b) ==> spec_track_fetch(self@, time) == Some(b@),
            r is None ==> spec_track_fetch(self@, time) is None,
            !self@.enabled ==> r is None,
            self@.enabled && self@.frames.slots[spec_slot_at(self@.frames, time)] is None ==> r
                is None,
    {
        if !self.enabled {
            return None;
        }
        match self.frames.fetch(time) {
            Some(value) => Some(BoundValue { binding: self.binding.clone(), value }),
            None => None,
        }
    }
}

/// Sampling loops: one whole period later, a track samples to the
/// same value, for every time within the tick range.
pub proof fn lemma_fetch_loops(t: TrackModel, time: u64)
    requires
        track_wf(t),
        time + spec_period(t.frames) <= u64::MAX,
    ensures
        spec_track_fetch(t, time) == spec_track_fetch(
            t,
            (time + spec_period(t.frames)) as u64,
        ),
{
    let p = spec_period(t.frames);
    lemma_mul_strictly_positive(t.frames.frame_duration as int, t.frames.slots.len() as int);
    lemma_mod_multiples_vanish(1, time as int, p);
    assert(p * 1 + time == time + p);
    assert((time + p) % p == time as int % p);
}


/// A whole-object component track: one track animating the entire
/// value of the target type.
#[derive(Debug)]
pub struct SingleComponentTrack(pub Track);

/// A field-by-field component track: one track per named field of the
/// target type, keyed by field path.
#[derive(Debug)]
pub struct MultipleSingleComponentTrack(pub StrMap<Track>);

/// All tracks for one target type within one animation: a whole-value
/// track, or a map of per-field tracks.  The variant is fixed when the
/// component track is created, by whether the target type is
/// registered as whole-value-animatable.
#[derive(Debug)]
pub enum ComponentTrack {
    Single(SingleComponentTrack),
    Multiple(MultipleSingleComponentTrack),
}

/// Mathematical model of a [`ComponentTrack`].
pub ghost enum ComponentTrackModel {
    Single(TrackModel),
    Multiple(Seq<(Seq<char>, TrackModel)>),
}

impl View for SingleComponentTrack {
    type V = TrackModel;

    open spec fn view(&self) -> TrackModel {
        self.0@
    }
}

impl View for MultipleSingleComponentTrack {
    type V = Seq<(Seq<char>, TrackModel)>;

    open spec fn view(&self) -> Seq<(Seq<char>, TrackModel)> {
        self.0@
    }
}

impl View for ComponentTrack {
    type V = ComponentTrackModel;

    open spec fn view(&self) -> ComponentTrackModel {
        match self {
            ComponentTrack::Single(t) => ComponentTrackModel::Single(t@),
            ComponentTrack::Multiple(m) => ComponentTrackModel::Multiple(m@),
        }
    }
}

/// Well-formedness of a component track: every track in it is
/// well-formed, and per-field tracks are keyed uniquely.
pub open spec fn component_track_wf(ct: ComponentTrackModel) -> bool {
    match ct {
        ComponentTrackModel::Single(t) => track_wf(t),
        ComponentTrackModel::Multiple(s) => {
            &&& assoc_unique(s)
            &&& forall|i: int| 0 <= i < s.len() ==> track_wf(#[trigger] s[i].1)
        },
    }
}

/// The component track after adding `t`: a whole-value track is
/// replaced; a per-field track is inserted under its field path, and
/// one without a field path leaves the map unchanged.
pub open spec fn spec_add_track(ct: ComponentTrackModel, t: TrackModel) -> ComponentTrackModel {
    match ct {
        ComponentTrackModel::Single(_) => ComponentTrackModel::Single(t),
        ComponentTrackModel::Multiple(s) => match t.binding.path {
            Some(p) => ComponentTrackModel::Multiple(assoc_put(s, p, t)),
            None => ComponentTrackModel::Multiple(s),
        },
    }
}

/// What sampling a sequence of per-field tracks yields: the bound
/// values of the tracks that produced one, in map order.
pub open spec fn spec_multi_fetch(s: Seq<(Seq<char>, TrackModel)>, time: u64) -> Seq<
    BoundValueModel,
>
    decreases s.len(),
{
    if s.len() == 0 {
        Seq::empty()
    } else {
        spec_multi_fetch(s.drop_last(), time) + match spec_track_fetch(s.last().1, time) {
            Some(b) => seq![b],
            None => Seq::empty(),
        }
    }
}

/// What sampling a component track yields.
pub open spec fn spec_component_fetch(ct: ComponentTrackModel, time: u64) -> Seq<
    BoundValueModel,
> {
    match ct {
        ComponentTrackModel::Single(t) => match spec_track_fetch(t, time) {
            Some(b) => seq![b],
            None => Seq::empty(),
        },
        ComponentTrackModel::Multiple(s) => spec_multi_fetch(s, time),
    }
}

impl ComponentTrack {
    /// Exec-level well-formedness; see [`component_track_wf`].
    pub open spec fn wf(&self) -> bool {
        component_track_wf(self@)
    }

    /// Adds `track`: replaces the whole-value track, or inserts a
    /// per-field track under its field path.
    pub fn add_track(&mut self, track: Track)
        requires
            old(self).wf(),
            track.wf(),
        ensures
            final(self).wf(),
            final(self)@ == spec_add_track(old(self)@, track@),
    {
        let ghost oldm = self@;
        let ghost tm = track@;
        match self {
            ComponentTrack::Single(t) => {
                t.0 = track;
            },
            ComponentTrack::Multiple(m) => {
                let path = match &track.binding.path {
                    Some(p) => p.clone(),
                    None => {
                        return ;
                    },
                };
                let ghost s = m.0@;
                m.0.insert(path, track);
                proof {
                    lemma_assoc_index(s, tm.binding.path->0);
                    lemma_assoc_put(s, tm.binding.path->0, tm, tm.binding.path->0);
                    assert forall|i: int|
                        0 <= i < m.0@.len() implies track_wf(#[trigger] m.0@[i].1) by {
                        if assoc_has(s, tm.binding.path->0) {
                            if i != assoc_index(s, tm.binding.path->0) {
                                assert(m.0@[i] == s[i]);
                            }
                        } else {
                            if i < s.len() {
                                assert(m.0@[i] == s[i]);
                            }
                        }
                    }
                }
            },
        }
    }

    /// Samples every track of this component track at `time`,
    /// collecting the bound values the tracks produced.
    pub fn fetch(&self, time: u64) -> (r: BoundComponentValue)
        requires
            self.wf(),
        ensures
            r@ == spec_component_fetch(self@, time),
    {
        match self {
            ComponentTrack::Single(t) => {
                let mut values: Vec<BoundValue> = Vec::new();
                if let Some(b) = t.0.fetch(time) {
                    values.push(b);
                }
                proof {
                    assert(values@.map_values(|b: BoundValue| b@) =~= spec_component_fetch(
                        self@,
                        time,
                    ));
                }
                BoundComponentValue(values)
            },
            ComponentTrack::Multiple(m) => {
                let mut values: Vec<BoundValue> = Vec::new();
                let n = m.0.len();
                for i in 0..n
                    invariant
                        n == m.0@.len(),
                        component_track_wf(ComponentTrackModel::Multiple(m.0@)),
                        values@.map_values(|b: BoundValue| b@) == spec_multi_fetch(
                            m.0@.take(i as int),
                            time,
                        ),
                {
                    let track = m.0.val_at(i);
                    proof {
                        assert(m.0@.take(i + 1).drop_last() =~= m.0@.take(i as int));
                        assert(m.0@.take(i + 1).last() == m.0@[i as int]);
                    }
                    if let Some(b) = track.fetch(time) {
                        values.push(b);
                        proof {
                            assert(values@.map_values(|b: BoundValue| b@) =~= spec_multi_fetch(
                                m.0@.take(i + 1),
                                time,
                            ));
                        }
                    } else {
                        proof {
                            assert(values@.map_values(|b: BoundValue| b@) =~= spec_multi_fetch(
                                m.0@.take(i + 1),
                                time,
                            ));
                        }
                    }
                }
                proof {
                    assert(m.0@.take(n as int) =~= m.0@);
                }
                BoundComponentValue(values)
            },
        }
    }
}


/// Which component-track variant a target type gets: a whole-value
/// track when its type tag carries a value resolver of its own, else
/// a per-field track map seeded by adding the track.
pub open spec fn spec_for_target_type(
    reg: Seq<(Seq<char>, crate::registry::CapabilityTable)>,
    tag: Seq<char>,
    t: TrackModel,
) -> ComponentTrackModel {
    let whole = match crate::assoc::assoc_get(reg, tag) {
        Some(c) => c.value_type is Some,
        None => false,
    };
    if whole {
        ComponentTrackModel::Single(t)
    } else {
        spec_add_track(
            ComponentTrackModel::Multiple(Seq::empty()),
            t,
        )
    }
}

impl ComponentTrack {
    /// Builds the component track for a target type, fixing the
    /// variant at creation: whole-value when the type is registered
    /// as whole-value-animatable, per-field otherwise.
    pub fn for_target_type(
        registry: &crate::registry::AnimationRegistry,
        tag: &crate::names::ShortTypePath,
        track: Track,
    ) -> (r: ComponentTrack)
        requires
            track.wf(),
        ensures
            r.wf(),
            r@ == spec_for_target_type(registry@, tag@, track@),
    {
        match registry.value_type_of(tag.as_string()) {
            Some(_) => ComponentTrack::Single(SingleComponentTrack(track)),
            None => {
                let mut ct = ComponentTrack::Multiple(
                    MultipleSingleComponentTrack(StrMap::new()),
                );
                ct.add_track(track);
                ct
            },
        }
    }
}

} // verus!
