//! Clips, animation sets, and the sampling of a clip into a pose.
//!
//! An entity animation (a clip) holds one component track per target
//! type; an animation set maps clip names to clips and is the loadable
//! asset.  Sampling a clip at a time yields an animation pose: one
//! resolved component pose per registered target type.

use crate::assoc::assoc_get;
use crate::assoc::assoc_has;
use crate::assoc::assoc_unique;
use crate::assoc::IdMap;
use crate::assoc::StrMap;
use crate::names::AnimationName;
use crate::registry::AnimationRegistry;
use crate::registry::AssetProvider;
use crate::registry::CapabilityTable;
use crate::track::component_track_wf;
use crate::track::spec_component_fetch;
use crate::track::ComponentTrack;
use crate::track::ComponentTrackModel;
use crate::value::spec_component_pose;
use crate::value::AssetPathModel;
use crate::value::ComponentPose;
use crate::value::ReflectBoundValueModel;
use vstd::prelude::*;

verus! {

/// One clip: a component track per animated target type.
pub struct EntityAnimation {
    pub tracks: StrMap<ComponentTrack>,
}

impl View for EntityAnimation {
    type V = Seq<(Seq<char>, ComponentTrackModel)>;

    open spec fn view(&self) -> Seq<(Seq<char>, ComponentTrackModel)> {
        self.tracks@
    }
}

/// Well-formedness of a clip: one entry per target type, each
/// component track well-formed.
pub open spec fn entity_animation_wf(e: Seq<(Seq<char>, ComponentTrackModel)>) -> bool {
    &&& assoc_unique(e)
    &&& forall|i: int| 0 <= i < e.len() ==> component_track_wf(#[trigger] e[i].1)
}

/// A pose for every target type of one clip at one instant: the
/// resolved component poses, keyed by target type tag.
pub struct AnimationPose(pub StrMap<ComponentPose>);

impl View for AnimationPose {
    type V = Seq<(Seq<char>, Seq<ReflectBoundValueModel>)>;

    open spec fn view(&self) -> Seq<(Seq<char>, Seq<ReflectBoundValueModel>)> {
        self.0@
    }
}

/// What sampling a clip yields: for each target type, in clip order,
/// the resolved component pose — provided the type is registered with
/// an apply capability and its pose is not empty.  Unregistered types
/// and empty poses are left out entirely.
pub open spec fn spec_animation_pose(
    tracks: Seq<(Seq<char>, ComponentTrackModel)>,
    reg: Seq<(Seq<char>, CapabilityTable)>,
    assets: Seq<(AssetPathModel, u128)>,
    time: u64,
) -> Seq<(Seq<char>, Seq<ReflectBoundValueModel>)>
    decreases tracks.len(),
{
    if tracks.len() == 0 {
        Seq::empty()
    } else {
        let prefix = spec_animation_pose(tracks.drop_last(), reg, assets, time);
        let tag = tracks.last().0;
        let ct = tracks.last().1;
        let registered = match assoc_get(reg, tag) {
            Some(c) => c.animate_component,
            None => false,
        };
        if registered {
            match spec_component_pose(spec_component_fetch(ct, time), reg, assets) {
                Some(p) => prefix + seq![(tag, p)],
                None => prefix,
            }
        } else {
            prefix
        }
    }
}

impl EntityAnimation {
    /// Exec-level well-formedness; see [`entity_animation_wf`].
    pub open spec fn wf(&self) -> bool {
        entity_animation_wf(self@)
    }

    /// A clip with no tracks yet.
    pub fn new() -> (r: Self)
        ensures
            r@ == Seq::<(Seq<char>, ComponentTrackModel)>::empty(),
            r.wf(),
    {
        EntityAnimation { tracks: StrMap::new() }
    }

    /// Samples every registered target type of this clip at `time`
    /// into an animation pose.  A target type that is missing from
    /// the registry, or not registered for applying, contributes no
    /// entry at all; neither does one whose pose comes out empty.
    pub fn get_animation_pose(
        &self,
        time: u64,
        registry: &AnimationRegistry,
        asset_server: &AssetProvider,
    ) -> (r: AnimationPose)
        requires
            self.wf(),
        ensures
            r@ == spec_animation_pose(self@, registry@, asset_server@, time),
    {
        let mut pose: StrMap<ComponentPose> = StrMap::new();
        let n = self.tracks.len();
        for i in 0..n
            invariant
                n == self@.len(),
                entity_animation_wf(self@),
                pose@ == spec_animation_pose(self@.take(i as int), registry@, asset_server@, time),
                forall|j: int|
                    0 <= j < pose@.len() ==> assoc_has(
                        self@.take(i as int),
                        #[trigger] pose@[j].0,
                    ),
        {
            let ghost prefix = pose@;
            let tag = self.tracks.key_at(i);
            let ct = self.tracks.val_at(i);
            proof {
                assert(self@.take(i + 1).drop_last() =~= self@.take(i as int));
                assert(self@.take(i + 1).last() == self@[i as int]);
            }
            if registry.is_component_animatable(tag) {
                let collection = ct.fetch(time);
                match collection.get_component_pose(registry, asset_server) {
                    Some(component_pose) => {
                        proof {
                            crate::assoc::lemma_assoc_index(prefix, self@[i as int].0);
                            if assoc_has(prefix, self@[i as int].0) {
                                let j = crate::assoc::assoc_index(prefix, self@[i as int].0);
                                assert(assoc_has(self@.take(i as int), prefix[j].0));
                                crate::assoc::lemma_assoc_index(
                                    self@.take(i as int),
                                    prefix[j].0,
                                );
                                let m = crate::assoc::assoc_index(
                                    self@.take(i as int),
                                    prefix[j].0,
                                );
                                assert(self@.take(i as int)[m] == self@[m]);
                                assert(self@[m].0 == self@[i as int].0);
                                assert(false);
                            }
                        }
                        pose.insert(tag.clone(), component_pose);
                        proof {
                            assert(self@.take(i + 1) =~= self@.take(i as int).push(
                                self@[i as int],
                            ));
                            assert forall|j: int| 0 <= j < pose@.len() implies assoc_has(
                                self@.take(i + 1),
                                #[trigger] pose@[j].0,
                            ) by {
                                crate::assoc::lemma_assoc_has_push(
                                    self@.take(i as int),
                                    self@[i as int],
                                    pose@[j].0,
                                );
                            }
                            assert(pose@ =~= spec_animation_pose(
                                self@.take(i + 1),
                                registry@,
                                asset_server@,
                                time,
                            ));
                        }
                    },
                    None => {
                        proof {
                            assert(self@.take(i + 1) =~= self@.take(i as int).push(
                                self@[i as int],
                            ));
                            assert forall|j: int| 0 <= j < pose@.len() implies assoc_has(
                                self@.take(i + 1),
                                #[trigger] pose@[j].0,
                            ) by {
                                crate::assoc::lemma_assoc_has_push(
                                    self@.take(i as int),
                                    self@[i as int],
                                    pose@[j].0,
                                );
                            }
                            assert(pose@ =~= spec_animation_pose(
                                self@.take(i + 1),
                                registry@,
                                asset_server@,
                                time,
                            ));
                        }
                    },
                }
            } else {
                proof {
                    assert(self@.take(i + 1) =~= self@.take(i as int).push(self@[i as int]));
                    assert forall|j: int| 0 <= j < pose@.len() implies assoc_has(
                        self@.take(i + 1),
                        #[trigger] pose@[j].0,
                    ) by {
                        crate::assoc::lemma_assoc_has_push(
                            self@.take(i as int),
                            self@[i as int],
                            pose@[j].0,
                        );
                    }
                    assert(pose@ =~= spec_animation_pose(
                        self@.take(i + 1),
                        registry@,
                        asset_server@,
                        time,
                    ));
                }
            }
        }
        proof {
            assert(self@.take(n as int) =~= self@);
        }
        AnimationPose(pose)
    }
}

/// A target type that is not registered for applying — or not in the
/// registry at all — is entirely absent from every sampled pose, and
/// sampling still succeeds for the other types.
pub proof fn lemma_unregistered_type_absent(
    tracks: Seq<(Seq<char>, ComponentTrackModel)>,
    reg: Seq<(Seq<char>, CapabilityTable)>,
    assets: Seq<(AssetPathModel, u128)>,
    time: u64,
    tag: Seq<char>,
)
    requires
        match assoc_get(reg, tag) {
            Some(c) => !c.animate_component,
            None => true,
        },
    ensures
        !assoc_has(spec_animation_pose(tracks, reg, assets, time), tag),
    decreases tracks.len(),
{
    let r = spec_animation_pose(tracks, reg, assets, time);
    crate::assoc::lemma_assoc_index(r, tag);
    if tracks.len() > 0 {
        lemma_unregistered_type_absent(tracks.drop_last(), reg, assets, time, tag);
        let prefix = spec_animation_pose(tracks.drop_last(), reg, assets, time);
        crate::assoc::lemma_assoc_index(prefix, tag);
        if assoc_has(r, tag) {
            let j = crate::assoc::assoc_index(r, tag);
            assert(r[j].0 == tag);
            if j < prefix.len() {
                assert(prefix[j] == r[j]);
                assert(assoc_has(prefix, tag));
            }
        }
    }
}

/// The loadable asset: a named set of clips.
pub struct EntityAnimations(pub StrMap<EntityAnimation>);

impl View for EntityAnimations {
    type V = Seq<(Seq<char>, Seq<(Seq<char>, ComponentTrackModel)>)>;

    open spec fn view(&self) -> Seq<(Seq<char>, Seq<(Seq<char>, ComponentTrackModel)>)> {
        self.0@
    }
}

/// Well-formedness of an animation set: one entry per clip name, each
/// clip well-formed.
pub open spec fn entity_animations_wf(
    s: Seq<(Seq<char>, Seq<(Seq<char>, ComponentTrackModel)>)>,
) -> bool {
    &&& assoc_unique(s)
    &&& forall|i: int| 0 <= i < s.len() ==> entity_animation_wf(#[trigger] s[i].1)
}

impl EntityAnimations {
    /// Exec-level well-formedness; see [`entity_animations_wf`].
    pub open spec fn wf(&self) -> bool {
        entity_animations_wf(self@)
    }

    /// An empty animation set.
    pub fn new() -> (r: Self)
        ensures
            r@ == Seq::<(Seq<char>, Seq<(Seq<char>, ComponentTrackModel)>)>::empty(),
            r.wf(),
    {
        EntityAnimations(StrMap::new())
    }

    /// The clip with the given name, if the set holds one.
    pub fn get(&self, name: &AnimationName) -> (r: Option<&EntityAnimation>)
        ensures
            match r {
                Some(a) => assoc_get(self@, name@) == Some(a@),
                None => assoc_get(self@, name@) is None,
            },
    {
        self.0.get(name.as_string())
    }
}


/// Well-formedness of a whole store of loaded animation sets.
pub open spec fn animations_store_wf(
    s: Seq<(u128, Seq<(Seq<char>, Seq<(Seq<char>, ComponentTrackModel)>)>)>,
) -> bool {
    forall|i: int| 0 <= i < s.len() ==> entity_animations_wf(#[trigger] s[i].1)
}

/// What resolving one target's next animation yields: the pose of the
/// named clip of the loaded set under the handle, sampled at `time`;
/// nothing when the set is not loaded or the clip name is absent.
pub open spec fn spec_next_animation(
    assets: Seq<(u128, Seq<(Seq<char>, Seq<(Seq<char>, ComponentTrackModel)>)>)>,
    handle: u128,
    name: Seq<char>,
    time: u64,
    reg: Seq<(Seq<char>, CapabilityTable)>,
    provider: Seq<(AssetPathModel, u128)>,
) -> Option<Seq<(Seq<char>, Seq<ReflectBoundValueModel>)>> {
    match assoc_get(assets, handle) {
        Some(set) => match assoc_get(set, name) {
            Some(anim) => Some(spec_animation_pose(anim, reg, provider, time)),
            None => None,
        },
        None => None,
    }
}

/// One target's freshly sampled animation pose, to be applied to its
/// live object by the apply phase.
pub struct NextAnimation {
    pub pose: AnimationPose,
}

impl NextAnimation {
    /// Samples the named clip of the animation set under `handle` at
    /// `time`.  Yields nothing when the set is not loaded or holds no
    /// clip of that name; either way no pose is fabricated.
    pub fn new(
        registry: &AnimationRegistry,
        asset_server: &AssetProvider,
        animations: &IdMap<EntityAnimations>,
        handle: u128,
        active_name: &AnimationName,
        time: u64,
    ) -> (r: Option<NextAnimation>)
        requires
            animations_store_wf(animations@),
        ensures
            match r {
                Some(na) => spec_next_animation(
                    animations@,
                    handle,
                    active_name@,
                    time,
                    registry@,
                    asset_server@,
                ) == Some(na.pose@),
                None => spec_next_animation(
                    animations@,
                    handle,
                    active_name@,
                    time,
                    registry@,
                    asset_server@,
                ) is None,
            },
    {
        let set = match animations.get(handle) {
            Some(s) => s,
            None => {
                return None;
            },
        };
        proof {
            crate::assoc::lemma_assoc_index(animations@, handle);
        }
        let animation = match set.get(active_name) {
            Some(a) => a,
            None => {
                return None;
            },
        };
        proof {
            crate::assoc::lemma_assoc_index(set@, active_name@);
        }
        let pose = animation.get_animation_pose(time, registry, asset_server);
        Some(NextAnimation { pose })
    }
}

} // verus!
