//! A modelled live object store and the pose-apply phase.
//!
//! The engine never assumes a storage layout of the host's live
//! object graph: it works against this store of type-erased
//! components, keyed by entity and type tag.  A component is either a
//! whole native value or a struct of named fields.  Applying a pose
//! writes resolved values into a component: a whole-value binding
//! replaces the component's value, a field binding assigns the named
//! field; anything that does not line up — a missing entity, type or
//! field — is skipped and the rest still applies.

use crate::assoc::assoc_get;
use crate::assoc::assoc_has;
use crate::assoc::assoc_put;
use crate::assoc::lemma_assoc_index;
use crate::assoc::IdMap;
use crate::assoc::StrMap;
use crate::entity::AnimationPose;
use crate::entity::NextAnimation;
use crate::names::ShortTypePath;
use crate::value::ComponentPose;
use crate::value::NativeValue;
use crate::value::ReflectBoundValueModel;
use vstd::prelude::*;

verus! {

/// One live component of a host object: a whole value, or a struct
/// of named fields.
#[derive(Debug)]
pub enum HostComponent {
    Value(NativeValue),
    Struct(StrMap<NativeValue>),
}

/// Mathematical model of a [`HostComponent`].
pub ghost enum HostComponentModel {
    Value(NativeValue),
    Struct(Seq<(Seq<char>, NativeValue)>),
}

impl View for HostComponent {
    type V = HostComponentModel;

    open spec fn view(&self) -> HostComponentModel {
        match self {
            HostComponent::Value(v) => HostComponentModel::Value(*v),
            HostComponent::Struct(m) => HostComponentModel::Struct(m@),
        }
    }
}

/// What writing one resolved value into a component does: a pathless
/// value replaces a whole-value component, a named value assigns an
/// existing field of a struct component, and anything else leaves the
/// component unchanged.
pub open spec fn spec_apply_value(
    c: HostComponentModel,
    v: ReflectBoundValueModel,
) -> HostComponentModel {
    match v.path {
        None => match c {
            HostComponentModel::Value(_) => HostComponentModel::Value(v.value),
            HostComponentModel::Struct(s) => HostComponentModel::Struct(s),
        },
        Some(p) => match c {
            HostComponentModel::Value(w) => HostComponentModel::Value(w),
            HostComponentModel::Struct(s) => {
                if assoc_has(s, p) {
                    HostComponentModel::Struct(assoc_put(s, p, v.value))
                } else {
                    HostComponentModel::Struct(s)
                }
            },
        },
    }
}

/// What writing a whole component pose into a component does: its
/// values are applied in order.
pub open spec fn spec_apply_pose(
    c: HostComponentModel,
    pose: Seq<ReflectBoundValueModel>,
) -> HostComponentModel
    decreases pose.len(),
{
    if pose.len() == 0 {
        c
    } else {
        spec_apply_value(spec_apply_pose(c, pose.drop_last()), pose.last())
    }
}

impl HostComponent {
    /// Writes the resolved values of `pose` into this component, in
    /// order; values that do not line up with the component's shape
    /// are skipped one by one.
    pub fn update(&mut self, pose: &ComponentPose)
        ensures
            final(self)@ == spec_apply_pose(old(self)@, pose@),
    {
        let n = pose.values.len();
        for i in 0..n
            invariant
                n == pose.values@.len(),
                self@ == spec_apply_pose(old(self)@, pose@.take(i as int)),
        {
            proof {
                assert(pose@.take(i + 1).drop_last() =~= pose@.take(i as int));
                assert(pose@.take(i + 1).last() == pose@[i as int]);
            }
            let value = &pose.values[i];
            match &value.path {
                None => {
                    let is_whole = match self {
                        HostComponent::Value(_) => true,
                        HostComponent::Struct(_) => false,
                    };
                    if is_whole {
                        *self = HostComponent::Value(value.value);
                    }
                },
                Some(p) => {
                    match self {
                        HostComponent::Struct(m) => {
                            let ghost mv = m@;
                            match m.index_of(p) {
                                Some(j) => {
                                    proof {
                                        lemma_assoc_index(mv, p@);
                                    }
                                    let slot = m.val_at_mut(j);
                                    *slot = value.value;
                                    proof {
                                        assert(m@ =~= assoc_put(mv, p@, value.value));
                                    }
                                },
                                None => {},
                            }
                        },
                        HostComponent::Value(_) => {},
                    }
                },
            }
        }
        proof {
            assert(pose@.take(n as int) =~= pose@);
        }
    }
}

/// One live host object: its components, keyed by type tag.
#[derive(Debug)]
pub struct HostEntity {
    pub components: StrMap<HostComponent>,
}

impl View for HostEntity {
    type V = Seq<(Seq<char>, HostComponentModel)>;

    open spec fn view(&self) -> Seq<(Seq<char>, HostComponentModel)> {
        self.components@
    }
}

/// What applying an animation pose to one object does: each target
/// type's component pose is written into the object's component of
/// that type, in pose order; a type the object lacks is skipped.
pub open spec fn spec_apply_entity(
    cm: Seq<(Seq<char>, HostComponentModel)>,
    pose: Seq<(Seq<char>, Seq<ReflectBoundValueModel>)>,
) -> Seq<(Seq<char>, HostComponentModel)>
    decreases pose.len(),
{
    if pose.len() == 0 {
        cm
    } else {
        let prev = spec_apply_entity(cm, pose.drop_last());
        let tag = pose.last().0;
        let cpose = pose.last().1;
        match assoc_get(prev, tag) {
            Some(c) => assoc_put(prev, tag, spec_apply_pose(c, cpose)),
            None => prev,
        }
    }
}

impl HostEntity {
    /// An object with no components yet.
    pub fn new() -> (r: Self)
        ensures
            r@ == Seq::<(Seq<char>, HostComponentModel)>::empty(),
    {
        HostEntity { components: StrMap::new() }
    }

    /// Applies every component pose of `pose` to this object.
    pub fn apply_pose(&mut self, pose: &AnimationPose)
        ensures
            final(self)@ == spec_apply_entity(old(self)@, pose@),
    {
        let n = pose.0.len();
        for i in 0..n
            invariant
                n == pose.0@.len(),
                self@ == spec_apply_entity(old(self)@, pose@.take(i as int)),
        {
            proof {
                assert(pose@.take(i + 1).drop_last() =~= pose@.take(i as int));
                assert(pose@.take(i + 1).last() == pose@[i as int]);
            }
            let tag = pose.0.key_at(i);
            let cpose = pose.0.val_at(i);
            let ghost cmv = self.components@;
            match self.components.index_of(tag) {
                Some(j) => {
                    proof {
                        lemma_assoc_index(cmv, tag@);
                    }
                    let comp = self.components.val_at_mut(j);
                    comp.update(cpose);
                    proof {
                        assert(self.components@ =~= assoc_put(
                            cmv,
                            tag@,
                            spec_apply_pose(assoc_get(cmv, tag@)->0, cpose@),
                        ));
                    }
                },
                None => {},
            }
        }
        proof {
            assert(pose@.take(n as int) =~= pose@);
        }
    }
}

/// The live object store the apply phase mutates: one object per
/// entity, looked up and inserted by handle-like keys only.
#[derive(Debug)]
pub struct ObjectStore {
    pub entities: IdMap<HostEntity>,
}

impl View for ObjectStore {
    type V = Seq<(u128, Seq<(Seq<char>, HostComponentModel)>)>;

    open spec fn view(&self) -> Seq<(u128, Seq<(Seq<char>, HostComponentModel)>)> {
        self.entities@
    }
}

/// The component of the given type on the given entity, if both
/// exist.
pub open spec fn spec_get_component(
    store: Seq<(u128, Seq<(Seq<char>, HostComponentModel)>)>,
    entity: u128,
    tag: Seq<char>,
) -> Option<HostComponentModel> {
    match assoc_get(store, entity) {
        Some(cm) => assoc_get(cm, tag),
        None => None,
    }
}

/// The store after giving `entity` the component `comp` under `tag`;
/// the entity is created when missing.
pub open spec fn spec_insert_component(
    store: Seq<(u128, Seq<(Seq<char>, HostComponentModel)>)>,
    entity: u128,
    tag: Seq<char>,
    comp: HostComponentModel,
) -> Seq<(u128, Seq<(Seq<char>, HostComponentModel)>)> {
    let prior = match assoc_get(store, entity) {
        Some(cm) => cm,
        None => Seq::empty(),
    };
    assoc_put(store, entity, assoc_put(prior, tag, comp))
}

impl ObjectStore {
    /// An empty store.
    pub fn new() -> (r: Self)
        ensures
            r@ == Seq::<(u128, Seq<(Seq<char>, HostComponentModel)>)>::empty(),
    {
        ObjectStore { entities: IdMap::new() }
    }

    /// Gives `entity` the component `comp` under `tag`, creating the
    /// entity when it does not exist yet.
    pub fn insert_component(&mut self, entity: u128, tag: &ShortTypePath, comp: HostComponent)
        ensures
            final(self)@ == spec_insert_component(old(self)@, entity, tag@, comp@),
    {
        let ghost oldv = self@;
        match self.entities.index_of(entity) {
            Some(i) => {
                proof {
                    lemma_assoc_index(oldv, entity);
                }
                let he = self.entities.val_at_mut(i);
                he.components.insert(tag.as_string().clone(), comp);
                proof {
                    assert(self@ =~= spec_insert_component(oldv, entity, tag@, comp@));
                }
            },
            None => {
                let mut he = HostEntity::new();
                he.components.insert(tag.as_string().clone(), comp);
                self.entities.insert(entity, he);
                proof {
                    assert(self@ =~= spec_insert_component(oldv, entity, tag@, comp@));
                }
            },
        }
    }

    /// The component of the given type on the given entity, if both
    /// exist.
    pub fn get_component(&self, entity: u128, tag: &ShortTypePath) -> (r: Option<&HostComponent>)
        ensures
            match r {
                Some(c) => spec_get_component(self@, entity, tag@) == Some(c@),
                None => spec_get_component(self@, entity, tag@) is None,
            },
    {
        match self.entities.get(entity) {
            Some(he) => he.components.get(tag.as_string()),
            None => None,
        }
    }

    /// Whether the given entity exists and has a component of the
    /// given type.
    pub fn has_component(&self, entity: u128, tag: &ShortTypePath) -> (r: bool)
        ensures
            r == (spec_get_component(self@, entity, tag@) is Some),
    {
        self.get_component(entity, tag).is_some()
    }
}

/// The store after applying an animation pose to one entity's object;
/// an entity that no longer exists is skipped and the store is left
/// as it was.
pub open spec fn spec_apply_to_store(
    store: Seq<(u128, Seq<(Seq<char>, HostComponentModel)>)>,
    entity: u128,
    pose: Seq<(Seq<char>, Seq<ReflectBoundValueModel>)>,
) -> Seq<(u128, Seq<(Seq<char>, HostComponentModel)>)> {
    match assoc_get(store, entity) {
        Some(cm) => assoc_put(store, entity, spec_apply_entity(cm, pose)),
        None => store,
    }
}

/// One entity's pending animation, about to be written into the live
/// store.
pub struct EntityAnimationContext {
    pub entity: u128,
    pub animation: NextAnimation,
}

impl EntityAnimationContext {
    /// Applies the pending poses to the entity's live object,
    /// consuming the context.
    pub fn apply(self, store: &mut ObjectStore)
        ensures
            final(store)@ == spec_apply_to_store(
                old(store)@,
                self.entity,
                self.animation.pose@,
            ),
    {
        let ghost oldv = store@;
        match store.entities.index_of(self.entity) {
            Some(i) => {
                proof {
                    lemma_assoc_index(oldv, self.entity);
                }
                let he = store.entities.val_at_mut(i);
                he.apply_pose(&self.animation.pose);
                proof {
                    assert(store@ =~= spec_apply_to_store(
                        oldv,
                        self.entity,
                        self.animation.pose@,
                    ));
                }
            },
            None => {},
        }
    }
}

} // verus!
