//! A small builder that pairs animated entities with the handles of
//! their animation-set assets, by entity class.

use crate::assoc::assoc_get;
use crate::assoc::assoc_put;
use crate::assoc::StrMap;
use crate::player::NextAnimationTarget;
use vstd::prelude::*;

verus! {

/// What an animated entity needs to start playing: the target marker
/// naming its player, and the handle of its animation-set asset.
#[derive(Debug, Clone, Copy)]
pub struct AnimationBundle {
    pub target: NextAnimationTarget,
    pub handle: u128,
}

/// Collects, for one player entity, the animation-set handles of the
/// entity classes it can animate.
pub struct AnimationsBuilder {
    target: u128,
    data: StrMap<u128>,
}

impl AnimationsBuilder {
    /// A builder whose bundles will all name `entity` as the player.
    pub fn entity(entity: u128) -> (r: Self)
        ensures
            r.spec_target() == entity,
            r.spec_data() == Seq::<(Seq<char>, u128)>::empty(),
    {
        AnimationsBuilder { target: entity, data: StrMap::new() }
    }

    pub closed spec fn spec_target(&self) -> u128 {
        self.target
    }

    pub closed spec fn spec_data(&self) -> Seq<(Seq<char>, u128)> {
        self.data@
    }

    /// Records the animation-set handle of one entity class.
    pub fn add_handle(&mut self, entity_class: &str, handle: u128)
        ensures
            final(self).spec_target() == old(self).spec_target(),
            final(self).spec_data() == assoc_put(old(self).spec_data(), entity_class@, handle),
    {
        self.data.insert(entity_class.to_owned(), handle);
    }

    /// The bundle for one entity class, if a handle was recorded for
    /// it.
    pub fn get_animation_bundle(&self, entity_class: &str) -> (r: Option<AnimationBundle>)
        ensures
            match r {
                Some(b) => assoc_get(self.spec_data(), entity_class@) == Some(b.handle)
                    && b.target.player == self.spec_target(),
                None => (assoc_get(self.spec_data(), entity_class@) is None),
            },
    {
        match self.data.get(&entity_class.to_owned()) {
            Some(handle) => Some(
                AnimationBundle {
                    target: NextAnimationTarget { player: self.target },
                    handle: *handle,
                },
            ),
            None => None,
        }
    }
}

} // verus!
