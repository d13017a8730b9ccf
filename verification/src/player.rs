//! The playback state machine and the per-tick two-phase pipeline.
//!
//! Each animated target owns a player: a clip name, an accumulated
//! time and a state.  Once per tick the sample phase advances every
//! playing player and samples its clip into a pose, reading only
//! assets, registry and players; the apply phase then writes the
//! poses into the live object store.  The phases never interleave,
//! so sampling never observes a partially applied tick.

use crate::assoc::assoc_get;
use crate::assoc::assoc_put;
use crate::assoc::lemma_assoc_index;
use crate::assoc::IdMap;
use crate::entity::animations_store_wf;
use crate::entity::spec_next_animation;
use crate::entity::AnimationPose;
use crate::entity::EntityAnimations;
use crate::entity::NextAnimation;
use crate::names::AnimationName;
use crate::registry::AnimationRegistry;
use crate::registry::AssetProvider;
use crate::registry::CapabilityTable;
use crate::store::spec_apply_to_store;
use crate::store::HostComponentModel;
use crate::store::ObjectStore;
use crate::track::ComponentTrackModel;
use crate::value::AssetPathModel;
use crate::value::ReflectBoundValueModel;
use vstd::prelude::*;

verus! {

/// Marks an entity as animated, naming the entity that owns its
/// player.
#[derive(Debug, Clone, Copy)]
pub struct NextAnimationTarget {
    pub player: u128,
}

/// Playback status of one animated target.
#[derive(Debug, Clone, Copy, PartialEq, Eq, Structural)]
pub enum AnimationState {
    Reset,
    Playing,
    Stop,
}

impl Default for AnimationState {
    fn default() -> (r: Self)
        ensures
            r == AnimationState::Reset,
    {
        AnimationState::Reset
    }
}

/// The player of one animated target: the clip it plays, the time it
/// has accumulated, and its state.  Time only advances while playing
/// and is reset to zero by every `play` call.
#[derive(Debug)]
pub struct NextAnimationPlayer {
    pub current_animation: AnimationName,
    pub time: u64,
    pub state: AnimationState,
}

/// Mathematical model of a [`NextAnimationPlayer`].
pub ghost struct PlayerModel {
    pub current_animation: Seq<char>,
    pub time: u64,
    pub state: AnimationState,
}

impl View for NextAnimationPlayer {
    type V = PlayerModel;

    open spec fn view(&self) -> PlayerModel {
        PlayerModel {
            current_animation: self.current_animation@,
            time: self.time,
            state: self.state,
        }
    }
}

impl Default for NextAnimationPlayer {
    fn default() -> (r: Self)
        ensures
            r@.current_animation == Seq::<char>::empty(),
            r@.time == 0,
            r@.state == AnimationState::Reset,
    {
        proof {
            reveal_strlit("");
            assert(""@ =~= Seq::<char>::empty());
        }
        NextAnimationPlayer {
            current_animation: AnimationName::new(""),
            time: 0,
            state: AnimationState::Reset,
        }
    }
}

/// What `play` does: the player switches to the named clip, starts
/// playing, and its accumulated time restarts at zero — whatever the
/// prior state, even when the same clip was already playing.
pub open spec fn spec_play(p: PlayerModel, name: Seq<char>) -> PlayerModel {
    PlayerModel { current_animation: name, time: 0, state: AnimationState::Playing }
}

/// What `stop` does: playback halts, while the accumulated time and
/// the clip name stay as they are.
pub open spec fn spec_stop(p: PlayerModel) -> PlayerModel {
    PlayerModel { state: AnimationState::Stop, ..p }
}

/// Saturating addition on ticks.
pub open spec fn spec_sat_add(a: u64, b: u64) -> u64 {
    if a + b > u64::MAX {
        u64::MAX
    } else {
        (a + b) as u64
    }
}

/// What one clock update does: the accumulated time grows by the
/// elapsed ticks, saturating at the top of the tick range.
pub open spec fn spec_tick(p: PlayerModel, dt: u64) -> PlayerModel {
    PlayerModel { time: spec_sat_add(p.time, dt), ..p }
}

/// What one pipeline step does to a player: a playing player's clock
/// advances; any other player is left exactly as it is.
pub open spec fn spec_player_step(p: PlayerModel, dt: u64) -> PlayerModel {
    if p.state is Playing {
        spec_tick(p, dt)
    } else {
        p
    }
}

impl NextAnimationPlayer {
    /// Switches to the named clip and starts playing from time zero,
    /// regardless of the prior state.
    pub fn play(&mut self, animation_name: &str)
        ensures
            final(self)@ == spec_play(old(self)@, animation_name@),
    {
        self.current_animation = AnimationName::new(animation_name);
        self.state = AnimationState::Playing;
        self.time = 0;
    }

    /// Halts playback, freezing the accumulated time until the next
    /// `play` call.
    pub fn stop(&mut self)
        ensures
            final(self)@ == spec_stop(old(self)@),
    {
        self.state = AnimationState::Stop;
    }

    pub fn is_playing(&self) -> (r: bool)
        ensures
            r == (self@.state is Playing),
    {
        matches!(self.state, AnimationState::Playing)
    }

    /// Advances the accumulated time by `dt` ticks, saturating; the
    /// pipeline calls this only on playing players.
    pub fn update(&mut self, dt: u64)
        ensures
            final(self)@ == spec_tick(old(self)@, dt),
    {
        if dt <= u64::MAX - self.time {
            self.time = self.time + dt;
        } else {
            self.time = u64::MAX;
        }
    }

    pub fn get_time(&self) -> (r: u64)
        ensures
            r == self@.time,
    {
        self.time
    }
}

/// Playing one clip and then another leaves the player on the second
/// clip, playing, with its accumulated time reset to zero — whatever
/// it did before.
pub proof fn lemma_play_switches(p: PlayerModel, first: Seq<char>, second: Seq<char>)
    ensures
        spec_play(spec_play(p, first), second).current_animation == second,
        spec_play(spec_play(p, first), second).time == 0,
        spec_play(spec_play(p, first), second).state is Playing,
{
}

/// After `stop`, pipeline steps no longer advance the accumulated
/// time: the stopped player passes through every step unchanged,
/// until a `play` call starts it again.
pub proof fn lemma_stop_freezes(p: PlayerModel, dt: u64)
    ensures
        spec_player_step(spec_stop(p), dt) == spec_stop(p),
        spec_player_step(spec_stop(p), dt).time == p.time,
{
}

/// What processing one animated target does in the sample phase: a
/// missing or non-playing player changes nothing; a playing player's
/// clock advances, and when its clip resolves, the sampled pose is
/// recorded for the target's entity.
pub open spec fn spec_advance_target(
    players: Seq<(u128, PlayerModel)>,
    poses: Seq<(u128, Seq<(Seq<char>, Seq<ReflectBoundValueModel>)>)>,
    entity: u128,
    player_id: u128,
    handle: u128,
    assets: Seq<(u128, Seq<(Seq<char>, Seq<(Seq<char>, ComponentTrackModel)>)>)>,
    reg: Seq<(Seq<char>, CapabilityTable)>,
    provider: Seq<(AssetPathModel, u128)>,
    dt: u64,
) -> (Seq<(u128, PlayerModel)>, Seq<(u128, Seq<(Seq<char>, Seq<ReflectBoundValueModel>)>)>) {
    match assoc_get(players, player_id) {
        None => (players, poses),
        Some(p) => {
            if p.state is Playing {
                let p2 = spec_tick(p, dt);
                let players2 = assoc_put(players, player_id, p2);
                match spec_next_animation(
                    assets,
                    handle,
                    p2.current_animation,
                    p2.time,
                    reg,
                    provider,
                ) {
                    Some(pose) => (players2, assoc_put(poses, entity, pose)),
                    None => (players2, poses),
                }
            } else {
                (players, poses)
            }
        },
    }
}

/// What the whole sample phase does: the targets are processed in
/// order, starting from the given players and no poses.
pub open spec fn spec_advance_animations(
    players: Seq<(u128, PlayerModel)>,
    targets: Seq<(u128, NextAnimationTarget, u128)>,
    assets: Seq<(u128, Seq<(Seq<char>, Seq<(Seq<char>, ComponentTrackModel)>)>)>,
    reg: Seq<(Seq<char>, CapabilityTable)>,
    provider: Seq<(AssetPathModel, u128)>,
    dt: u64,
) -> (Seq<(u128, PlayerModel)>, Seq<(u128, Seq<(Seq<char>, Seq<ReflectBoundValueModel>)>)>)
    decreases targets.len(),
{
    if targets.len() == 0 {
        (players, Seq::empty())
    } else {
        let (ps, qs) = spec_advance_animations(
            players,
            targets.drop_last(),
            assets,
            reg,
            provider,
            dt,
        );
        spec_advance_target(
            ps,
            qs,
            targets.last().0,
            targets.last().1.player,
            targets.last().2,
            assets,
            reg,
            provider,
            dt,
        )
    }
}

/// The sample phase: advances every playing player once per target
/// that names it, resolves each target's current clip, and samples it
/// into a pose for the target's entity.  It reads only the assets,
/// the registry, the provider and the players; a target whose player
/// is missing, whose asset set is not loaded, or whose clip name is
/// absent simply contributes no pose.
pub fn advance_animations(
    players: &mut IdMap<NextAnimationPlayer>,
    targets: &Vec<(u128, NextAnimationTarget, u128)>,
    animations: &IdMap<EntityAnimations>,
    registry: &AnimationRegistry,
    asset_server: &AssetProvider,
    dt: u64,
) -> (poses: IdMap<AnimationPose>)
    requires
        animations_store_wf(animations@),
    ensures
        (final(players)@, poses@) == spec_advance_animations(
            old(players)@,
            targets@,
            animations@,
            registry@,
            asset_server@,
            dt,
        ),
{
    let mut poses: IdMap<AnimationPose> = IdMap::new();
    let n = targets.len();
    for i in 0..n
        invariant
            n == targets@.len(),
            animations_store_wf(animations@),
            (players@, poses@) == spec_advance_animations(
                old(players)@,
                targets@.take(i as int),
                animations@,
                registry@,
                asset_server@,
                dt,
            ),
    {
        proof {
            assert(targets@.take(i + 1).drop_last() =~= targets@.take(i as int));
            assert(targets@.take(i + 1).last() == targets@[i as int]);
        }
        let (entity, target, handle) = targets[i];
        let ghost pv = players@;
        match players.index_of(target.player) {
            None => {},
            Some(pi) => {
                proof {
                    lemma_assoc_index(pv, target.player);
                }
                if players.val_at(pi).is_playing() {
                    let player = players.val_at_mut(pi);
                    player.update(dt);
                    proof {
                        assert(players@ =~= assoc_put(
                            pv,
                            target.player,
                            spec_tick(assoc_get(pv, target.player)->0, dt),
                        ));
                    }
                    let player = players.val_at(pi);
                    let time = player.get_time();
                    match NextAnimation::new(
                        registry,
                        asset_server,
                        animations,
                        handle,
                        &player.current_animation,
                        time,
                    ) {
                        Some(next) => {
                            poses.insert(entity, next.pose);
                        },
                        None => {},
                    }
                }
            },
        }
    }
    proof {
        assert(targets@.take(n as int) =~= targets@);
    }
    poses
}

/// What the whole apply phase does: each entity's recorded pose is
/// written into its live object, in pose order; entities that no
/// longer exist are skipped.
pub open spec fn spec_update_animations(
    store: Seq<(u128, Seq<(Seq<char>, HostComponentModel)>)>,
    poses: Seq<(u128, Seq<(Seq<char>, Seq<ReflectBoundValueModel>)>)>,
) -> Seq<(u128, Seq<(Seq<char>, HostComponentModel)>)>
    decreases poses.len(),
{
    if poses.len() == 0 {
        store
    } else {
        spec_apply_to_store(
            spec_update_animations(store, poses.drop_last()),
            poses.last().0,
            poses.last().1,
        )
    }
}

/// The apply phase: writes every sampled pose into the live object
/// store.  It runs strictly after the sample phase and consults
/// neither assets nor registry; a target with no pose this tick is
/// left exactly as it was.
pub fn update_animations(store: &mut ObjectStore, poses: &IdMap<AnimationPose>)
    ensures
        final(store)@ == spec_update_animations(old(store)@, poses@),
{
    let n = poses.len();
    for i in 0..n
        invariant
            n == poses@.len(),
            store@ == spec_update_animations(old(store)@, poses@.take(i as int)),
    {
        proof {
            assert(poses@.take(i + 1).drop_last() =~= poses@.take(i as int));
            assert(poses@.take(i + 1).last() == poses@[i as int]);
        }
        let entity = poses.key_at(i);
        let pose = poses.val_at(i);
        let ghost sv = store@;
        match store.entities.index_of(entity) {
            Some(si) => {
                proof {
                    lemma_assoc_index(sv, entity);
                }
                let he = store.entities.val_at_mut(si);
                he.apply_pose(pose);
                proof {
                    assert(store@ =~= spec_apply_to_store(sv, entity, poses@[i as int].1));
                }
            },
            None => {},
        }
    }
    proof {
        assert(poses@.take(n as int) =~= poses@);
    }
}

} // verus!
