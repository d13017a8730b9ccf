use next_animation::assoc::IdMap;
use next_animation::builder::AnimationsBuilder;
use next_animation::entity::EntityAnimation;
use next_animation::entity::EntityAnimations;
use next_animation::names::AnimationName;
use next_animation::names::ShortTypePath;
use next_animation::player::advance_animations;
use next_animation::player::update_animations;
use next_animation::player::AnimationState;
use next_animation::player::NextAnimationPlayer;
use next_animation::player::NextAnimationTarget;
use next_animation::registry::AnimationRegistry;
use next_animation::registry::AssetProvider;
use next_animation::store::HostComponent;
use next_animation::store::ObjectStore;
use next_animation::track::ComponentTrack;
use next_animation::track::Keyframe;
use next_animation::track::Track;
use next_animation::value::AssetPath;
use next_animation::value::BoundValue;
use next_animation::value::NativeValue;
use next_animation::value::ResolveError;
use next_animation::value::TrackValue;
use next_animation::value::ValueBinding;
use next_animation::value::ValueType;

fn bool_tag() -> ShortTypePath {
    ShortTypePath::from_type_path("bool")
}

fn bool_binding(path: Option<&str>) -> ValueBinding {
    ValueBinding {
        path: path.map(|p| p.to_string()),
        component_type: bool_tag(),
    }
}

/// A half-second track with two frame slots, at one tick per
/// millisecond.
fn half_second_track(path: &str) -> Track {
    let mut track = Track::new(bool_binding(Some(path)), 500, 2);
    track.add_keyframe(Keyframe::new(1, TrackValue::Number(0)));
    track.add_keyframe(Keyframe::new(0, TrackValue::Number(1)));
    track
}

#[test]
fn test_track() {
    let track = half_second_track("a");

    let bound_value = track.fetch(0);
    assert_eq!(true, bound_value.is_some());
    let bound_value = bound_value.unwrap();
    assert!(matches!(bound_value.value, TrackValue::Number(n) if n == 1));

    let bound_value = track.fetch(500).unwrap();
    assert!(matches!(bound_value.value, TrackValue::Number(n) if n == 0));

    let bound_value = track.fetch(1000).unwrap();
    assert!(matches!(bound_value.value, TrackValue::Number(n) if n == 1));
}

#[test]
fn track_test_track() {
    let track = half_second_track(".a");

    let bound_value = track.fetch(0);
    assert_eq!(true, bound_value.is_some());
    let bound_value = bound_value.unwrap();
    assert!(matches!(bound_value.value, TrackValue::Number(n) if n == 1));

    let bound_value = track.fetch(500).unwrap();
    assert!(matches!(bound_value.value, TrackValue::Number(n) if n == 0));

    let bound_value = track.fetch(1000).unwrap();
    assert!(matches!(bound_value.value, TrackValue::Number(n) if n == 1));
}

#[test]
fn test_bound_value() {
    let mut registry = AnimationRegistry::new();
    registry.register_animate_value(&bool_tag(), ValueType::Bool);
    let assets = AssetProvider::new();

    let bound_value = BoundValue {
        binding: bool_binding(Some("a")),
        value: TrackValue::Number(1),
    };
    let value = bound_value.get_reflect_value(&registry, &assets).unwrap();

    let mut fields = next_animation::assoc::StrMap::new();
    fields.insert("a".to_string(), NativeValue::Bool(false));
    let mut component = HostComponent::Struct(fields);
    let pose = next_animation::value::ComponentPose {
        values: vec![next_animation::value::ReflectBoundValue {
            path: Some("a".to_string()),
            value,
        }],
    };
    component.update(&pose);
    match &component {
        HostComponent::Struct(m) => {
            let got = m.get(&"a".to_string()).unwrap();
            assert_eq!(*got, NativeValue::Bool(true));
        }
        HostComponent::Value(_) => panic!("component should stay a struct"),
    }
}

#[test]
fn looping_samples_repeat_each_period() {
    let track = half_second_track("a");
    for t in [0u64, 123, 250, 499, 500, 777, 999] {
        let first = track.fetch(t);
        let second = track.fetch(t + 1000);
        match (first, second) {
            (Some(a), Some(b)) => match (a.value, b.value) {
                (TrackValue::Number(x), TrackValue::Number(y)) => assert_eq!(x, y),
                _ => panic!("scalar tracks sample scalars"),
            },
            (None, None) => {}
            _ => panic!("one whole period later the sample must repeat"),
        }
    }
}

#[test]
fn disabled_track_yields_nothing() {
    let mut track = half_second_track("a");
    track.enabled = false;
    for t in [0u64, 250, 500, 750, 1000, 12345] {
        assert!(track.fetch(t).is_none());
    }
}

#[test]
fn empty_slot_yields_nothing_not_a_default() {
    let mut track = Track::new(bool_binding(Some("a")), 500, 2);
    track.add_keyframe(Keyframe::new(0, TrackValue::Number(1)));
    assert!(track.fetch(0).is_some());
    assert!(track.fetch(500).is_none());
}

#[test]
fn out_of_range_keyframe_is_ignored() {
    let mut track = Track::new(bool_binding(Some("a")), 500, 2);
    track.add_keyframe(Keyframe::new(2, TrackValue::Number(7)));
    assert!(track.fetch(0).is_none());
    assert!(track.fetch(500).is_none());
    assert_eq!(track.frames.keyframes.len(), 0);
}

#[test]
fn adding_a_keyframe_overwrites_the_slot() {
    let mut track = Track::new(bool_binding(Some("a")), 500, 2);
    track.add_keyframe(Keyframe::new(0, TrackValue::Number(3)));
    track.add_keyframe(Keyframe::new(0, TrackValue::Number(4)));
    let got = track.fetch(0).unwrap();
    assert!(matches!(got.value, TrackValue::Number(n) if n == 4));
}

#[test]
fn resolver_errors_name_their_cause() {
    let mut registry = AnimationRegistry::new();
    registry.register_animate_value(&bool_tag(), ValueType::Bool);
    registry.register_animate_component(&ShortTypePath::from_type_path("Sprite"));
    let image_tag = ShortTypePath::from_type_path("Handle<Image>");
    registry.register_animate_value(&image_tag, ValueType::Asset);
    let mut assets = AssetProvider::new();
    assets.register_asset(
        AssetPath {
            path: "sheet.png".to_string(),
            type_path: image_tag.clone(),
        },
        42,
    );

    // An unknown tag is a lookup failure.
    let unknown = BoundValue {
        binding: ValueBinding {
            path: None,
            component_type: ShortTypePath::from_type_path("Missing"),
        },
        value: TrackValue::Number(1),
    };
    assert_eq!(
        unknown.get_reflect_value(&registry, &assets),
        Err(ResolveError::NotRegistered)
    );

    // A tag registered only for applying has no value resolver.
    let not_value = BoundValue {
        binding: ValueBinding {
            path: None,
            component_type: ShortTypePath::from_type_path("Sprite"),
        },
        value: TrackValue::Number(1),
    };
    assert_eq!(
        not_value.get_reflect_value(&registry, &assets),
        Err(ResolveError::NotAnimatable)
    );

    // An asset reference fed to the boolean resolver is the wrong kind.
    let wrong_kind = BoundValue {
        binding: bool_binding(None),
        value: TrackValue::Asset(AssetPath {
            path: "sheet.png".to_string(),
            type_path: image_tag.clone(),
        }),
    };
    assert_eq!(
        wrong_kind.get_reflect_value(&registry, &assets),
        Err(ResolveError::WrongKind)
    );

    // A reference whose embedded tag differs from the binding's.
    let mismatch = BoundValue {
        binding: ValueBinding {
            path: None,
            component_type: image_tag.clone(),
        },
        value: TrackValue::Asset(AssetPath {
            path: "sheet.png".to_string(),
            type_path: ShortTypePath::from_type_path("Handle<Scene>"),
        }),
    };
    assert_eq!(
        mismatch.get_reflect_value(&registry, &assets),
        Err(ResolveError::AssetTypeMismatch)
    );

    // A reference whose target the provider has not loaded.
    let not_loaded = BoundValue {
        binding: ValueBinding {
            path: None,
            component_type: image_tag.clone(),
        },
        value: TrackValue::Asset(AssetPath {
            path: "other.png".to_string(),
            type_path: image_tag.clone(),
        }),
    };
    assert_eq!(
        not_loaded.get_reflect_value(&registry, &assets),
        Err(ResolveError::AssetNotLoaded)
    );

    // And the successful resolutions for comparison.
    let loaded = BoundValue {
        binding: ValueBinding {
            path: None,
            component_type: image_tag.clone(),
        },
        value: TrackValue::Asset(AssetPath {
            path: "sheet.png".to_string(),
            type_path: image_tag,
        }),
    };
    assert_eq!(
        loaded.get_reflect_value(&registry, &assets),
        Ok(NativeValue::Asset(42))
    );
    let truthy = BoundValue {
        binding: bool_binding(None),
        value: TrackValue::Number(-3),
    };
    assert_eq!(
        truthy.get_reflect_value(&registry, &assets),
        Ok(NativeValue::Bool(true))
    );
}

#[test]
fn unsigned_resolver_saturates() {
    let mut registry = AnimationRegistry::new();
    let index_tag = ShortTypePath::from_type_path("usize");
    registry.register_animate_value(&index_tag, ValueType::Usize);
    let assets = AssetProvider::new();
    let negative = BoundValue {
        binding: ValueBinding {
            path: Some("index".to_string()),
            component_type: index_tag.clone(),
        },
        value: TrackValue::Number(-7),
    };
    assert_eq!(
        negative.get_reflect_value(&registry, &assets),
        Ok(NativeValue::Usize(0))
    );
    let plain = BoundValue {
        binding: ValueBinding {
            path: Some("index".to_string()),
            component_type: index_tag,
        },
        value: TrackValue::Number(9),
    };
    assert_eq!(
        plain.get_reflect_value(&registry, &assets),
        Ok(NativeValue::Usize(9))
    );
}

#[test]
fn unregistered_target_type_is_absent_from_the_pose() {
    let mut registry = AnimationRegistry::new();
    registry.register_animate_value(&bool_tag(), ValueType::Bool);
    registry.register_animate_component(&bool_tag());
    let assets = AssetProvider::new();

    let mut clip = EntityAnimation::new();
    let mut registered = Track::new(bool_binding(None), 100, 2);
    registered.add_keyframe(Keyframe::new(0, TrackValue::Number(1)));
    clip.tracks.insert(
        "bool".to_string(),
        ComponentTrack::for_target_type(&registry, &bool_tag(), registered),
    );
    let mut stranger = Track::new(
        ValueBinding {
            path: Some("x".to_string()),
            component_type: ShortTypePath::from_type_path("Stranger"),
        },
        100,
        2,
    );
    stranger.add_keyframe(Keyframe::new(0, TrackValue::Number(1)));
    clip.tracks.insert(
        "Stranger".to_string(),
        ComponentTrack::for_target_type(
            &registry,
            &ShortTypePath::from_type_path("Stranger"),
            stranger,
        ),
    );

    let pose = clip.get_animation_pose(0, &registry, &assets);
    assert!(pose.0.index_of(&"bool".to_string()).is_some());
    assert!(pose.0.index_of(&"Stranger".to_string()).is_none());
    assert_eq!(pose.0.len(), 1);
}

#[test]
fn play_switches_clips_and_resets_time() {
    let mut player = NextAnimationPlayer::default();
    assert!(matches!(player.state, AnimationState::Reset));
    player.play("idle");
    player.update(300);
    assert_eq!(player.get_time(), 300);
    player.play("walk");
    assert_eq!(player.get_time(), 0);
    assert_eq!(player.current_animation.as_string(), "walk");
    assert!(player.is_playing());
}

#[test]
fn stop_freezes_time_until_play() {
    let mut registry = AnimationRegistry::new();
    registry.register_animate_value(&bool_tag(), ValueType::Bool);
    registry.register_animate_component(&bool_tag());
    let provider = AssetProvider::new();
    let assets: IdMap<EntityAnimations> = IdMap::new();

    let mut players: IdMap<NextAnimationPlayer> = IdMap::new();
    let mut player = NextAnimationPlayer::default();
    player.play("idle");
    player.update(250);
    player.stop();
    players.insert(5, player);
    let targets = vec![(7u128, NextAnimationTarget { player: 5 }, 1u128)];

    // Ticks no longer advance a stopped player.
    let _ = advance_animations(&mut players, &targets, &assets, &registry, &provider, 100);
    let _ = advance_animations(&mut players, &targets, &assets, &registry, &provider, 100);
    let frozen = players.get(5).unwrap();
    assert_eq!(frozen.get_time(), 250);
    assert!(!frozen.is_playing());
}

#[test]
fn clock_updates_saturate() {
    let mut player = NextAnimationPlayer::default();
    player.play("idle");
    player.update(u64::MAX - 10);
    player.update(100);
    assert_eq!(player.get_time(), u64::MAX);
}

#[test]
fn blink_scenario_applies_sampled_values() {
    // Register booleans as whole-value animatable and build the
    // "blink" clip: two keyframes over 100-tick slots.
    let mut registry = AnimationRegistry::new();
    registry.register_animate_value(&bool_tag(), ValueType::Bool);
    registry.register_animate_component(&bool_tag());
    let provider = AssetProvider::new();

    let mut track = Track::new(bool_binding(None), 100, 2);
    track.add_keyframe(Keyframe::new(0, TrackValue::Number(0)));
    track.add_keyframe(Keyframe::new(1, TrackValue::Number(1)));
    let mut clip = EntityAnimation::new();
    clip.tracks.insert(
        "bool".to_string(),
        ComponentTrack::for_target_type(&registry, &bool_tag(), track),
    );
    let mut set = EntityAnimations::new();
    set.0.insert("blink".to_string(), clip);

    let mut assets: IdMap<EntityAnimations> = IdMap::new();
    assets.insert(1, set);

    let mut store = ObjectStore::new();
    store.insert_component(7, &bool_tag(), HostComponent::Value(NativeValue::Bool(false)));

    let mut players: IdMap<NextAnimationPlayer> = IdMap::new();
    let mut player = NextAnimationPlayer::default();
    player.play("blink");
    players.insert(5, player);
    let targets = vec![(7u128, NextAnimationTarget { player: 5 }, 1u128)];

    // After 50 ticks the clip samples slot 0: still false.
    let poses = advance_animations(&mut players, &targets, &assets, &registry, &provider, 50);
    update_animations(&mut store, &poses);
    match store.get_component(7, &bool_tag()).unwrap() {
        HostComponent::Value(v) => assert_eq!(*v, NativeValue::Bool(false)),
        HostComponent::Struct(_) => panic!("whole-value component expected"),
    }

    // Another 100 ticks land in slot 1: the field flips to true.
    let poses = advance_animations(&mut players, &targets, &assets, &registry, &provider, 100);
    update_animations(&mut store, &poses);
    match store.get_component(7, &bool_tag()).unwrap() {
        HostComponent::Value(v) => assert_eq!(*v, NativeValue::Bool(true)),
        HostComponent::Struct(_) => panic!("whole-value component expected"),
    }
}

#[test]
fn missing_clip_leaves_target_unchanged() {
    let mut registry = AnimationRegistry::new();
    registry.register_animate_value(&bool_tag(), ValueType::Bool);
    registry.register_animate_component(&bool_tag());
    let provider = AssetProvider::new();
    let assets: IdMap<EntityAnimations> = IdMap::new();

    let mut store = ObjectStore::new();
    store.insert_component(7, &bool_tag(), HostComponent::Value(NativeValue::Bool(false)));

    let mut players: IdMap<NextAnimationPlayer> = IdMap::new();
    let mut player = NextAnimationPlayer::default();
    player.play("missing");
    players.insert(5, player);
    let targets = vec![(7u128, NextAnimationTarget { player: 5 }, 1u128)];

    let poses = advance_animations(&mut players, &targets, &assets, &registry, &provider, 50);
    assert_eq!(poses.len(), 0);
    update_animations(&mut store, &poses);
    match store.get_component(7, &bool_tag()).unwrap() {
        HostComponent::Value(v) => assert_eq!(*v, NativeValue::Bool(false)),
        HostComponent::Struct(_) => panic!("whole-value component expected"),
    }
    // The clock still advanced, as the player is playing.
    assert_eq!(players.get(5).unwrap().get_time(), 50);
}

#[test]
fn builder_pairs_targets_with_handles() {
    let mut builder = AnimationsBuilder::entity(5);
    builder.add_handle("hero", 11);
    builder.add_handle("coin", 12);
    let bundle = builder.get_animation_bundle("hero").unwrap();
    assert_eq!(bundle.target.player, 5);
    assert_eq!(bundle.handle, 11);
    assert!(builder.get_animation_bundle("ghost").is_none());
}

#[test]
fn animation_names_compare_by_text() {
    let a = AnimationName::new("walk");
    let b = AnimationName::new("walk");
    let c = AnimationName::new("run");
    assert!(a.eq_name(&b));
    assert!(!a.eq_name(&c));
}

#[test]
fn pose_application_skips_missing_fields() {
    let mut fields = next_animation::assoc::StrMap::new();
    fields.insert("a".to_string(), NativeValue::Bool(false));
    let mut component = HostComponent::Struct(fields);
    let pose = next_animation::value::ComponentPose {
        values: vec![
            next_animation::value::ReflectBoundValue {
                path: Some("missing".to_string()),
                value: NativeValue::Bool(true),
            },
            next_animation::value::ReflectBoundValue {
                path: Some("a".to_string()),
                value: NativeValue::Bool(true),
            },
        ],
    };
    component.update(&pose);
    match &component {
        HostComponent::Struct(m) => {
            assert_eq!(m.len(), 1);
            assert_eq!(*m.get(&"a".to_string()).unwrap(), NativeValue::Bool(true));
        }
        HostComponent::Value(_) => panic!("component should stay a struct"),
    }
}
