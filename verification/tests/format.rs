use next_animation::codec::DecodeError;
use next_animation::entity::EntityAnimation;
use next_animation::entity::EntityAnimations;
use next_animation::names::ShortTypePath;
use next_animation::registry::AnimationRegistry;
use next_animation::track::ComponentTrack;
use next_animation::track::Keyframe;
use next_animation::track::MultipleSingleComponentTrack;
use next_animation::track::SingleComponentTrack;
use next_animation::track::Track;
use next_animation::value::AssetPath;
use next_animation::value::TrackValue;
use next_animation::value::ValueBinding;
use next_animation::value::ValueType;

fn sample_set() -> EntityAnimations {
    // One clip with a whole-value track, one with per-field tracks;
    // names carry quotes and backslashes to exercise escaping.
    let bool_tag = ShortTypePath::from_type_path("bool");
    let sprite_tag = ShortTypePath::from_type_path("Sprite");
    let image_tag = ShortTypePath::from_type_path("Handle<Image>");

    let mut registry = AnimationRegistry::new();
    registry.register_animate_value(&bool_tag, ValueType::Bool);

    let mut blink = Track::new(
        ValueBinding {
            path: None,
            component_type: bool_tag.clone(),
        },
        100,
        2,
    );
    blink.add_keyframe(Keyframe::new(0, TrackValue::Number(0)));
    blink.add_keyframe(Keyframe::new(1, TrackValue::Number(1)));
    let mut blink_clip = EntityAnimation::new();
    blink_clip.tracks.insert(
        "bool".to_string(),
        ComponentTrack::for_target_type(&registry, &bool_tag, blink),
    );

    let mut index = Track::new(
        ValueBinding {
            path: Some("index".to_string()),
            component_type: ShortTypePath::from_type_path("usize"),
        },
        250,
        4,
    );
    index.add_keyframe(Keyframe::new(0, TrackValue::Number(0)));
    index.add_keyframe(Keyframe::new(3, TrackValue::Number(-3)));
    let mut sheet = Track::new(
        ValueBinding {
            path: Some("weird \"path\"\\name".to_string()),
            component_type: image_tag.clone(),
        },
        250,
        4,
    );
    sheet.add_keyframe(Keyframe::new(
        2,
        TrackValue::Asset(AssetPath {
            path: "sheets/run.png".to_string(),
            type_path: image_tag,
        }),
    ));
    let mut run_tracks = next_animation::assoc::StrMap::new();
    run_tracks.insert("index".to_string(), index);
    run_tracks.insert("weird \"path\"\\name".to_string(), sheet);
    let mut run_clip = EntityAnimation::new();
    run_clip.tracks.insert(
        sprite_tag.as_string().clone(),
        ComponentTrack::Multiple(MultipleSingleComponentTrack(run_tracks)),
    );

    let mut set = EntityAnimations::new();
    set.0.insert("blink".to_string(), blink_clip);
    set.0.insert("run \"fast\"".to_string(), run_clip);
    set
}

#[test]
fn round_trip_keeps_the_whole_set() {
    let set = sample_set();
    let text = set.encode();
    let decoded = EntityAnimations::decode(text.as_str()).unwrap();

    // Encoding the decoded set again gives the identical document,
    // so every name, tag, track shape and keyframe survived.
    let text_again = decoded.encode();
    assert_eq!(text, text_again);

    // Spot checks on the decoded structure.
    assert_eq!(decoded.0.len(), 2);
    let blink = decoded
        .get(&next_animation::names::AnimationName::new("blink"))
        .unwrap();
    assert_eq!(blink.tracks.len(), 1);
    match blink.tracks.get(&"bool".to_string()).unwrap() {
        ComponentTrack::Single(SingleComponentTrack(t)) => {
            assert!(t.enabled);
            assert_eq!(t.frames.frame_duration, 100);
            assert_eq!(t.frames.slots.len(), 2);
            let sampled = t.fetch(150).unwrap();
            assert!(matches!(sampled.value, TrackValue::Number(n) if n == 1));
        }
        ComponentTrack::Multiple(_) => panic!("blink is a whole-value clip"),
    }
    let run = decoded
        .get(&next_animation::names::AnimationName::new("run \"fast\""))
        .unwrap();
    match run.tracks.get(&"Sprite".to_string()).unwrap() {
        ComponentTrack::Multiple(MultipleSingleComponentTrack(m)) => {
            assert_eq!(m.len(), 2);
            let sheet = m.get(&"weird \"path\"\\name".to_string()).unwrap();
            let sampled = sheet.fetch(600).unwrap();
            match sampled.value {
                TrackValue::Asset(a) => {
                    assert_eq!(a.path, "sheets/run.png");
                    assert_eq!(a.type_path.as_string(), "Handle<Image>");
                }
                TrackValue::Number(_) => panic!("the sheet track holds an asset"),
            }
        }
        ComponentTrack::Single(_) => panic!("run is a per-field clip"),
    }
}

#[test]
fn empty_set_round_trips() {
    let set = EntityAnimations::new();
    let text = set.encode();
    assert_eq!(text, "{}");
    let decoded = EntityAnimations::decode(text.as_str()).unwrap();
    assert_eq!(decoded.0.len(), 0);
}

#[test]
fn malformed_documents_are_rejected() {
    for bad in [
        "",
        "nonsense",
        "{",
        "{}{}",
        "{\"a\":}",
        "{\"a\":{\"bool\":{\"Single\":null}}}",
        // A frame duration of zero would break sampling.
        "{\"a\":{\"bool\":{\"Single\":{\"enabled\":true,\"frames\":{\"keyframes\":{},\"mode\":\"Constant\",\"frame_duration\":0,\"slots\":[null]},\"binding\":{\"path\":null,\"component_type\":\"bool\"}}}}}",
        // A slot naming a missing keyframe would break sampling.
        "{\"a\":{\"bool\":{\"Single\":{\"enabled\":true,\"frames\":{\"keyframes\":{},\"mode\":\"Constant\",\"frame_duration\":100,\"slots\":[\"7\"]},\"binding\":{\"path\":null,\"component_type\":\"bool\"}}}}}",
        // Duplicate clip names collide.
        "{\"a\":{},\"a\":{}}",
    ] {
        assert!(matches!(EntityAnimations::decode(bad), Err(DecodeError)));
    }
}

#[test]
fn canonical_document_decodes() {
    let text = "{\"a\":{\"bool\":{\"Single\":{\"enabled\":false,\"frames\":{\"keyframes\":{},\"mode\":\"Constant\",\"frame_duration\":100,\"slots\":[null,null]},\"binding\":{\"path\":null,\"component_type\":\"bool\"}}}}}";
    let decoded = EntityAnimations::decode(text).unwrap();
    let clip = decoded
        .get(&next_animation::names::AnimationName::new("a"))
        .unwrap();
    match clip.tracks.get(&"bool".to_string()).unwrap() {
        ComponentTrack::Single(SingleComponentTrack(t)) => {
            assert!(!t.enabled);
            // A disabled track never yields a value.
            assert!(t.fetch(0).is_none());
        }
        ComponentTrack::Multiple(_) => panic!("expected a whole-value track"),
    }
    assert_eq!(decoded.encode(), text);
}
