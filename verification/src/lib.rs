//! A data-driven keyframe animation engine.
//!
//! Keyframe tracks sample a value for any point in time by step
//! (nearest-preceding-slot) interpolation; tracks are grouped per target
//! type into component tracks, per clip name into entity animations, and
//! into a loadable animation set.  A capability registry makes host object
//! types animatable without the engine knowing them, and a two-phase
//! sample/apply pipeline drives playback against a live object store.
//!
//! Time is measured in integer ticks and scalar keyframe values are
//! integers, so that sampling is exact; the host application chooses the
//! tick scale (for example one millisecond per tick).

pub mod assoc;
pub mod builder;
pub mod chars;
pub mod codec;
pub mod entity;
pub mod names;
pub mod player;
pub mod registry;
pub mod store;
pub mod track;
pub mod value;
