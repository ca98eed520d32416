//! Decision and data logic of the Flashback game-clip recorder, verified with Verus.
//!
//! - `text`: character-level string operations and their specifications.
//! - `detect`: which game is being played (Discord's detectable list, Steam manifests).
//! - `artwork`: game artwork addresses, cache keys and the fetch of a hero image.
//! - `image`: image formats, Base64 and `data:` URLs, BMP snapshots.
//! - `media`: frame rates, cadence, sizes, bit rates and names of the capture pipeline.
//! - `pump`: the feeding decisions of the replay encoder's pump.
//! - `h264`: IDR and parameter-set detection in H.264 bitstreams.
//! - `replay`: the Instant Replay ring buffer and the timelines of a saved clip.
//! - `session`: the replay thread's arming and focus-tracking decisions.
//! - `recording`: the bookkeeping of a manual recording.
//! - `audio`: audio formats and the clock of the system/microphone mixer.
//! - `devices`: choices among encoders, windows and monitors; UTF-16 names.
//! - `library`: MP4 durations, the clip list order and the app's file names.
pub mod text;
pub mod detect;
pub mod artwork;
pub mod image;
pub mod media;
pub mod pump;
pub mod h264;
pub mod replay;
pub mod session;
pub mod recording;
pub mod audio;
pub mod devices;
pub mod library;
