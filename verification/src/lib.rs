//! Verified core of an on-device speaker diarization pipeline: frame-level
//! speaker smoothing and segmentation, the streaming speaker-embedding cache,
//! word-to-speaker turn assembly, engine decisions and recordable-app listing.

pub mod apps;
pub mod engine;
pub mod frames;
pub mod loopback;
pub mod order;
pub mod settings;
pub mod streaming;
pub mod text;
pub mod turns;

pub use frames::smooth_frame_sequence;
