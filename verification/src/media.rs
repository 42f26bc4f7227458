//! Media playback.

pub mod gstreamer_player;
pub mod media_types;
pub mod player;
