//! Real-time rendering of video frames as colored text in a terminal: the
//! palette quantiser, the color-run encoder, the transport bus and the
//! playback scheduler's pacing and seek rules.

pub mod ascii;
pub mod terminal;
pub mod event_loop;
pub mod media;
pub mod audio;
