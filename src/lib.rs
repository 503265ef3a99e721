//! Timed-text caption engine: a cue-point registry driven by a playback
//! clock, a timecode reader, and a style cascade resolver.
pub mod text;
pub mod timecode;
pub mod color;
pub mod cuepoints;
pub mod style;
pub mod cascade;
pub mod document;
pub mod subtitles;
