//! Loudness normalisation of audio files through an external media processor:
//! the logic that builds the processor's arguments, follows its progress output
//! and reads the measurements it reports.

pub mod text;
pub mod level;
pub mod report;
pub mod ffprobe;
pub mod ffmpeg;
pub mod progress;
pub mod ebu_r128;
pub mod peak;
pub mod dialogue;
