//! Impulse Tracker (.IT) module parsing and sample decoding, and generation of
//! the WAV and MPC project files that hold the extracted sounds.

pub mod error;
pub mod reader;
pub mod pcm;
pub mod it;
pub mod text;
pub mod wav;
pub mod mpc;
pub mod names;
pub mod project;
pub mod info;
