//! Procedural composition of short pieces (pitch and chord model, rhythm
//! patterns, melodic and harmonic generators) and the note-scheduling model
//! that turns tone events into instrument timelines and a mix.

pub mod error;
pub mod generation;
pub mod instrument;
pub mod instrumentation;
pub mod melody;
pub mod music;
pub mod rhythm;
pub mod rng;
pub mod scale;
pub mod score;
pub mod structure;
pub mod synth;
pub mod tone;
