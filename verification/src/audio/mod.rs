//! The console's sound: what a bank says, and when each note starts.

pub mod bank;
pub mod engine;
pub mod event;
pub mod field_laws;
pub mod fields;
pub mod filter;
pub mod fx;
pub mod grammar;
pub mod grammar_laws;
pub mod laws;
pub mod patch;
pub mod play_laws;
pub mod queue;
pub mod ring;
pub mod sequencer;
pub mod synth;
pub mod timeline;
pub mod voice;
pub mod wav;
