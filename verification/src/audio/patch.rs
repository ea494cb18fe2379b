//! Instrument definitions, as a game authors them: every field a byte or a
//! time in milliseconds.

use super::filter::FilterMode;
use vstd::prelude::*;

verus! {

/// The oscillator a voice runs.
#[derive(Debug, Clone, Copy, PartialEq, Eq, Structural)]
pub enum Waveform {
    Sine,
    Triangle,
    Saw,
    Square,
    /// Pitched noise: a fresh random sample each time the phase wraps.
    Noise,
}

impl Default for Waveform {
    fn default() -> (r: Self)
        ensures
            r == Waveform::Triangle,
    {
        Waveform::Triangle
    }
}

/// An instrument, as authored.
///
/// Times are milliseconds, levels are `0..=255`, and `pitch_env` is in
/// semitones.
#[derive(Debug, Clone, Copy, PartialEq, Eq, Structural)]
pub struct Patch {
    pub wave: Waveform,
    /// Time to reach full level, linearly.
    pub attack_ms: u16,
    /// Time to fall from full level to `sustain`.
    pub decay_ms: u16,
    /// Level held while the note is on.
    pub sustain: u8,
    /// Time to fall from `sustain` to silence after the note is released.
    pub release_ms: u16,
    /// Semitones the pitch starts above (or below) the note.
    pub pitch_env: i8,
    /// How long the pitch envelope takes to collapse to the played note.
    pub pitch_decay_ms: u16,
    pub filter: FilterMode,
    /// The filter's corner.
    pub cutoff: u8,
    /// The filter's peak at the corner.
    pub resonance: u8,
    pub distortion: u8,
    /// Place in the stereo image: negative is left.
    pub pan: i8,
    /// How much of the voice goes to the shared chorus.
    pub chorus: u8,
    /// How much of the voice goes to the shared reverb.
    pub reverb: u8,
    /// Instrument level.
    pub volume: u8,
}

/// What an `instrument` block that says nothing gets.
pub open spec fn default_patch() -> Patch {
    Patch {
        wave: Waveform::Triangle,
        attack_ms: 2,
        decay_ms: 60,
        sustain: 180,
        release_ms: 80,
        pitch_env: 0,
        pitch_decay_ms: 40,
        filter: FilterMode::Off,
        cutoff: 255,
        resonance: 0,
        distortion: 0,
        pan: 0,
        chorus: 0,
        reverb: 0,
        volume: 200,
    }
}

impl Default for Patch {
    /// A plain, audible instrument.
    fn default() -> (r: Self)
        ensures
            r == default_patch(),
    {
        Patch {
            wave: Waveform::Triangle,
            attack_ms: 2,
            decay_ms: 60,
            sustain: 180,
            release_ms: 80,
            pitch_env: 0,
            pitch_decay_ms: 40,
            filter: FilterMode::Off,
            cutoff: 255,
            resonance: 0,
            distortion: 0,
            pan: 0,
            chorus: 0,
            reverb: 0,
            volume: 200,
        }
    }
}

} // verus!
