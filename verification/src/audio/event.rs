//! What the console asks the synth to do.

use vstd::prelude::*;

verus! {

/// A sound the game asked for.
#[derive(Debug, Clone, Copy, PartialEq, Eq, Structural)]
pub enum AudioEvent {
    /// Trigger sound effect `id` from the bank.
    PlaySfx { id: u16 },
    /// Start music track `id` from the bank, replacing whatever was playing.
    PlayMusic { id: u16 },
    /// Stop the music (sound effects keep ringing).
    StopMusic,
    /// Fire-and-forget note: hold for `frames`, then release.
    Play { inst: u8, note: u8, vel: u8, frames: u16 },
    /// Start a note held on a game-owned channel, released by
    /// [`Self::NoteOff`].
    ///
    /// `chan` is a slot the *game* names, not a voice the engine allocated:
    /// voices get stolen, channels do not, so a game can always turn off the
    /// note it turned on.
    NoteOn { chan: u8, inst: u8, note: u8, vel: u8 },
    /// Release whatever [`Self::NoteOn`] started on this channel.
    NoteOff { chan: u8 },
    /// Everything off, tails included.
    Panic,
}

} // verus!
