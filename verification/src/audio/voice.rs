//! One voice's bookkeeping: where it is in its envelope, what it is held for,
//! and which of two voices gives way.

use vstd::prelude::*;

verus! {

/// Which sound gets to keep a voice when they compete.
///
/// Music loses to sound effects: a bassline eating an explosion is much more
/// noticeable than the reverse.
#[derive(Debug, Clone, Copy, PartialEq, Eq, Structural)]
pub enum Priority {
    Music,
    Sfx,
}

impl Default for Priority {
    fn default() -> (r: Self)
        ensures
            r == Priority::Sfx,
    {
        Priority::Sfx
    }
}

/// Where a voice is in its amplitude envelope.
#[derive(Debug, Clone, Copy, PartialEq, Eq, Structural)]
pub enum Stage {
    Idle,
    Attack,
    Decay,
    Sustain,
    Release,
}

/// A deterministic generator for the noise oscillator. Never the system's
/// randomness: the same events have to give the same samples.
#[derive(Debug, Clone, Copy, PartialEq, Eq, Structural)]
pub struct Rng(u32);

/// One step of the generator's shift register.
pub open spec fn xorshift(x: u32) -> u32 {
    let a = x ^ (x << 13);
    let b = a ^ (a >> 17);
    b ^ (b << 5)
}

impl Rng {
    /// The register's content.
    pub closed spec fn state(&self) -> u32 {
        self.0
    }

    pub fn new(seed: u32) -> (r: Self)
        ensures
            r.state() == (if seed == 0 {
                0x9E37_79B9
            } else {
                seed
            }),
    {
        // Zero is a fixed point of xorshift; any nonzero substitute will do.
        Rng(if seed == 0 { 0x9E37_79B9 } else { seed })
    }

    /// The next 24 random bits.
    pub fn next_bits(&mut self) -> (r: u32)
        ensures
            final(self).state() == xorshift(old(self).state()),
            r == final(self).state() >> 8,
            r < 0x100_0000,
    {
        let mut x: u32 = self.0;
        x = x ^ (x << 13);
        x = x ^ (x >> 17);
        x = x ^ (x << 5);
        self.0 = x;
        assert(x >> 8 < 0x100_0000) by (bit_vector);
        x >> 8
    }
}

/// The generator never gets stuck: a register that is not zero stays so, and
/// [`Rng::new`] starts none at zero.
pub proof fn law_noise_never_sticks(x: u32)
    requires
        x != 0,
    ensures
        xorshift(x) != 0,
{
    assert(x != 0 ==> (x ^ (x << 13)) != 0) by (bit_vector);
    let a = x ^ (x << 13);
    assert(a != 0 ==> (a ^ (a >> 17)) != 0) by (bit_vector);
    let b = a ^ (a >> 17);
    assert(b != 0 ==> (b ^ (b << 5)) != 0) by (bit_vector);
}

/// A voice, without its sound.
#[derive(Debug, Clone, Copy, PartialEq, Eq, Structural)]
pub struct Voice {
    pub stage: Stage,
    /// Samples left before an auto-release, or `None` for a held note.
    pub hold: Option<u32>,
    /// The game-owned channel that can release this voice, if any.
    pub chan: Option<u8>,
    pub priority: Priority,
    /// Allocation order, for oldest-first stealing.
    pub age: u64,
    /// The envelope's level, as the bits of a float that is not negative: such
    /// bits are ordered as the floats are.
    pub level: u32,
}

/// A voice that nothing was played on.
pub open spec fn fresh_voice() -> Voice {
    Voice {
        stage: Stage::Idle,
        hold: None,
        chan: None,
        priority: Priority::Sfx,
        age: 0,
        level: 0,
    }
}

impl Voice {
    /// After a release: fading out, and no longer counting down. A voice
    /// already releasing or idle is untouched.
    pub open spec fn released(self) -> Voice {
        if self.stage == Stage::Idle || self.stage == Stage::Release {
            self
        } else {
            Voice { stage: Stage::Release, hold: None, ..self }
        }
    }

    /// After a hard stop.
    pub open spec fn killed(self) -> Voice {
        Voice { stage: Stage::Idle, level: 0, chan: None, hold: None, ..self }
    }

    /// After one sample of countdown: a note whose time is up is released.
    pub open spec fn counted_down(self) -> Voice {
        match self.hold {
            Some(left) => if left == 0 {
                self.released()
            } else {
                Voice { hold: Some((left - 1) as u32), ..self }
            },
            None => self,
        }
    }

    /// After one step of the envelope, where `done` says whether the level
    /// reached the end of its stage, and `silent` whether the patch sustains at
    /// nothing.
    pub open spec fn stepped(self, done: bool, silent: bool) -> Voice {
        if !done {
            self
        } else {
            match self.stage {
                Stage::Attack => Voice { stage: Stage::Decay, ..self },
                Stage::Decay => Voice {
                    stage: if silent {
                        Stage::Idle
                    } else {
                        Stage::Sustain
                    },
                    ..self
                },
                Stage::Release => self.killed(),
                _ => self,
            }
        }
    }

    /// How much a voice would be missed: idle least, then releasing.
    pub open spec fn rank(self) -> int {
        match self.stage {
            Stage::Idle => 0,
            Stage::Release => 1,
            _ => 2,
        }
    }

    /// Music gives way to sound effects.
    pub open spec fn standing(self) -> int {
        match self.priority {
            Priority::Music => 0,
            Priority::Sfx => 1,
        }
    }

    /// Whether this voice is taken before `other`: idle first, then releasing,
    /// then the lowest priority, then the quietest, then the oldest.
    pub open spec fn gives_way_to(self, other: Voice) -> bool {
        ||| self.rank() < other.rank()
        ||| self.rank() == other.rank() && self.standing() < other.standing()
        ||| self.rank() == other.rank() && self.standing() == other.standing() && self.level
            < other.level
        ||| self.rank() == other.rank() && self.standing() == other.standing() && self.level
            == other.level && self.age < other.age
    }

    pub fn new() -> (r: Self)
        ensures
            r == fresh_voice(),
    {
        Voice {
            stage: Stage::Idle,
            hold: None,
            chan: None,
            priority: Priority::Sfx,
            age: 0,
            level: 0,
        }
    }

    pub fn is_idle(&self) -> (r: bool)
        ensures
            r == (self.stage == Stage::Idle),
    {
        self.stage == Stage::Idle
    }

    pub fn is_releasing(&self) -> (r: bool)
        ensures
            r == (self.stage == Stage::Release),
    {
        self.stage == Stage::Release
    }

    /// Start a note. Reuses this voice whatever it was doing.
    pub fn start(&mut self, hold: Option<u32>, chan: Option<u8>, priority: Priority, age: u64)
        ensures
            *final(self) == (Voice { stage: Stage::Attack, hold, chan, priority, age, level: 0 }),
    {
        self.stage = Stage::Attack;
        self.level = 0;
        self.hold = hold;
        self.chan = chan;
        self.priority = priority;
        self.age = age;
    }

    /// Enter the release stage. A voice already releasing or idle is untouched.
    pub fn release(&mut self)
        ensures
            *final(self) == old(self).released(),
    {
        if !(self.stage == Stage::Idle || self.stage == Stage::Release) {
            self.stage = Stage::Release;
            self.hold = None;
        }
    }

    /// Stop immediately, with no release tail.
    pub fn kill(&mut self)
        ensures
            *final(self) == old(self).killed(),
    {
        self.stage = Stage::Idle;
        self.level = 0;
        self.chan = None;
        self.hold = None;
    }

    /// Count one sample off a timed note. Returns the stage whose level the
    /// envelope then moves by one step.
    pub fn count_down(&mut self) -> (stage: Stage)
        ensures
            *final(self) == old(self).counted_down(),
            stage == final(self).stage,
    {
        if let Some(left) = self.hold {
            if left == 0 {
                self.release();
            } else {
                self.hold = Some(left - 1);
            }
        }
        self.stage
    }

    /// Close one step of the envelope, once its level has moved to `level`.
    /// Returns `false` once the voice has nothing to play for this sample.
    pub fn step(&mut self, level: u32, done: bool, silent: bool) -> (sounds: bool)
        ensures
            *final(self) == (Voice { level, ..*old(self) }).stepped(done, silent),
            sounds == !(old(self).stage == Stage::Idle || (old(self).stage == Stage::Release
                && done)),
    {
        self.level = level;
        match self.stage {
            Stage::Idle => false,
            Stage::Attack => {
                if done {
                    self.stage = Stage::Decay;
                }
                true
            },
            Stage::Decay => {
                if done {
                    self.stage = if silent { Stage::Idle } else { Stage::Sustain };
                }
                true
            },
            Stage::Sustain => true,
            Stage::Release => {
                if done {
                    self.kill();
                    false
                } else {
                    true
                }
            },
        }
    }
}

fn rank_of(v: &Voice) -> (r: u8)
    ensures
        r == v.rank(),
{
    match v.stage {
        Stage::Idle => 0,
        Stage::Release => 1,
        _ => 2,
    }
}

fn standing_of(v: &Voice) -> (r: u8)
    ensures
        r == v.standing(),
{
    match v.priority {
        Priority::Music => 0,
        Priority::Sfx => 1,
    }
}

fn gives_way(a: &Voice, b: &Voice) -> (r: bool)
    ensures
        r == a.gives_way_to(*b),
{
    let (ra, rb) = (rank_of(a), rank_of(b));
    let (sa, sb) = (standing_of(a), standing_of(b));
    if ra != rb {
        ra < rb
    } else if sa != sb {
        sa < sb
    } else if a.level != b.level {
        a.level < b.level
    } else {
        a.age < b.age
    }
}

/// Whether voice `i` is the one a new note takes: none gives way before it, and
/// of equals it is the first.
pub open spec fn is_picked(voices: Seq<Voice>, i: int) -> bool {
    &&& 0 <= i < voices.len()
    &&& forall|j: int| 0 <= j < voices.len() ==> !(#[trigger] voices[j]).gives_way_to(voices[i])
    &&& forall|j: int| 0 <= j < i ==> voices[i].gives_way_to(#[trigger] voices[j])
}

/// Choose the voice a new note takes.
pub fn pick_voice(voices: &Vec<Voice>) -> (r: usize)
    requires
        voices@.len() > 0,
    ensures
        is_picked(voices@, r as int),
{
    let mut best: usize = 0;
    let mut i: usize = 1;
    while i < voices.len()
        invariant
            best < i <= voices@.len(),
            forall|j: int|
                0 <= j < i ==> !(#[trigger] voices@[j]).gives_way_to(voices@[best as int]),
            forall|j: int|
                0 <= j < best ==> voices@[best as int].gives_way_to(#[trigger] voices@[j]),
        decreases voices@.len() - i,
    {
        if gives_way(&voices[i], &voices[best]) {
            best = i;
        }
        i += 1;
    }
    best
}

/// Some voice is the one to take.
pub proof fn lemma_some_voice_is_picked(voices: Seq<Voice>)
    requires
        voices.len() > 0,
    ensures
        exists|i: int| is_picked(voices, i),
    decreases voices.len(),
{
    if voices.len() == 1 {
        assert(is_picked(voices, 0));
    } else {
        let before = voices.drop_last();
        lemma_some_voice_is_picked(before);
        let i = choose|i: int| is_picked(before, i);
        let last = voices.len() - 1;
        if voices[last].gives_way_to(voices[i]) {
            assert forall|j: int| 0 <= j < voices.len() implies !(#[trigger] voices[j]).gives_way_to(
                voices[last],
            ) by {
                if j < last {
                    assert(!before[j].gives_way_to(before[i]));
                }
            }
            assert forall|j: int| 0 <= j < last implies voices[last].gives_way_to(
                #[trigger] voices[j],
            ) by {
                assert(!before[j].gives_way_to(before[i]));
            }
            assert(is_picked(voices, last));
        } else {
            assert forall|j: int| 0 <= j < voices.len() implies !(#[trigger] voices[j]).gives_way_to(
                voices[i],
            ) by {
                if j < last {
                    assert(!before[j].gives_way_to(before[i]));
                }
            }
            assert forall|j: int| 0 <= j < i implies voices[i].gives_way_to(
                #[trigger] voices[j],
            ) by {
                assert(before[i].gives_way_to(before[j]));
            }
            assert(is_picked(voices, i));
        }
    }
}

/// Exactly one voice is the one to take.
pub proof fn law_one_voice_gives_way(voices: Seq<Voice>, i: int, j: int)
    requires
        is_picked(voices, i),
        is_picked(voices, j),
    ensures
        i == j,
{
    if i < j {
        assert(voices[j].gives_way_to(voices[i]));
    } else if j < i {
        assert(voices[i].gives_way_to(voices[j]));
    }
}

/// A sounding note is taken only where none is idle, and none is fading out.
pub proof fn law_idle_then_releasing_first(voices: Seq<Voice>, i: int, j: int)
    requires
        is_picked(voices, i),
        0 <= j < voices.len(),
    ensures
        voices[j].stage == Stage::Idle ==> voices[i].stage == Stage::Idle,
        voices[j].stage == Stage::Release ==> voices[i].stage == Stage::Idle || voices[i].stage
            == Stage::Release,
{
    assert(!voices[j].gives_way_to(voices[i]));
}

/// Among notes that sound, a sound effect is taken only where no music is.
pub proof fn law_music_gives_way(voices: Seq<Voice>, i: int, j: int)
    requires
        is_picked(voices, i),
        0 <= j < voices.len(),
        voices[i].rank() == voices[j].rank(),
        voices[j].priority == Priority::Music,
    ensures
        voices[i].priority == Priority::Music,
{
    assert(!voices[j].gives_way_to(voices[i]));
}

} // verus!
