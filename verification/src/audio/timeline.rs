//! A whole render: what the voices do, and the samples that come of it.
//!
//! What a sample is, and what makes one, is left open: it may be any function of
//! the voices and of a state of its own. So what holds here holds of every
//! sound.

use super::engine::{lemma_cut, lemma_quiet, lemma_segment, EngineModel};
use super::synth::{SynthModel, VoiceCommand};
use vstd::prelude::*;

verus! {

/// A way to make sound, with states `A` and samples `B`.
#[verifier::reject_recursive_types(A)]
pub struct Sound<A, B> {
    /// The state after a command.
    pub obey: spec_fn(A, VoiceCommand) -> A,
    /// The voices and the state after one sample, and the sample.
    pub sample: spec_fn(SynthModel, A) -> (SynthModel, A, B),
}

/// The state after commands, one after the other.
pub open spec fn obeyed<A, B>(sound: Sound<A, B>, state: A, commands: Seq<VoiceCommand>) -> A
    decreases commands.len(),
{
    if commands.len() == 0 {
        state
    } else {
        (sound.obey)(obeyed(sound, state, commands.drop_last()), commands.last())
    }
}

/// The voices and the state after `n` samples, and the samples.
pub open spec fn sounded<A, B>(sound: Sound<A, B>, synth: SynthModel, state: A, n: int) -> (
    SynthModel,
    A,
    Seq<B>,
)
    decreases n,
{
    if n <= 0 {
        (synth, state, Seq::empty())
    } else {
        let (s, a, out) = sounded(sound, synth, state, n - 1);
        let (t, b, x) = (sound.sample)(s, a);
        (t, b, out.push(x))
    }
}

/// An engine and its sound, and the samples made so far.
pub struct Render<A, B> {
    pub engine: EngineModel,
    pub state: A,
    pub out: Seq<B>,
}

/// A render after `n` more samples: piece by piece, what is due happens, and
/// then the sound goes on until something else is.
pub open spec fn rendered<A, B>(sound: Sound<A, B>, r: Render<A, B>, n: int) -> Render<A, B>
    decreases n,
{
    if n <= 0 {
        r
    } else {
        let (x, commands, run) = r.engine.segment(n);
        let (synth, state, more) = sounded(sound, x.synth, obeyed(sound, r.state, commands), run);
        if 0 < run <= n {
            rendered(
                sound,
                Render { engine: EngineModel { synth, ..x }, state, out: r.out + more },
                n - run,
            )
        } else {
            r
        }
    }
}

/// A render after blocks of these sizes, one after the other.
pub open spec fn rendered_in<A, B>(
    sound: Sound<A, B>,
    r: Render<A, B>,
    blocks: Seq<int>,
) -> Render<A, B>
    decreases blocks.len(),
{
    if blocks.len() == 0 {
        r
    } else {
        rendered(sound, rendered_in(sound, r, blocks.drop_last()), blocks.last())
    }
}

/// How many samples blocks hold.
pub open spec fn total(blocks: Seq<int>) -> int
    decreases blocks.len(),
{
    if blocks.len() == 0 {
        0
    } else {
        total(blocks.drop_last()) + blocks.last()
    }
}

/// Sounding is the same in one go as in two.
proof fn lemma_sounded<A, B>(sound: Sound<A, B>, synth: SynthModel, state: A, a: int, b: int)
    requires
        a >= 0,
        b >= 0,
    ensures
        ({
            let (s, x, first) = sounded(sound, synth, state, a);
            let (t, y, second) = sounded(sound, s, x, b);
            sounded(sound, synth, state, a + b) == (t, y, first + second)
        }),
        sounded(sound, synth, state, a).2.len() == a,
    decreases a + b,
{
    let (s, x, first) = sounded(sound, synth, state, a);
    if b > 0 {
        lemma_sounded(sound, synth, state, a, b - 1);
        let (t, y, second) = sounded(sound, s, x, b - 1);
        let last = (sound.sample)(t, y).2;
        assert((first + second).push(last) =~= first + second.push(last));
        assert((a + b) - 1 == a + (b - 1));
    } else {
        assert(first + Seq::<B>::empty() =~= first);
        if a > 0 {
            lemma_sounded(sound, synth, state, a - 1, 0);
        }
    }
}

/// Rendering `a` samples and then `b` is rendering `a + b`: the engine, the
/// sound and every sample are the same.
pub proof fn law_a_render_can_be_cut_anywhere<A, B>(
    sound: Sound<A, B>,
    r: Render<A, B>,
    a: int,
    b: int,
)
    requires
        a >= 0,
        b >= 0,
        r.engine.now + a + b <= u64::MAX,
    ensures
        rendered(sound, rendered(sound, r, a), b) == rendered(sound, r, a + b),
        rendered(sound, r, a).engine.now == r.engine.now + a,
        rendered(sound, r, a).out.len() == r.out.len() + a,
        r.out.is_prefix_of(rendered(sound, r, a).out),
    decreases a,
{
    if a > 0 {
        lemma_segment(r.engine, a);
        let next = piece(sound, r, a);
        let k = r.engine.segment(a).2;
        lemma_sounded(sound, r.engine.segment(a).0.synth, obeyed(
            sound,
            r.state,
            r.engine.segment(a).1,
        ), k, 0);
        assert(rendered(sound, r, a) == rendered(sound, next, a - k));
        if b == 0 {
            law_a_render_can_be_cut_anywhere(sound, next, a - k, 0);
        } else {
            lemma_cut(r.engine, a, b);
            if r.engine.segment(a + b).2 <= a {
                law_a_render_can_be_cut_anywhere(sound, next, a - k, b);
                assert((a + b) - k == (a - k) + b);
            } else {
                lemma_cut_in_silence(sound, r, a, b);
                assert(rendered(sound, next, 0) == next);
            }
        }
    }
}

/// A render after the next piece of a block of `n` samples.
spec fn piece<A, B>(sound: Sound<A, B>, r: Render<A, B>, n: int) -> Render<A, B> {
    let (x, commands, run) = r.engine.segment(n);
    let (synth, state, more) = sounded(sound, x.synth, obeyed(sound, r.state, commands), run);
    Render { engine: EngineModel { synth, ..x }, state, out: r.out + more }
}

/// A render that is cut where nothing happens.
proof fn lemma_cut_in_silence<A, B>(sound: Sound<A, B>, r: Render<A, B>, a: int, b: int)
    requires
        a > 0,
        b > 0,
        r.engine.now + a + b <= u64::MAX,
        r.engine.segment(a + b).2 > a,
    ensures
        rendered(sound, rendered(sound, r, a), b) == rendered(sound, r, a + b),
{
    let m = r.engine;
    lemma_cut(m, a, b);
    let empty = Seq::<VoiceCommand>::empty();
    let (x, commands, k) = m.segment(a);
    let (whole, _c, n) = m.segment(a + b);
    let start = obeyed(sound, r.state, commands);
    let next = piece(sound, r, a);
    assert(rendered(sound, next, 0) == next);
    assert(rendered(sound, r, a) == next);
    assert(next.engine.until() == x.until());
    lemma_quiet(next.engine);
    assert(empty + empty =~= empty);
    let (z, quiet, left) = next.engine.segment(b);
    assert(next.engine.run(b) == x.run(b));
    assert(left == n - a && quiet == empty);
    lemma_sounded(sound, x.synth, start, a, n - a);
    assert(a + (n - a) == n);
    let after = piece(sound, next, b);
    let direct = piece(sound, r, a + b);
    assert(obeyed(sound, next.state, quiet) == next.state);
    assert(whole.synth == x.synth);
    assert(after.engine == direct.engine);
    assert(after.state == direct.state);
    assert(after.out =~= direct.out);
    assert((a + b) - n == b - left);
    assert(rendered(sound, next, b) == rendered(sound, after, b - left));
    assert(rendered(sound, r, a + b) == rendered(sound, direct, a + b - n));
}

/// The block sizes a device chooses change nothing: however a render is cut into
/// blocks, the samples are the ones that a render in one go makes, and the
/// engine ends up the same: its clock, its queue, its music and its counters.
pub proof fn law_no_block_size_changes_a_render<A, B>(
    sound: Sound<A, B>,
    r: Render<A, B>,
    blocks: Seq<int>,
)
    requires
        forall|i: int| 0 <= i < blocks.len() ==> #[trigger] blocks[i] >= 0,
        r.engine.now + total(blocks) <= u64::MAX,
    ensures
        rendered_in(sound, r, blocks) == rendered(sound, r, total(blocks)),
        total(blocks) >= 0,
    decreases blocks.len(),
{
    if blocks.len() > 0 {
        let before = blocks.drop_last();
        assert forall|i: int| 0 <= i < before.len() implies #[trigger] before[i] >= 0 by {
            assert(before[i] == blocks[i]);
        }
        assert(blocks[blocks.len() - 1] >= 0);
        law_no_block_size_changes_a_render(sound, r, before);
        law_a_render_can_be_cut_anywhere(sound, r, total(before), blocks.last());
    }
}

} // verus!
