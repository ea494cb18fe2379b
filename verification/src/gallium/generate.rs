//! Generating tokens one after the other: what the model is shown at each step,
//! and when to stop.

use vstd::prelude::*;

verus! {

/// A generation in progress.
pub struct Generation {
    prompt: Vec<u32>,
    generated: Vec<u32>,
    max_new_tokens: usize,
    eos_tokens: Vec<u32>,
}

/// What a [`Generation`] holds.
pub struct GenerationModel {
    pub prompt: Seq<u32>,
    /// The tokens generated so far.
    pub generated: Seq<u32>,
    pub max_new_tokens: nat,
    /// The tokens that end a generation.
    pub eos: Seq<u32>,
}

impl View for Generation {
    type V = GenerationModel;

    closed spec fn view(&self) -> GenerationModel {
        GenerationModel {
            prompt: self.prompt@,
            generated: self.generated@,
            max_new_tokens: self.max_new_tokens as nat,
            eos: self.eos_tokens@,
        }
    }
}

impl GenerationModel {
    /// Whether there is nothing more to generate. One token always comes; after
    /// that, the end is at a token that ends it, or at the limit.
    pub open spec fn finished(self) -> bool {
        &&& self.generated.len() >= 1
        &&& self.generated.len() >= self.max_new_tokens || self.eos.contains(self.generated.last())
    }

    /// The tokens the model is shown next: the prompt first, then each token it
    /// came up with.
    pub open spec fn next_input(self) -> Seq<u32> {
        if self.generated.len() == 0 {
            self.prompt
        } else {
            seq![self.generated.last()]
        }
    }

    /// The position of the first of them.
    pub open spec fn next_pos(self) -> int {
        if self.generated.len() == 0 {
            0
        } else {
            self.prompt.len() + self.generated.len() - 1
        }
    }

    /// Everything the next token is sampled after.
    pub open spec fn so_far(self) -> Seq<u32> {
        self.prompt + self.generated
    }
}

fn copy_tokens(v: &Vec<u32>) -> (r: Vec<u32>)
    ensures
        r@ == v@,
{
    let mut out: Vec<u32> = Vec::new();
    let mut i: usize = 0;
    while i < v.len()
        invariant
            i <= v@.len(),
            out@ == v@.take(i as int),
        decreases v@.len() - i,
    {
        out.push(v[i]);
        i += 1;
        assert(out@ =~= v@.take(i as int));
    }
    assert(v@.take(v@.len() as int) =~= v@);
    out
}

impl Generation {
    pub fn new(prompt: Vec<u32>, max_new_tokens: usize, eos_tokens: Vec<u32>) -> (r: Self)
        ensures
            r@ == (GenerationModel {
                prompt: prompt@,
                generated: Seq::empty(),
                max_new_tokens: max_new_tokens as nat,
                eos: eos_tokens@,
            }),
    {
        let r = Generation { prompt, generated: Vec::new(), max_new_tokens, eos_tokens };
        assert(r@.generated =~= Seq::empty());
        r
    }

    /// Whether there is nothing more to generate.
    pub fn is_finished(&self) -> (r: bool)
        ensures
            r == self@.finished(),
    {
        let n: usize = self.generated.len();
        if n == 0 {
            return false;
        }
        if n >= self.max_new_tokens {
            return true;
        }
        let last: u32 = self.generated[n - 1];
        let mut i: usize = 0;
        while i < self.eos_tokens.len()
            invariant
                i <= self.eos_tokens@.len(),
                n == self.generated@.len() >= 1,
                last == self.generated@[n - 1],
                forall|j: int| 0 <= j < i ==> self.eos_tokens@[j] != last,
            decreases self.eos_tokens@.len() - i,
        {
            if self.eos_tokens[i] == last {
                assert(self.eos_tokens@.contains(last));
                return true;
            }
            i += 1;
        }
        false
    }

    /// What the model is shown next, and at which position it starts.
    pub fn next_input(&self) -> (r: (Vec<u32>, usize))
        requires
            self@.prompt.len() + self@.generated.len() <= usize::MAX,
        ensures
            r.0@ == self@.next_input(),
            r.1 == self@.next_pos(),
    {
        let n: usize = self.generated.len();
        if n == 0 {
            (copy_tokens(&self.prompt), 0)
        } else {
            let mut v: Vec<u32> = Vec::new();
            v.push(self.generated[n - 1]);
            assert(v@ =~= self@.next_input());
            (v, self.prompt.len() + (n - 1))
        }
    }

    /// Everything the next token is sampled after: the prompt, and what was
    /// generated.
    pub fn tokens(&self) -> (r: Vec<u32>)
        ensures
            r@ == self@.so_far(),
    {
        let mut out = copy_tokens(&self.prompt);
        let mut i: usize = 0;
        assert(out@ =~= self.prompt@ + self.generated@.take(0));
        while i < self.generated.len()
            invariant
                i <= self.generated@.len(),
                out@ == self.prompt@ + self.generated@.take(i as int),
            decreases self.generated@.len() - i,
        {
            out.push(self.generated[i]);
            i += 1;
            assert(out@ =~= self.prompt@ + self.generated@.take(i as int));
        }
        assert(self.generated@.take(self.generated@.len() as int) =~= self.generated@);
        out
    }

    /// Record the token that was sampled.
    pub fn accept(&mut self, token: u32)
        ensures
            final(self)@ == (GenerationModel {
                generated: old(self)@.generated.push(token),
                ..old(self)@
            }),
    {
        self.generated.push(token);
    }

    /// The tokens generated so far.
    pub fn generated(&self) -> (r: &Vec<u32>)
        ensures
            r@ == self@.generated,
    {
        &self.generated
    }
}

/// Every position is shown to the model once, in order: what is shown next
/// starts where the tokens before it ended.
pub proof fn law_positions_follow_each_other(m: GenerationModel, token: u32)
    requires
        m.prompt.len() > 0,
    ensures
        ({
            let after = GenerationModel { generated: m.generated.push(token), ..m };
            &&& after.next_pos() == m.next_pos() + m.next_input().len()
            &&& after.next_input() == seq![token]
            &&& after.so_far() == m.so_far().push(token)
        }),
{
    let after = GenerationModel { generated: m.generated.push(token), ..m };
    assert(after.so_far() =~= m.so_far().push(token));
}

/// No more tokens are generated than the limit says, but for the one that
/// always comes; and none after one that ends the generation.
pub proof fn law_generation_stops(m: GenerationModel, token: u32)
    requires
        !m.finished(),
    ensures
        m.generated.len() == 0 || m.generated.len() + 1 <= m.max_new_tokens,
        m.eos.contains(token) ==> (GenerationModel {
            generated: m.generated.push(token),
            ..m
        }).finished(),
{
}

} // verus!
