//! Feed-forward layers: the tensors they are made of, and which of several
//! experts a token goes to.

use super::params::{linear, param_views, push_linear, Param, ParamModel};
use crate::text::{concat2, decimal, push_decimal, same};
use vstd::prelude::*;
use vstd::string::StringExecFns;

verus! {

/// How a feed-forward layer bends its input.
#[derive(Debug, Clone, Copy, PartialEq, Eq, Structural)]
pub enum Activation {
    Silu,
    Gelu,
    GeluTanh,
    Relu,
}

/// The activation that a model's configuration names.
pub open spec fn activation_named(name: Seq<char>) -> Option<Activation> {
    if name == "silu"@ {
        Some(Activation::Silu)
    } else if name == "gelu"@ {
        Some(Activation::Gelu)
    } else if name == "gelutanh"@ || name == "gelu_pytorch_tanh"@ {
        Some(Activation::GeluTanh)
    } else if name == "relu"@ {
        Some(Activation::Relu)
    } else {
        None
    }
}

impl Activation {
    /// The activation that a model's configuration names.
    pub fn from_name(name: &str) -> (r: Option<Activation>)
        ensures
            r == activation_named(name@),
    {
        if same(name, "silu") {
            Some(Activation::Silu)
        } else if same(name, "gelu") {
            Some(Activation::Gelu)
        } else if same(name, "gelutanh") || same(
            name,
            "gelu_pytorch_tanh",
        ) {
            Some(Activation::GeluTanh)
        } else if same(name, "relu") {
            Some(Activation::Relu)
        } else {
            None
        }
    }
}

/// The tensors of a gated feed-forward layer.
pub open spec fn gated_params(
    name: Seq<char>,
    hidden_size: usize,
    intermediate_size: usize,
) -> Seq<ParamModel> {
    linear(name + "gate_proj"@, hidden_size, intermediate_size, false) + linear(
        name + "up_proj"@,
        hidden_size,
        intermediate_size,
        false,
    ) + linear(name + "down_proj"@, intermediate_size, hidden_size, false)
}

/// Add the tensors of a gated feed-forward layer below `name`.
fn push_gated(out: &mut Vec<Param>, name: &str, hidden_size: usize, intermediate_size: usize)
    ensures
        param_views(final(out)@) == param_views(old(out)@) + gated_params(
            name@,
            hidden_size,
            intermediate_size,
        ),
{
    let gate = concat2(name, "gate_proj");
    let up = concat2(name, "up_proj");
    let down = concat2(name, "down_proj");
    push_linear(out, gate.as_str(), hidden_size, intermediate_size, false);
    push_linear(out, up.as_str(), hidden_size, intermediate_size, false);
    push_linear(out, down.as_str(), intermediate_size, hidden_size, false);
    assert(param_views(out@) =~= param_views(old(out)@) + gated_params(
        name@,
        hidden_size,
        intermediate_size,
    ));
}

/// The tensors of a gated feed-forward layer.
pub fn gated_parameters(hidden_size: usize, intermediate_size: usize) -> (r: Vec<Param>)
    ensures
        param_views(r@) == gated_params(Seq::empty(), hidden_size, intermediate_size),
{
    let mut out: Vec<Param> = Vec::new();
    push_gated(&mut out, "", hidden_size, intermediate_size);
    proof {
        reveal_strlit("");
        assert(""@ =~= Seq::<char>::empty());
        assert(param_views(out@) =~= gated_params(
            Seq::empty(),
            hidden_size,
            intermediate_size,
        ));
    }
    out
}

/// A layer of several experts, of which each token goes to a few.
#[derive(Debug, Clone, Copy, PartialEq, Eq, Structural)]
pub struct ExpertsConfig {
    pub hidden_size: usize,
    pub intermediate_size: usize,
    pub num_experts: usize,
    /// The size of an expert that every token goes to, where there is one.
    pub shared_expert_intermediate: Option<usize>,
}

impl ExpertsConfig {
    /// The tensors of the first `n` experts.
    pub open spec fn expert_params(self, n: nat) -> Seq<ParamModel>
        decreases n,
    {
        if n == 0 {
            Seq::empty()
        } else {
            self.expert_params((n - 1) as nat) + gated_params(
                "experts."@ + decimal((n - 1) as nat) + "."@,
                self.hidden_size,
                self.intermediate_size,
            )
        }
    }

    /// The tensors that the layer is made of.
    pub open spec fn params(self) -> Seq<ParamModel> {
        self.expert_params(self.num_experts as nat) + (match self.shared_expert_intermediate {
            Some(inter) => gated_params("shared_expert."@, self.hidden_size, inter),
            None => Seq::empty(),
        }) + linear("gate"@, self.hidden_size, self.num_experts, false)
    }

    /// The tensors that the layer is made of.
    pub fn parameters(&self) -> (r: Vec<Param>)
        ensures
            param_views(r@) == self.params(),
    {
        let mut out: Vec<Param> = Vec::new();
        let mut i: usize = 0;
        assert(param_views(out@) =~= self.expert_params(0));
        while i < self.num_experts
            invariant
                i <= self.num_experts,
                param_views(out@) == self.expert_params(i as nat),
            decreases self.num_experts - i,
        {
            let mut name = "experts.".to_owned();
            push_decimal(&mut name, i as u64);
            name.append(".");
            push_gated(&mut out, name.as_str(), self.hidden_size, self.intermediate_size);
            i += 1;
        }
        if let Some(inter) = self.shared_expert_intermediate {
            push_gated(&mut out, "shared_expert.", self.hidden_size, inter);
        }
        push_linear(&mut out, "gate", self.hidden_size, self.num_experts, false);
        assert(param_views(out@) =~= self.params());
        out
    }
}

/// Whether expert `a` is ranked before expert `b`: a larger weight first, and
/// of equal weights the first expert. Weights are given by numbers that are
/// ordered as they are.
pub open spec fn ranked_before(weights: Seq<u32>, a: int, b: int) -> bool {
    weights[a] > weights[b] || (weights[a] == weights[b] && a < b)
}

/// Whether `chosen` are the `k` highest ranked experts, in their order.
pub open spec fn is_top(weights: Seq<u32>, chosen: Seq<usize>, k: int) -> bool {
    &&& chosen.len() == (if k <= weights.len() {
        k
    } else {
        weights.len() as int
    })
    &&& forall|i: int| 0 <= i < chosen.len() ==> (#[trigger] chosen[i]) < weights.len()
    &&& forall|i: int, j: int|
        0 <= i < j < chosen.len() ==> ranked_before(
            weights,
            #[trigger] chosen[i] as int,
            #[trigger] chosen[j] as int,
        )
    &&& forall|e: int, i: int|
        0 <= e < weights.len() && 0 <= i < chosen.len() && !chosen.contains(e as usize)
            ==> #[trigger] ranked_before(weights, chosen[i] as int, e)
}

/// Whether `sorted` are the experts before `n`, in the order of their rank.
spec fn sorted_before(weights: Seq<u32>, sorted: Seq<usize>, n: int) -> bool {
    &&& sorted.len() == n
    &&& forall|i: int| 0 <= i < n ==> (#[trigger] sorted[i]) < n
    &&& forall|i: int, j: int|
        0 <= i < j < n ==> ranked_before(
            weights,
            #[trigger] sorted[i] as int,
            #[trigger] sorted[j] as int,
        )
    &&& forall|e: int| 0 <= e < n ==> sorted.contains(#[trigger] (e as usize))
}

/// The `k` experts a token goes to, the one with the largest weight first.
pub fn top_experts(weights: &[u32], k: usize) -> (r: Vec<usize>)
    ensures
        is_top(weights@, r@, k as int),
{
    let mut sorted: Vec<usize> = Vec::new();
    let mut n: usize = 0;
    while n < weights.len()
        invariant
            n <= weights@.len(),
            sorted_before(weights@, sorted@, n as int),
        decreases weights@.len() - n,
    {
        let mut at: usize = n;
        while at > 0 && weights[sorted[at - 1]] < weights[n]
            invariant
                at <= n < weights@.len(),
                sorted_before(weights@, sorted@, n as int),
                forall|i: int| at <= i < n ==> weights@[(#[trigger] sorted@[i]) as int] < weights@[n as int],
            decreases at,
        {
            at -= 1;
        }
        let ghost before = sorted@;
        sorted.insert(at, n);
        proof {
            lemma_inserted(weights@, before, n as int, at as int);
            assert(sorted@ =~= before.insert(at as int, n));
        }
        n += 1;
    }
    let ghost all = sorted@;
    if k < sorted.len() {
        sorted.truncate(k);
    }
    let count: usize = weights.len();
    proof {
        assert(count == weights@.len());
        assert(sorted@ =~= all.take(sorted@.len() as int));
        lemma_cut(weights@, all, sorted@);
    }
    sorted
}

proof fn lemma_inserted(weights: Seq<u32>, before: Seq<usize>, n: int, at: int)
    requires
        0 <= at <= n < weights.len(),
        n <= usize::MAX,
        sorted_before(weights, before, n),
        forall|i: int| at <= i < n ==> weights[(#[trigger] before[i]) as int] < weights[n],
        at > 0 ==> weights[before[at - 1] as int] >= weights[n],
    ensures
        sorted_before(weights, before.insert(at, n as usize), n + 1),
{
    let after = before.insert(at, n as usize);
    assert forall|i: int, j: int| 0 <= i < j < n + 1 implies ranked_before(
        weights,
        #[trigger] after[i] as int,
        #[trigger] after[j] as int,
    ) by {
        let oi = if i < at {
            i
        } else {
            i - 1
        };
        let oj = if j < at {
            j
        } else {
            j - 1
        };
        if i == at {
            assert(after[j] == before[oj]);
        } else if j == at {
            assert(after[i] == before[i]);
            if i < at - 1 {
                assert(ranked_before(weights, before[i] as int, before[at - 1] as int));
            }
        } else {
            assert(after[i] == before[oi] && after[j] == before[oj]);
        }
    }
    assert forall|e: int| 0 <= e < n + 1 implies after.contains(#[trigger] (e as usize)) by {
        if e == n {
            assert(after[at] == e as usize);
        } else {
            assert(before.contains(e as usize));
            let i = choose|i: int| 0 <= i < before.len() && before[i] == e as usize;
            if i < at {
                assert(after[i] == e as usize);
            } else {
                assert(after[i + 1] == e as usize);
            }
        }
    }
    assert forall|i: int| 0 <= i < n + 1 implies (#[trigger] after[i]) < n + 1 by {
        if i < at {
            assert(after[i] == before[i]);
        } else if i > at {
            assert(after[i] == before[i - 1]);
        }
    }
}

proof fn lemma_cut(weights: Seq<u32>, all: Seq<usize>, chosen: Seq<usize>)
    requires
        sorted_before(weights, all, weights.len() as int),
        weights.len() <= usize::MAX,
        chosen.len() <= all.len(),
        chosen == all.take(chosen.len() as int),
    ensures
        is_top(weights, chosen, chosen.len() as int),
{
    assert forall|e: int, i: int|
        0 <= e < weights.len() && 0 <= i < chosen.len() && !chosen.contains(
            e as usize,
        ) implies #[trigger] ranked_before(weights, chosen[i] as int, e) by {
        assert(all.contains(e as usize));
        let p = choose|p: int| 0 <= p < all.len() && all[p] == e as usize;
        if p < chosen.len() {
            assert(chosen[p] == e as usize);
        }
        assert(all[i] == chosen[i]);
        assert(ranked_before(weights, all[i] as int, all[p] as int));
        assert(e as usize == all[p]);
        assert(all[p] < weights.len());
    }
    assert forall|i: int, j: int| 0 <= i < j < chosen.len() implies ranked_before(
        weights,
        #[trigger] chosen[i] as int,
        #[trigger] chosen[j] as int,
    ) by {
        assert(chosen[i] == all[i] && chosen[j] == all[j]);
    }
}

} // verus!
