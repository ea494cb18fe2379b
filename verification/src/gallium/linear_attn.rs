//! Linear attention with a gated delta rule: the tensors a layer is made of,
//! how they are cut up, and what its convolution carries from chunk to chunk.

use super::params::{linear, param_views, push_linear, push_vector, vector, Param, ParamModel};
use vstd::prelude::*;

verus! {

/// What a linear-attention layer is like.
#[derive(Debug, Clone, Copy, PartialEq, Eq, Structural)]
pub struct DeltaNetConfig {
    pub hidden_size: usize,
    /// Heads of keys and queries.
    pub num_k_heads: usize,
    /// Heads of values, usually more; keys and queries are repeated to match.
    pub num_v_heads: usize,
    pub key_head_dim: usize,
    pub value_head_dim: usize,
    /// How many steps the causal convolution looks at.
    pub conv_kernel_dim: usize,
}

/// A part of a dimension: where it starts, and how long it is.
#[derive(Debug, Clone, Copy, PartialEq, Eq, Structural)]
pub struct Part {
    pub start: usize,
    pub len: usize,
}

/// How the output of a linear-attention layer's first projection is cut up, and
/// what the rest works on.
#[derive(Debug, Clone, Copy, PartialEq, Eq)]
pub struct DeltaNetShapes {
    pub queries: Part,
    pub keys: Part,
    pub values: Part,
    /// How often each key and query head is repeated, where there are more
    /// value heads.
    pub repeat: Option<usize>,
    /// What is remembered of all positions before.
    pub state: (usize, usize, usize, usize),
    /// The channels of the convolution.
    pub conv_dim: usize,
    /// What goes into the output projection, for each position.
    pub value_dim: usize,
}

impl DeltaNetConfig {
    /// The sizes can be counted.
    pub open spec fn fits(self) -> bool {
        2 * (self.num_k_heads * self.key_head_dim) + self.num_v_heads * self.value_head_dim
            <= usize::MAX
    }

    /// The sizes can be counted, and there are heads to repeat.
    pub open spec fn wf(self) -> bool {
        self.fits() && self.num_k_heads > 0
    }

    /// How many numbers all keys of a position are.
    pub open spec fn key_dim(self) -> usize {
        (self.num_k_heads * self.key_head_dim) as usize
    }

    /// How many numbers all values of a position are.
    pub open spec fn value_dim(self) -> usize {
        (self.num_v_heads * self.value_head_dim) as usize
    }

    /// How many channels the convolution has: queries, keys and values.
    pub open spec fn conv_dim(self) -> usize {
        (2 * self.key_dim() + self.value_dim()) as usize
    }

    /// The tensors that the layer is made of.
    pub open spec fn params(self) -> Seq<ParamModel> {
        let hidden = self.hidden_size;
        linear("in_proj_qkv"@, hidden, self.conv_dim(), false) + linear(
            "in_proj_z"@,
            hidden,
            self.value_dim(),
            false,
        ) + linear("in_proj_b"@, hidden, self.num_v_heads, false) + linear(
            "in_proj_a"@,
            hidden,
            self.num_v_heads,
            false,
        ) + linear("out_proj"@, self.value_dim(), hidden, false) + seq![
            ParamModel {
                name: "conv1d.weight"@,
                shape: seq![self.conv_dim(), 1usize, self.conv_kernel_dim],
            },
            vector("A_log"@, self.num_v_heads),
            vector("dt_bias"@, self.num_v_heads),
            vector("norm.weight"@, self.value_head_dim),
        ]
    }

    /// The tensors that the layer is made of.
    pub fn parameters(&self) -> (r: Vec<Param>)
        requires
            self.fits(),
        ensures
            param_views(r@) == self.params(),
    {
        proof {
            lemma_dims(*self);
        }
        let hidden: usize = self.hidden_size;
        let key_dim: usize = self.num_k_heads * self.key_head_dim;
        let value_dim: usize = self.num_v_heads * self.value_head_dim;
        let conv_dim: usize = key_dim * 2 + value_dim;
        let mut out: Vec<Param> = Vec::new();
        assert(param_views(out@) =~= Seq::<ParamModel>::empty());
        push_linear(&mut out, "in_proj_qkv", hidden, conv_dim, false);
        push_linear(&mut out, "in_proj_z", hidden, value_dim, false);
        push_linear(&mut out, "in_proj_b", hidden, self.num_v_heads, false);
        push_linear(&mut out, "in_proj_a", hidden, self.num_v_heads, false);
        push_linear(&mut out, "out_proj", value_dim, hidden, false);
        let conv = Param {
            name: "conv1d.weight".to_owned(),
            shape: vec![conv_dim, 1usize, self.conv_kernel_dim],
        };
        let ghost before = param_views(out@);
        let ghost c = conv@;
        out.push(conv);
        proof {
            assert(c.shape =~= seq![self.conv_dim(), 1usize, self.conv_kernel_dim]);
            assert(param_views(out@) =~= before.push(c));
        }
        push_vector(&mut out, "A_log", self.num_v_heads);
        push_vector(&mut out, "dt_bias", self.num_v_heads);
        push_vector(&mut out, "norm.weight", self.value_head_dim);
        assert(param_views(out@) =~= self.params());
        out
    }

    /// How the layer cuts up what it works on.
    pub open spec fn shapes(self, batch: usize) -> DeltaNetShapes {
        DeltaNetShapes {
            queries: Part { start: 0, len: self.key_dim() },
            keys: Part { start: self.key_dim(), len: self.key_dim() },
            values: Part { start: (2 * self.key_dim()) as usize, len: self.value_dim() },
            repeat: if self.num_v_heads > self.num_k_heads {
                Some((self.num_v_heads as int / self.num_k_heads as int) as usize)
            } else {
                None
            },
            state: (batch, self.num_v_heads, self.key_head_dim, self.value_head_dim),
            conv_dim: self.conv_dim(),
            value_dim: self.value_dim(),
        }
    }

    /// How the layer cuts up what it works on, for `batch` sequences.
    pub fn pass(&self, batch: usize) -> (r: DeltaNetShapes)
        requires
            self.wf(),
        ensures
            r == self.shapes(batch),
    {
        proof {
            lemma_dims(*self);
        }
        let key_dim: usize = self.num_k_heads * self.key_head_dim;
        let value_dim: usize = self.num_v_heads * self.value_head_dim;
        DeltaNetShapes {
            queries: Part { start: 0, len: key_dim },
            keys: Part { start: key_dim, len: key_dim },
            values: Part { start: key_dim * 2, len: value_dim },
            repeat: if self.num_v_heads > self.num_k_heads {
                Some(self.num_v_heads / self.num_k_heads)
            } else {
                None
            },
            state: (batch, self.num_v_heads, self.key_head_dim, self.value_head_dim),
            conv_dim: key_dim * 2 + value_dim,
            value_dim,
        }
    }
}

/// Queries, keys and values lie side by side, and together they are all that
/// the convolution gives.
pub proof fn law_parts_fill_the_channels(cfg: DeltaNetConfig, batch: usize)
    requires
        cfg.fits(),
    ensures
        ({
            let s = cfg.shapes(batch);
            &&& s.queries.start == 0
            &&& s.queries.start + s.queries.len == s.keys.start
            &&& s.keys.start + s.keys.len == s.values.start
            &&& s.values.start + s.values.len == s.conv_dim
        }),
{
    lemma_dims(cfg);
}

proof fn lemma_dims(cfg: DeltaNetConfig)
    requires
        cfg.fits(),
    ensures
        cfg.key_dim() == cfg.num_k_heads * cfg.key_head_dim,
        cfg.value_dim() == cfg.num_v_heads * cfg.value_head_dim,
        cfg.conv_dim() == 2 * cfg.key_dim() + cfg.value_dim(),
{
    assert(cfg.num_k_heads * cfg.key_head_dim >= 0) by (nonlinear_arith);
    assert(cfg.num_v_heads * cfg.value_head_dim >= 0) by (nonlinear_arith);
}

/// What the convolution sees: what it kept, then the chunk.
pub open spec fn padded<A>(kept: Seq<A>, chunk: Seq<A>) -> Seq<A> {
    kept + chunk
}

/// What the convolution keeps for the next chunk: the last `kernel - 1` steps.
pub open spec fn kept_after<A>(kept: Seq<A>, chunk: Seq<A>, kernel: nat) -> Seq<A> {
    let all = padded(kept, chunk);
    all.skip(all.len() - (kernel - 1))
}

/// The steps that decide the output for each step of a chunk: that step and the
/// `kernel - 1` before it.
pub open spec fn windows<A>(kept: Seq<A>, chunk: Seq<A>, kernel: nat) -> Seq<Seq<A>> {
    Seq::new(chunk.len(), |t: int| padded(kept, chunk).subrange(t, t + kernel))
}

/// Which of `total` padded steps a convolution over `kernel` steps keeps for
/// the next chunk.
pub fn conv_state(total: usize, kernel: usize) -> (r: Part)
    requires
        kernel >= 1,
        total >= kernel - 1,
    ensures
        r == (Part { start: (total - (kernel - 1)) as usize, len: (kernel - 1) as usize }),
{
    Part { start: total - (kernel - 1), len: kernel - 1 }
}

/// What is kept always has the same length.
pub proof fn law_as_much_is_kept_each_time<A>(kept: Seq<A>, chunk: Seq<A>, kernel: nat)
    requires
        kernel >= 1,
        kept.len() == kernel - 1,
    ensures
        kept_after(kept, chunk, kernel).len() == kernel - 1,
{
}

/// A sequence gives the same windows whether it comes at once or in two chunks:
/// what is kept of the first is all that the second needs.
pub proof fn law_chunks_see_the_same_windows<A>(
    kept: Seq<A>,
    first: Seq<A>,
    second: Seq<A>,
    kernel: nat,
)
    requires
        kernel >= 1,
        kept.len() == kernel - 1,
    ensures
        windows(kept, first + second, kernel) == windows(kept, first, kernel) + windows(
            kept_after(kept, first, kernel),
            second,
            kernel,
        ),
        kept_after(kept, first + second, kernel) == kept_after(
            kept_after(kept, first, kernel),
            second,
            kernel,
        ),
{
    let next = kept_after(kept, first, kernel);
    let whole = windows(kept, first + second, kernel);
    let parts = windows(kept, first, kernel) + windows(next, second, kernel);
    assert(whole.len() == parts.len());
    assert forall|t: int| 0 <= t < whole.len() implies whole[t] == parts[t] by {
        if t < first.len() {
            assert(padded(kept, first + second).subrange(t, t + kernel) =~= padded(
                kept,
                first,
            ).subrange(t, t + kernel));
        } else {
            let u = t - first.len();
            assert(padded(kept, first + second).subrange(t, t + kernel) =~= padded(
                next,
                second,
            ).subrange(u, u + kernel));
        }
    }
    assert(whole =~= parts);
    assert(kept_after(kept, first + second, kernel) =~= kept_after(next, second, kernel));
}

} // verus!
