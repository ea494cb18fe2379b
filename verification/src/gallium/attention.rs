//! Attention between the heads of a layer: the tensors it is made of, and how
//! they are shaped on the way through.

use super::params::{linear, param_views, push_linear, push_vector, vector, Param, ParamModel};
use vstd::prelude::*;

verus! {

/// What an attention layer is like.
#[derive(Debug, Clone, Copy, PartialEq, Eq, Structural)]
pub struct AttentionConfig {
    pub hidden_size: usize,
    pub num_q_heads: usize,
    pub num_kv_heads: usize,
    pub head_dim: usize,
    /// Whether projections have a bias.
    pub attn_bias: bool,
    /// Whether keys and values share one projection.
    pub shared_kv: bool,
    /// Whether queries are normalised, head by head.
    pub q_norm: bool,
    /// Whether keys are normalised, head by head.
    pub k_norm: bool,
    /// Whether values are normalised, without a scale of their own.
    pub v_norm: bool,
    /// Whether each head has a sink: one more place for attention to go.
    pub attn_sinks: bool,
    /// Whether the query projection also gives a gate for the output.
    pub q_output_gate: bool,
    /// Whether normalisation weights are stored as differences from one.
    pub norm_one_plus: bool,
}

impl Default for AttentionConfig {
    fn default() -> (r: Self)
        ensures
            r == (AttentionConfig {
                hidden_size: 4096,
                num_q_heads: 32,
                num_kv_heads: 32,
                head_dim: 128,
                attn_bias: false,
                shared_kv: false,
                q_norm: false,
                k_norm: false,
                v_norm: false,
                attn_sinks: false,
                q_output_gate: false,
                norm_one_plus: false,
            }),
    {
        AttentionConfig {
            hidden_size: 4096,
            num_q_heads: 32,
            num_kv_heads: 32,
            head_dim: 128,
            attn_bias: false,
            shared_kv: false,
            q_norm: false,
            k_norm: false,
            v_norm: false,
            attn_sinks: false,
            q_output_gate: false,
            norm_one_plus: false,
        }
    }
}

impl AttentionConfig {
    /// The sizes of the layer's tensors can be counted.
    pub open spec fn fits(self) -> bool {
        &&& self.num_q_heads * self.head_dim <= usize::MAX
        &&& self.q_output_gate ==> 2 * (self.num_q_heads * self.head_dim) <= usize::MAX
        &&& self.num_kv_heads * self.head_dim <= usize::MAX
    }

    /// The sizes on the way through can be counted, and there are keys to share.
    pub open spec fn passable(self) -> bool {
        &&& self.fits()
        &&& self.num_kv_heads > 0
        &&& self.q_output_gate ==> 2 * self.head_dim <= usize::MAX
    }

    /// The sizes can be counted, and the queries are shared out evenly.
    pub open spec fn wf(self) -> bool {
        self.passable() && self.num_q_heads % self.num_kv_heads == 0
    }

    /// How many numbers all queries of a position are.
    pub open spec fn q_dim(self) -> usize {
        (self.num_q_heads * self.head_dim) as usize
    }

    /// How many numbers all keys of a position are.
    pub open spec fn kv_dim(self) -> usize {
        (self.num_kv_heads * self.head_dim) as usize
    }

    /// How many numbers the query projection gives: a gate beside each query,
    /// where there is one.
    pub open spec fn q_proj_dim(self) -> usize {
        if self.q_output_gate {
            (2 * self.q_dim()) as usize
        } else {
            self.q_dim()
        }
    }

    /// The tensors that the layer is made of.
    pub open spec fn params(self) -> Seq<ParamModel> {
        let projections = linear("q_proj"@, self.hidden_size, self.q_proj_dim(), self.attn_bias)
            + linear("k_proj"@, self.hidden_size, self.kv_dim(), self.attn_bias) + (
        if self.shared_kv {
            Seq::empty()
        } else {
            linear("v_proj"@, self.hidden_size, self.kv_dim(), self.attn_bias)
        }) + linear("o_proj"@, self.q_dim(), self.hidden_size, self.attn_bias);
        let q = if self.q_norm {
            projections.push(vector("q_norm.weight"@, self.head_dim))
        } else {
            projections
        };
        let k = if self.k_norm {
            q.push(vector("k_norm.weight"@, self.head_dim))
        } else {
            q
        };
        if self.attn_sinks {
            k.push(vector("sinks"@, self.num_q_heads))
        } else {
            k
        }
    }

    /// The tensors that the layer is made of.
    pub fn parameters(&self) -> (r: Vec<Param>)
        requires
            self.fits(),
        ensures
            param_views(r@) == self.params(),
    {
        let q_dim: usize = self.num_q_heads * self.head_dim;
        let kv_dim: usize = self.num_kv_heads * self.head_dim;
        let q_proj_dim: usize = if self.q_output_gate {
            2 * q_dim
        } else {
            q_dim
        };
        let mut out: Vec<Param> = Vec::new();
        assert(param_views(out@) =~= Seq::<ParamModel>::empty());
        push_linear(&mut out, "q_proj", self.hidden_size, q_proj_dim, self.attn_bias);
        push_linear(&mut out, "k_proj", self.hidden_size, kv_dim, self.attn_bias);
        if !self.shared_kv {
            push_linear(&mut out, "v_proj", self.hidden_size, kv_dim, self.attn_bias);
        }
        push_linear(&mut out, "o_proj", q_dim, self.hidden_size, self.attn_bias);
        if self.q_norm {
            push_vector(&mut out, "q_norm.weight", self.head_dim);
        }
        if self.k_norm {
            push_vector(&mut out, "k_norm.weight", self.head_dim);
        }
        if self.attn_sinks {
            push_vector(&mut out, "sinks", self.num_q_heads);
        }
        assert(param_views(out@) =~= self.params());
        out
    }

    /// How many query heads share each key and value head.
    pub open spec fn repeat(self) -> usize {
        (self.num_q_heads as int / self.num_kv_heads as int) as usize
    }

    /// The shapes on the way through the layer, for `batch` sequences of
    /// `seq_len` positions that look back at `total`.
    pub open spec fn shapes(self, batch: usize, seq_len: usize, total: usize) -> AttentionShapes {
        AttentionShapes {
            gate: if self.q_output_gate {
                Some((batch, seq_len, self.num_q_heads, (2 * self.head_dim) as usize))
            } else {
                None
            },
            queries: (batch, seq_len, self.num_q_heads, self.head_dim),
            keys: (batch, seq_len, self.num_kv_heads, self.head_dim),
            repeated: if self.num_q_heads != self.num_kv_heads {
                Some((batch, self.num_kv_heads, self.repeat(), total, self.head_dim))
            } else {
                None
            },
            all_keys: (batch, self.num_q_heads, total, self.head_dim),
            sinks: if self.attn_sinks {
                Some((batch, self.num_q_heads, seq_len, 1))
            } else {
                None
            },
            out: (batch, seq_len, self.q_dim()),
        }
    }

    /// The shapes on the way through the layer.
    pub fn pass(&self, batch: usize, seq_len: usize, total: usize) -> (r: AttentionShapes)
        requires
            self.passable(),
        ensures
            r == self.shapes(batch, seq_len, total),
    {
        let (h, h_kv, d) = (self.num_q_heads, self.num_kv_heads, self.head_dim);
        proof {
            let (q, kv) = (h as int, h_kv as int);
            vstd::arithmetic::div_mod::lemma_div_pos_is_pos(q, kv);
            vstd::arithmetic::div_mod::lemma_div_is_ordered_by_denominator(q, 1, kv);
        }
        AttentionShapes {
            gate: if self.q_output_gate {
                Some((batch, seq_len, h, 2 * d))
            } else {
                None
            },
            queries: (batch, seq_len, h, d),
            keys: (batch, seq_len, h_kv, d),
            repeated: if h != h_kv {
                Some((batch, h_kv, h / h_kv, total, d))
            } else {
                None
            },
            all_keys: (batch, h, total, d),
            sinks: if self.attn_sinks {
                Some((batch, h, seq_len, 1))
            } else {
                None
            },
            out: (batch, seq_len, h * d),
        }
    }
}

/// The shapes of what goes through an attention layer.
#[derive(Debug, Clone, Copy, PartialEq, Eq)]
pub struct AttentionShapes {
    /// What the query projection gives where the output is gated: each head's
    /// query, and behind it what its output is scaled by.
    pub gate: Option<(usize, usize, usize, usize)>,
    /// Queries, before heads are brought in front of positions.
    pub queries: (usize, usize, usize, usize),
    /// Keys and values, before heads are brought in front of positions.
    pub keys: (usize, usize, usize, usize),
    /// Keys and values with each head repeated, where query heads share them.
    pub repeated: Option<(usize, usize, usize, usize, usize)>,
    /// Keys and values, a head for each query head.
    pub all_keys: (usize, usize, usize, usize),
    /// The sinks, a column beside the scores.
    pub sinks: Option<(usize, usize, usize, usize)>,
    /// What goes into the output projection.
    pub out: (usize, usize, usize),
}

/// How many elements a shape holds.
pub open spec fn count3(s: (usize, usize, usize)) -> int {
    s.0 * s.1 * s.2
}

/// How many elements a shape holds.
pub open spec fn count4(s: (usize, usize, usize, usize)) -> int {
    s.0 * s.1 * s.2 * s.3
}

/// How many elements a shape holds.
pub open spec fn count5(s: (usize, usize, usize, usize, usize)) -> int {
    s.0 * s.1 * s.2 * s.3 * s.4
}

/// Every change of shape on the way through keeps the number of elements: what
/// a projection gives is what the heads take, a repeated key or value fills its
/// head, and what the heads give is what the output projection takes.
pub proof fn law_shapes_keep_every_element(
    cfg: AttentionConfig,
    batch: usize,
    seq_len: usize,
    total: usize,
)
    requires
        cfg.wf(),
    ensures
        ({
            let s = cfg.shapes(batch, seq_len, total);
            &&& s.gate matches Some(g) ==> count4(g) == count3((batch, seq_len, cfg.q_proj_dim()))
            &&& s.gate is None ==> count4(s.queries) == count3((batch, seq_len, cfg.q_proj_dim()))
            &&& count4(s.keys) == count3((batch, seq_len, cfg.kv_dim()))
            &&& s.repeated matches Some(r) ==> count5(r) == count4(s.all_keys)
            &&& s.repeated is None ==> s.all_keys == (
                batch,
                cfg.num_kv_heads,
                total,
                cfg.head_dim,
            )
            &&& count4(s.queries) == count3(s.out)
        }),
{
    let (b, s, t) = (batch as int, seq_len as int, total as int);
    let (h, kv, d) = (cfg.num_q_heads as int, cfg.num_kv_heads as int, cfg.head_dim as int);
    lemma_repeat(cfg);
    let rep = cfg.repeat() as int;
    assert(b * s * h * (2 * d) == b * s * (2 * (h * d))) by (nonlinear_arith);
    assert(b * s * h * d == b * s * (h * d)) by (nonlinear_arith);
    assert(b * s * kv * d == b * s * (kv * d)) by (nonlinear_arith);
    assert(b * kv * rep * t * d == b * h * t * d) by (nonlinear_arith)
        requires
            rep * kv == h,
    ;
}

proof fn lemma_repeat(cfg: AttentionConfig)
    requires
        cfg.wf(),
    ensures
        cfg.repeat() * cfg.num_kv_heads == cfg.num_q_heads,
        cfg.repeat() == cfg.num_q_heads as int / cfg.num_kv_heads as int,
{
    let (q, kv) = (cfg.num_q_heads as int, cfg.num_kv_heads as int);
    vstd::arithmetic::div_mod::lemma_fundamental_div_mod(q, kv);
    vstd::arithmetic::div_mod::lemma_div_pos_is_pos(q, kv);
    vstd::arithmetic::div_mod::lemma_div_is_ordered_by_denominator(q, 1, kv);
    assert(kv * (q / kv) == (q / kv) * kv) by (nonlinear_arith);
}

/// Each query head looks at one key head, and each key head is looked at by the
/// same number of query heads, side by side.
pub proof fn law_queries_share_keys_evenly(cfg: AttentionConfig, q: int)
    requires
        cfg.wf(),
        0 <= q < cfg.num_q_heads,
    ensures
        cfg.repeat() > 0,
        0 <= q / (cfg.repeat() as int) < cfg.num_kv_heads,
        0 <= q % (cfg.repeat() as int) < cfg.repeat(),
        q == (q / (cfg.repeat() as int)) * cfg.repeat() + q % (cfg.repeat() as int),
{
    lemma_repeat(cfg);
    let (rep, kv) = (cfg.repeat() as int, cfg.num_kv_heads as int);
    assert(rep > 0) by (nonlinear_arith)
        requires
            rep * kv == cfg.num_q_heads,
            cfg.num_q_heads > 0,
            kv > 0,
    ;
    vstd::arithmetic::div_mod::lemma_fundamental_div_mod(q, rep);
    vstd::arithmetic::div_mod::lemma_mod_bound(q, rep);
    vstd::arithmetic::div_mod::lemma_div_pos_is_pos(q, rep);
    assert(rep * (q / rep) == (q / rep) * rep) by (nonlinear_arith);
    assert(q / rep < kv) by (nonlinear_arith)
        requires
            rep * (q / rep) <= q,
            q < rep * kv,
            rep > 0,
    ;
}

/// Which rows of the table of angles a chunk of positions uses, where the table
/// is long enough.
pub fn rotary_rows(pos: usize, seq_len: usize, max_seq_len: usize) -> (r: Option<(usize, usize)>)
    ensures
        r == (if pos + seq_len <= max_seq_len {
            Some((pos, seq_len))
        } else {
            None
        }),
{
    if pos <= max_seq_len && seq_len <= max_seq_len - pos {
        Some((pos, seq_len))
    } else {
        None
    }
}

/// How many numbers of a head are turned and how many are passed on as they
/// are, where not all of them are turned.
pub fn rotary_parts(rotary_dim: usize, head_dim: usize) -> (r: Option<(usize, usize)>)
    requires
        rotary_dim <= head_dim,
    ensures
        r == (if rotary_dim == head_dim {
            None
        } else {
            Some((rotary_dim, (head_dim - rotary_dim) as usize))
        }),
{
    if rotary_dim == head_dim {
        None
    } else {
        Some((rotary_dim, head_dim - rotary_dim))
    }
}

} // verus!
