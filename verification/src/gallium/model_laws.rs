//! What the layers of a model read and how they shape it, and what each choice
//! in a configuration is for.

use super::attention::AttentionConfig;
use super::blocks::{
    e2m1_doubled, e8m0_bits, f32_of_f16, law_a_subnormal_keeps_its_value, mxfp4_at, norm_shift,
    normalized,
};
use super::cache::{latest, target, LayerKind};
use super::ffn::{activation_named, gated_params, is_top, Activation, ExpertsConfig};
use super::generate::GenerationModel;
use super::kernels::KernelSet;
use super::linear_attn::DeltaNetConfig;
use super::mask::{in_future, out_of_window};
use super::params::{linear, vector, ParamModel};
use super::quant::{levels, TurboQuantConfig, TurboQuantMode};
use crate::text::decimal;
use vstd::arithmetic::power2::{lemma_pow2_adds, lemma_pow2_pos, pow2};
use vstd::prelude::*;

verus! {

/// Whether a tensor of this name and shape is among those a layer reads.
pub open spec fn reads(params: Seq<ParamModel>, name: Seq<char>, shape: Seq<usize>) -> bool {
    params.contains(ParamModel { name, shape })
}

/// Whether some tensor of this name is among those a layer reads.
pub open spec fn names(params: Seq<ParamModel>, name: Seq<char>) -> bool {
    exists|i: int| 0 <= i < params.len() && (#[trigger] params[i]).name == name
}

proof fn lemma_reads_concat(a: Seq<ParamModel>, b: Seq<ParamModel>, p: ParamModel)
    ensures
        (a + b).contains(p) <==> a.contains(p) || b.contains(p),
{
    let all = a + b;
    if a.contains(p) {
        let i = choose|i: int| 0 <= i < a.len() && a[i] == p;
        assert(all[i] == p);
    }
    if b.contains(p) {
        let i = choose|i: int| 0 <= i < b.len() && b[i] == p;
        assert(all[a.len() + i] == p);
    }
}

proof fn lemma_names_concat(a: Seq<ParamModel>, b: Seq<ParamModel>, name: Seq<char>)
    ensures
        names(a + b, name) <==> names(a, name) || names(b, name),
{
    let all = a + b;
    if names(a, name) {
        let i = choose|i: int| 0 <= i < a.len() && (#[trigger] a[i]).name == name;
        assert(all[i].name == name);
    }
    if names(b, name) {
        let i = choose|i: int| 0 <= i < b.len() && (#[trigger] b[i]).name == name;
        assert(all[a.len() + i].name == name);
    }
    if names(all, name) {
        let i = choose|i: int| 0 <= i < all.len() && (#[trigger] all[i]).name == name;
        if i < a.len() {
            assert(a[i].name == name);
        } else {
            assert(b[i - a.len()].name == name);
        }
    }
}

/// A projection is a matrix from what comes in to what goes out, and, where one
/// is asked for, a bias as long as what goes out; under one name.
pub proof fn law_a_projection_is_a_matrix_and_its_bias(
    name: Seq<char>,
    inputs: usize,
    outputs: usize,
    bias: bool,
    other: Seq<char>,
)
    ensures
        ({
            let p = linear(name, inputs, outputs, bias);
            &&& reads(p, name + ".weight"@, seq![outputs, inputs])
            &&& bias ==> reads(p, name + ".bias"@, seq![outputs]) && p.len() == 2
            &&& !bias ==> p.len() == 1
            &&& names(p, other) <==> other == name + ".weight"@ || (bias && other == name
                + ".bias"@)
        }),
{
    let p = linear(name, inputs, outputs, bias);
    assert(p[0].name == name + ".weight"@);
    assert(p[0] == (ParamModel { name: name + ".weight"@, shape: seq![outputs, inputs] }));
    if bias {
        assert(p[1] == (ParamModel { name: name + ".bias"@, shape: seq![outputs] }));
        assert(p[1].name == name + ".bias"@);
    }
}

proof fn lemma_attention_names()
    ensures
        "q_proj"@ + ".weight"@ == "q_proj.weight"@,
        "k_proj"@ + ".weight"@ == "k_proj.weight"@,
        "v_proj"@ + ".weight"@ == "v_proj.weight"@,
        "o_proj"@ + ".weight"@ == "o_proj.weight"@,
        "q_proj"@ + ".bias"@ == "q_proj.bias"@,
        "k_proj"@ + ".bias"@ == "k_proj.bias"@,
        "v_proj"@ + ".bias"@ == "v_proj.bias"@,
        "o_proj"@ + ".bias"@ == "o_proj.bias"@,
        "q_proj.weight"@.len() == 13 && "q_proj.weight"@[0] == 'q' && "q_proj.weight"@[2] == 'p',
        "k_proj.weight"@.len() == 13 && "k_proj.weight"@[0] == 'k' && "k_proj.weight"@[2] == 'p',
        "v_proj.weight"@.len() == 13 && "v_proj.weight"@[0] == 'v',
        "o_proj.weight"@.len() == 13 && "o_proj.weight"@[0] == 'o',
        "q_proj.bias"@.len() == 11 && "q_proj.bias"@[0] == 'q',
        "k_proj.bias"@.len() == 11 && "k_proj.bias"@[0] == 'k',
        "v_proj.bias"@.len() == 11 && "v_proj.bias"@[0] == 'v',
        "o_proj.bias"@.len() == 11 && "o_proj.bias"@[0] == 'o',
        "q_norm.weight"@.len() == 13 && "q_norm.weight"@[0] == 'q' && "q_norm.weight"@[2] == 'n',
        "k_norm.weight"@.len() == 13 && "k_norm.weight"@[0] == 'k' && "k_norm.weight"@[2] == 'n',
        "sinks"@.len() == 5,
{
    reveal_strlit("q_proj");
    reveal_strlit("k_proj");
    reveal_strlit("v_proj");
    reveal_strlit("o_proj");
    reveal_strlit(".weight");
    reveal_strlit(".bias");
    reveal_strlit("q_proj.weight");
    reveal_strlit("k_proj.weight");
    reveal_strlit("v_proj.weight");
    reveal_strlit("o_proj.weight");
    reveal_strlit("q_proj.bias");
    reveal_strlit("k_proj.bias");
    reveal_strlit("v_proj.bias");
    reveal_strlit("o_proj.bias");
    reveal_strlit("q_norm.weight");
    reveal_strlit("k_norm.weight");
    reveal_strlit("sinks");
    assert("q_proj"@ + ".weight"@ =~= "q_proj.weight"@);
    assert("k_proj"@ + ".weight"@ =~= "k_proj.weight"@);
    assert("v_proj"@ + ".weight"@ =~= "v_proj.weight"@);
    assert("o_proj"@ + ".weight"@ =~= "o_proj.weight"@);
    assert("q_proj"@ + ".bias"@ =~= "q_proj.bias"@);
    assert("k_proj"@ + ".bias"@ =~= "k_proj.bias"@);
    assert("v_proj"@ + ".bias"@ =~= "v_proj.bias"@);
    assert("o_proj"@ + ".bias"@ =~= "o_proj.bias"@);
}

/// The parts that an attention layer's tensors are made of, for a tensor's name
/// and for a tensor.
#[verifier::rlimit(40)]
proof fn lemma_attention_parts(c: AttentionConfig, p: ParamModel)
    ensures
        ({
            let q = linear("q_proj"@, c.hidden_size, c.q_proj_dim(), c.attn_bias);
            let k = linear("k_proj"@, c.hidden_size, c.kv_dim(), c.attn_bias);
            let v = linear("v_proj"@, c.hidden_size, c.kv_dim(), c.attn_bias);
            let o = linear("o_proj"@, c.q_dim(), c.hidden_size, c.attn_bias);
            let qn = vector("q_norm.weight"@, c.head_dim);
            let kn = vector("k_norm.weight"@, c.head_dim);
            let s = vector("sinks"@, c.num_q_heads);
            &&& c.params().contains(p) <==> {
                ||| q.contains(p)
                ||| k.contains(p)
                ||| !c.shared_kv && v.contains(p)
                ||| o.contains(p)
                ||| c.q_norm && p == qn
                ||| c.k_norm && p == kn
                ||| c.attn_sinks && p == s
            }
            &&& names(c.params(), p.name) <==> {
                ||| names(q, p.name)
                ||| names(k, p.name)
                ||| !c.shared_kv && names(v, p.name)
                ||| names(o, p.name)
                ||| c.q_norm && p.name == qn.name
                ||| c.k_norm && p.name == kn.name
                ||| c.attn_sinks && p.name == s.name
            }
        }),
{
    let q = linear("q_proj"@, c.hidden_size, c.q_proj_dim(), c.attn_bias);
    let k = linear("k_proj"@, c.hidden_size, c.kv_dim(), c.attn_bias);
    let v = if c.shared_kv {
        Seq::empty()
    } else {
        linear("v_proj"@, c.hidden_size, c.kv_dim(), c.attn_bias)
    };
    let o = linear("o_proj"@, c.q_dim(), c.hidden_size, c.attn_bias);
    let a = q + k + v + o;
    lemma_reads_concat(q, k, p);
    lemma_reads_concat(q + k, v, p);
    lemma_reads_concat(q + k + v, o, p);
    lemma_names_concat(q, k, p.name);
    lemma_names_concat(q + k, v, p.name);
    lemma_names_concat(q + k + v, o, p.name);
    let qn = vector("q_norm.weight"@, c.head_dim);
    let b = if c.q_norm {
        a.push(qn)
    } else {
        a
    };
    lemma_pushed(a, qn, p);
    let kn = vector("k_norm.weight"@, c.head_dim);
    lemma_pushed(b, kn, p);
    let d = if c.k_norm {
        b.push(kn)
    } else {
        b
    };
    lemma_pushed(d, vector("sinks"@, c.num_q_heads), p);
}

proof fn lemma_pushed(a: Seq<ParamModel>, x: ParamModel, p: ParamModel)
    ensures
        a.push(x).contains(p) <==> a.contains(p) || p == x,
        names(a.push(x), p.name) <==> names(a, p.name) || p.name == x.name,
{
    assert(a.push(x) =~= a + seq![x]);
    lemma_reads_concat(a, seq![x], p);
    lemma_names_concat(a, seq![x], p.name);
    assert(seq![x][0] == x);
}

/// An attention layer projects its input to the queries and to the keys, to the
/// values too unless they are the keys, and what is attended to back to the
/// output. The queries are twice as wide where they carry a gate.
pub proof fn law_attention_reads_its_projections(c: AttentionConfig)
    requires
        c.fits(),
    ensures
        ({
            let p = c.params();
            let q = c.num_q_heads * c.head_dim;
            let kv = (c.num_kv_heads * c.head_dim) as usize;
            let wide = (if c.q_output_gate {
                2 * q
            } else {
                q
            }) as usize;
            &&& reads(p, "q_proj.weight"@, seq![wide, c.hidden_size])
            &&& reads(p, "k_proj.weight"@, seq![kv, c.hidden_size])
            &&& reads(p, "o_proj.weight"@, seq![c.hidden_size, q as usize])
            &&& !c.shared_kv ==> reads(p, "v_proj.weight"@, seq![kv, c.hidden_size])
            &&& names(p, "v_proj.weight"@) <==> !c.shared_kv
        }),
{
    lemma_attention_names();
    let q = (c.num_q_heads * c.head_dim) as usize;
    let h = c.hidden_size;
    law_a_projection_is_a_matrix_and_its_bias(
        "q_proj"@,
        h,
        c.q_proj_dim(),
        c.attn_bias,
        "v_proj.weight"@,
    );
    law_a_projection_is_a_matrix_and_its_bias(
        "k_proj"@,
        h,
        c.kv_dim(),
        c.attn_bias,
        "v_proj.weight"@,
    );
    law_a_projection_is_a_matrix_and_its_bias(
        "v_proj"@,
        h,
        c.kv_dim(),
        c.attn_bias,
        "v_proj.weight"@,
    );
    law_a_projection_is_a_matrix_and_its_bias(
        "o_proj"@,
        c.q_dim(),
        h,
        c.attn_bias,
        "v_proj.weight"@,
    );
    lemma_attention_parts(
        c,
        ParamModel { name: "q_proj.weight"@, shape: seq![c.q_proj_dim(), h] },
    );
    lemma_attention_parts(c, ParamModel { name: "k_proj.weight"@, shape: seq![c.kv_dim(), h] });
    lemma_attention_parts(c, ParamModel { name: "v_proj.weight"@, shape: seq![c.kv_dim(), h] });
    lemma_attention_parts(c, ParamModel { name: "o_proj.weight"@, shape: seq![h, q] });
}

/// Where an attention layer has biases, every projection that it has has one, as
/// long as what the projection puts out; where it has none, no projection has.
pub proof fn law_every_projection_has_its_bias(c: AttentionConfig)
    requires
        c.fits(),
    ensures
        ({
            let p = c.params();
            let q = c.num_q_heads * c.head_dim;
            let kv = (c.num_kv_heads * c.head_dim) as usize;
            let wide = (if c.q_output_gate {
                2 * q
            } else {
                q
            }) as usize;
            &&& c.attn_bias ==> {
                &&& reads(p, "q_proj.bias"@, seq![wide])
                &&& reads(p, "k_proj.bias"@, seq![kv])
                &&& reads(p, "o_proj.bias"@, seq![c.hidden_size])
                &&& !c.shared_kv ==> reads(p, "v_proj.bias"@, seq![kv])
            }
            &&& names(p, "q_proj.bias"@) <==> c.attn_bias
            &&& names(p, "k_proj.bias"@) <==> c.attn_bias
            &&& names(p, "o_proj.bias"@) <==> c.attn_bias
            &&& names(p, "v_proj.bias"@) <==> c.attn_bias && !c.shared_kv
        }),
{
    lemma_attention_names();
    let h = c.hidden_size;
    lemma_bias(c, "q_proj.bias"@, c.q_proj_dim());
    lemma_bias(c, "k_proj.bias"@, c.kv_dim());
    lemma_bias(c, "v_proj.bias"@, c.kv_dim());
    lemma_bias(c, "o_proj.bias"@, h);
}

proof fn lemma_bias(c: AttentionConfig, name: Seq<char>, len: usize)
    ensures
        ({
            let q = linear("q_proj"@, c.hidden_size, c.q_proj_dim(), c.attn_bias);
            let k = linear("k_proj"@, c.hidden_size, c.kv_dim(), c.attn_bias);
            let v = linear("v_proj"@, c.hidden_size, c.kv_dim(), c.attn_bias);
            let o = linear("o_proj"@, c.q_dim(), c.hidden_size, c.attn_bias);
            let p = ParamModel { name, shape: seq![len] };
            &&& c.params().contains(p) <== {
                ||| q.contains(p)
                ||| k.contains(p)
                ||| !c.shared_kv && v.contains(p)
                ||| o.contains(p)
            }
            &&& c.attn_bias ==> {
                &&& q.contains(
                    ParamModel { name: "q_proj"@ + ".bias"@, shape: seq![c.q_proj_dim()] },
                )
                &&& k.contains(ParamModel { name: "k_proj"@ + ".bias"@, shape: seq![c.kv_dim()] })
                &&& v.contains(ParamModel { name: "v_proj"@ + ".bias"@, shape: seq![c.kv_dim()] })
                &&& o.contains(
                    ParamModel { name: "o_proj"@ + ".bias"@, shape: seq![c.hidden_size] },
                )
            }
            &&& names(c.params(), name) <==> {
                ||| name == "q_proj"@ + ".weight"@ || (c.attn_bias && name == "q_proj"@ + ".bias"@)
                ||| name == "k_proj"@ + ".weight"@ || (c.attn_bias && name == "k_proj"@ + ".bias"@)
                ||| !c.shared_kv && (name == "v_proj"@ + ".weight"@ || (c.attn_bias && name
                    == "v_proj"@ + ".bias"@))
                ||| name == "o_proj"@ + ".weight"@ || (c.attn_bias && name == "o_proj"@ + ".bias"@)
                ||| c.q_norm && name == "q_norm.weight"@
                ||| c.k_norm && name == "k_norm.weight"@
                ||| c.attn_sinks && name == "sinks"@
            }
        }),
{
    let h = c.hidden_size;
    let b = c.attn_bias;
    lemma_attention_parts(c, ParamModel { name, shape: seq![len] });
    law_a_projection_is_a_matrix_and_its_bias("q_proj"@, h, c.q_proj_dim(), b, name);
    law_a_projection_is_a_matrix_and_its_bias("k_proj"@, h, c.kv_dim(), b, name);
    law_a_projection_is_a_matrix_and_its_bias("v_proj"@, h, c.kv_dim(), b, name);
    law_a_projection_is_a_matrix_and_its_bias("o_proj"@, c.q_dim(), h, b, name);
}

/// An attention layer's norms and sinks are read where they are asked for, and
/// only there: a norm is as long as a head, and there is a sink for each query
/// head.
pub proof fn law_norms_and_sinks_are_read_where_asked_for(c: AttentionConfig)
    ensures
        ({
            let p = c.params();
            &&& c.q_norm ==> reads(p, "q_norm.weight"@, seq![c.head_dim])
            &&& c.k_norm ==> reads(p, "k_norm.weight"@, seq![c.head_dim])
            &&& c.attn_sinks ==> reads(p, "sinks"@, seq![c.num_q_heads])
            &&& names(p, "q_norm.weight"@) <==> c.q_norm
            &&& names(p, "k_norm.weight"@) <==> c.k_norm
            &&& names(p, "sinks"@) <==> c.attn_sinks
            &&& !names(p, "v_norm.weight"@)
        }),
{
    lemma_attention_names();
    lemma_bias(c, "q_norm.weight"@, c.head_dim);
    lemma_bias(c, "k_norm.weight"@, c.head_dim);
    lemma_bias(c, "sinks"@, c.num_q_heads);
    reveal_strlit("v_norm.weight");
    assert("v_norm.weight"@[0] == 'v' && "v_norm.weight"@[2] == 'n');
    assert("v_proj.weight"@[2] == 'p') by {
        reveal_strlit("v_proj.weight");
    }
    lemma_bias(c, "v_norm.weight"@, c.head_dim);
    lemma_attention_parts(c, vector("q_norm.weight"@, c.head_dim));
    lemma_attention_parts(c, vector("k_norm.weight"@, c.head_dim));
    lemma_attention_parts(c, vector("sinks"@, c.num_q_heads));
}

/// An attention layer reads nothing else: as many tensors as it has projections,
/// biases, norms and sinks.
pub proof fn law_attention_reads_nothing_else(c: AttentionConfig)
    ensures
        c.params().len() == (if c.shared_kv {
            3int
        } else {
            4
        }) * (if c.attn_bias {
            2int
        } else {
            1
        }) + (if c.q_norm {
            1int
        } else {
            0
        }) + (if c.k_norm {
            1int
        } else {
            0
        }) + (if c.attn_sinks {
            1int
        } else {
            0
        }),
{
}

/// Each axis of an attention layer's shapes is what it stands for: which of the
/// batch, which position, which head, and where in the head. Keys are repeated
/// where there are fewer heads of them than of queries.
pub proof fn law_axes_are_what_they_stand_for(
    c: AttentionConfig,
    batch: usize,
    seq_len: usize,
    total: usize,
)
    requires
        c.passable(),
    ensures
        ({
            let s = c.shapes(batch, seq_len, total);
            &&& s.queries.0 == batch && s.keys.0 == batch && s.all_keys.0 == batch && s.out.0
                == batch
            &&& s.queries.1 == seq_len && s.keys.1 == seq_len && s.out.1 == seq_len
            &&& s.queries.2 == c.num_q_heads && s.keys.2 == c.num_kv_heads
            &&& s.queries.3 == c.head_dim && s.keys.3 == c.head_dim
            &&& s.all_keys.1 == c.num_q_heads && s.all_keys.2 == total && s.all_keys.3
                == c.head_dim
            &&& s.out.2 == c.num_q_heads * c.head_dim
            &&& s.gate is Some <==> c.q_output_gate
            &&& s.gate matches Some(g) ==> g.0 == batch && g.1 == seq_len && g.2 == c.num_q_heads
                && g.3 == 2 * c.head_dim
            &&& s.repeated is Some <==> c.num_q_heads != c.num_kv_heads
            &&& s.repeated matches Some(r) ==> r.0 == batch && r.1 == c.num_kv_heads && r.3
                == total && r.4 == c.head_dim && r.2 == c.num_q_heads as int
                / c.num_kv_heads as int
            &&& s.sinks is Some <==> c.attn_sinks
            &&& s.sinks matches Some(k) ==> k.0 == batch && k.1 == c.num_q_heads && k.2 == seq_len
                && k.3 == 1
        }),
{
    let n = c.num_q_heads as int;
    let k = c.num_kv_heads as int;
    assert(0 <= n / k <= n) by (nonlinear_arith)
        requires
            n >= 0,
            k >= 1,
    ;
}

proof fn lemma_gated_names(name: Seq<char>)
    ensures
        name + "gate_proj"@ + ".weight"@ == name + "gate_proj.weight"@,
        name + "up_proj"@ + ".weight"@ == name + "up_proj.weight"@,
        name + "down_proj"@ + ".weight"@ == name + "down_proj.weight"@,
{
    reveal_strlit("gate_proj");
    reveal_strlit("up_proj");
    reveal_strlit("down_proj");
    reveal_strlit(".weight");
    reveal_strlit("gate_proj.weight");
    reveal_strlit("up_proj.weight");
    reveal_strlit("down_proj.weight");
    assert(name + "gate_proj"@ + ".weight"@ =~= name + "gate_proj.weight"@);
    assert(name + "up_proj"@ + ".weight"@ =~= name + "up_proj.weight"@);
    assert(name + "down_proj"@ + ".weight"@ =~= name + "down_proj.weight"@);
}

/// A gated layer has two matrices from the hidden size up to the intermediate
/// one, and a third back down.
pub proof fn law_a_gated_layer_goes_up_and_down(
    name: Seq<char>,
    hidden: usize,
    intermediate: usize,
)
    ensures
        ({
            let p = gated_params(name, hidden, intermediate);
            &&& p.len() == 3
            &&& reads(p, name + "gate_proj.weight"@, seq![intermediate, hidden])
            &&& reads(p, name + "up_proj.weight"@, seq![intermediate, hidden])
            &&& reads(p, name + "down_proj.weight"@, seq![hidden, intermediate])
        }),
{
    lemma_gated_names(name);
    let p = gated_params(name, hidden, intermediate);
    assert(p[0] == (ParamModel {
        name: name + "gate_proj.weight"@,
        shape: seq![intermediate, hidden],
    }));
    assert(p[1] == (ParamModel {
        name: name + "up_proj.weight"@,
        shape: seq![intermediate, hidden],
    }));
    assert(p[2] == (ParamModel {
        name: name + "down_proj.weight"@,
        shape: seq![hidden, intermediate],
    }));
}

/// Each expert is a gated layer of its own, under its number, and so is the
/// shared one, where there is one, at its own size; the router weighs each
/// expert.
pub proof fn law_each_expert_is_a_gated_layer(c: ExpertsConfig, e: nat)
    ensures
        ({
            let p = c.params();
            let name = "experts."@ + decimal(e) + "."@;
            &&& e < c.num_experts ==> {
                &&& reads(
                    p,
                    name + "gate_proj.weight"@,
                    seq![c.intermediate_size, c.hidden_size],
                )
                &&& reads(p, name + "up_proj.weight"@, seq![c.intermediate_size, c.hidden_size])
                &&& reads(p, name + "down_proj.weight"@, seq![c.hidden_size, c.intermediate_size])
            }
            &&& c.shared_expert_intermediate matches Some(inter) ==> {
                &&& reads(p, "shared_expert."@ + "gate_proj.weight"@, seq![inter, c.hidden_size])
                &&& reads(p, "shared_expert."@ + "up_proj.weight"@, seq![inter, c.hidden_size])
                &&& reads(p, "shared_expert."@ + "down_proj.weight"@, seq![c.hidden_size, inter])
            }
            &&& reads(p, "gate.weight"@, seq![c.num_experts, c.hidden_size])
            &&& p.len() == 3 * c.num_experts + (if c.shared_expert_intermediate is Some {
                3int
            } else {
                0
            }) + 1
        }),
{
    let own = c.expert_params(c.num_experts as nat);
    let shared = match c.shared_expert_intermediate {
        Some(inter) => gated_params("shared_expert."@, c.hidden_size, inter),
        None => Seq::empty(),
    };
    let gate = linear("gate"@, c.hidden_size, c.num_experts, false);
    reveal_strlit("gate");
    reveal_strlit(".weight");
    reveal_strlit("gate.weight");
    assert("gate"@ + ".weight"@ =~= "gate.weight"@);
    lemma_experts(c, c.num_experts as nat, e);
    assert forall|p: ParamModel| own.contains(p) || shared.contains(p) || gate.contains(
        p,
    ) implies #[trigger] c.params().contains(p) by {
        lemma_reads_concat(own, shared, p);
        lemma_reads_concat(own + shared, gate, p);
    }
    assert(gate[0] == (ParamModel {
        name: "gate.weight"@,
        shape: seq![c.num_experts, c.hidden_size],
    }));
    if let Some(inter) = c.shared_expert_intermediate {
        law_a_gated_layer_goes_up_and_down("shared_expert."@, c.hidden_size, inter);
    }
}

proof fn lemma_experts(c: ExpertsConfig, n: nat, e: nat)
    ensures
        c.expert_params(n).len() == 3 * n,
        e < n ==> {
            let p = c.expert_params(n);
            let name = "experts."@ + decimal(e) + "."@;
            &&& reads(p, name + "gate_proj.weight"@, seq![c.intermediate_size, c.hidden_size])
            &&& reads(p, name + "up_proj.weight"@, seq![c.intermediate_size, c.hidden_size])
            &&& reads(p, name + "down_proj.weight"@, seq![c.hidden_size, c.intermediate_size])
        },
    decreases n,
{
    if n > 0 {
        let m = (n - 1) as nat;
        lemma_experts(c, m, e);
        let before = c.expert_params(m);
        let last = gated_params(
            "experts."@ + decimal(m) + "."@,
            c.hidden_size,
            c.intermediate_size,
        );
        law_a_gated_layer_goes_up_and_down(
            "experts."@ + decimal(m) + "."@,
            c.hidden_size,
            c.intermediate_size,
        );
        assert forall|p: ParamModel| before.contains(p) || last.contains(
            p,
        ) implies #[trigger] c.expert_params(n).contains(p) by {
            lemma_reads_concat(before, last, p);
        }
    }
}

/// The experts that are chosen weigh at least as much as any that is not, come
/// heaviest first, and of two that weigh the same the lower number first; none
/// is chosen twice.
pub proof fn law_the_heaviest_experts_are_chosen(
    weights: Seq<u32>,
    chosen: Seq<usize>,
    k: int,
    i: int,
    j: int,
    e: int,
)
    requires
        is_top(weights, chosen, k),
        0 <= i < j < chosen.len(),
        0 <= e < weights.len(),
        e <= usize::MAX,
    ensures
        chosen.len() == (if k <= weights.len() {
            k
        } else {
            weights.len() as int
        }),
        weights[chosen[i] as int] >= weights[chosen[j] as int],
        weights[chosen[i] as int] == weights[chosen[j] as int] ==> chosen[i] < chosen[j],
        chosen[i] != chosen[j],
        !chosen.contains(e as usize) ==> weights[chosen[j] as int] >= weights[e],
        !chosen.contains(e as usize) && weights[chosen[j] as int] == weights[e] ==> chosen[j] < e,
{
    assert(super::ffn::ranked_before(weights, chosen[i] as int, chosen[j] as int));
    if !chosen.contains(e as usize) {
        assert(super::ffn::ranked_before(weights, chosen[j] as int, e));
    }
}

/// Each activation goes by its name, and by no other.
pub proof fn law_activations_by_name(name: Seq<char>)
    ensures
        activation_named("silu"@) == Some(Activation::Silu),
        activation_named("gelu"@) == Some(Activation::Gelu),
        activation_named("gelutanh"@) == Some(Activation::GeluTanh),
        activation_named("gelu_pytorch_tanh"@) == Some(Activation::GeluTanh),
        activation_named("relu"@) == Some(Activation::Relu),
        activation_named(name) is Some ==> name == "silu"@ || name == "gelu"@ || name
            == "gelutanh"@ || name == "gelu_pytorch_tanh"@ || name == "relu"@,
{
    reveal_strlit("silu");
    reveal_strlit("gelu");
    reveal_strlit("gelutanh");
    reveal_strlit("gelu_pytorch_tanh");
    reveal_strlit("relu");
    assert("silu"@.len() == 4 && "silu"@[0] == 's');
    assert("gelu"@.len() == 4 && "gelu"@[0] == 'g');
    assert("relu"@.len() == 4 && "relu"@[0] == 'r');
    assert("gelutanh"@.len() == 8);
    assert("gelu_pytorch_tanh"@.len() == 17);
}

/// A delta-net layer projects its input to the queries, keys and values in one,
/// to a gate as wide as the values, and to two numbers for each value head; the
/// values go back to the output. The convolution runs over the queries, keys and
/// values, channel by channel.
#[verifier::rlimit(40)]
pub proof fn law_a_delta_net_reads_its_tensors(c: DeltaNetConfig)
    requires
        c.fits(),
    ensures
        ({
            let p = c.params();
            let v = (c.num_v_heads * c.value_head_dim) as usize;
            let all = (2 * (c.num_k_heads * c.key_head_dim) + c.num_v_heads
                * c.value_head_dim) as usize;
            &&& p.len() == 9
            &&& reads(p, "in_proj_qkv.weight"@, seq![all, c.hidden_size])
            &&& reads(p, "in_proj_z.weight"@, seq![v, c.hidden_size])
            &&& reads(p, "in_proj_b.weight"@, seq![c.num_v_heads, c.hidden_size])
            &&& reads(p, "in_proj_a.weight"@, seq![c.num_v_heads, c.hidden_size])
            &&& reads(p, "out_proj.weight"@, seq![c.hidden_size, v])
            &&& reads(p, "conv1d.weight"@, seq![all, 1usize, c.conv_kernel_dim])
            &&& reads(p, "A_log"@, seq![c.num_v_heads])
            &&& reads(p, "dt_bias"@, seq![c.num_v_heads])
            &&& reads(p, "norm.weight"@, seq![c.value_head_dim])
        }),
{
    let kd = c.num_k_heads * c.key_head_dim;
    let vd = c.num_v_heads * c.value_head_dim;
    assert(kd >= 0 && vd >= 0) by (nonlinear_arith)
        requires
            kd == c.num_k_heads * c.key_head_dim,
            vd == c.num_v_heads * c.value_head_dim,
    ;
    let all = c.conv_dim();
    let v = c.value_dim();
    let h = c.hidden_size;
    let p = c.params();
    reveal_strlit(".weight");
    reveal_strlit("in_proj_qkv");
    reveal_strlit("in_proj_z");
    reveal_strlit("in_proj_b");
    reveal_strlit("in_proj_a");
    reveal_strlit("out_proj");
    reveal_strlit("in_proj_qkv.weight");
    reveal_strlit("in_proj_z.weight");
    reveal_strlit("in_proj_b.weight");
    reveal_strlit("in_proj_a.weight");
    reveal_strlit("out_proj.weight");
    assert("in_proj_qkv"@ + ".weight"@ =~= "in_proj_qkv.weight"@);
    assert("in_proj_z"@ + ".weight"@ =~= "in_proj_z.weight"@);
    assert("in_proj_b"@ + ".weight"@ =~= "in_proj_b.weight"@);
    assert("in_proj_a"@ + ".weight"@ =~= "in_proj_a.weight"@);
    assert("out_proj"@ + ".weight"@ =~= "out_proj.weight"@);
    assert(p[0] == (ParamModel { name: "in_proj_qkv.weight"@, shape: seq![all, h] }));
    assert(p[1] == (ParamModel { name: "in_proj_z.weight"@, shape: seq![v, h] }));
    assert(p[2] == (ParamModel { name: "in_proj_b.weight"@, shape: seq![c.num_v_heads, h] }));
    assert(p[3] == (ParamModel { name: "in_proj_a.weight"@, shape: seq![c.num_v_heads, h] }));
    assert(p[4] == (ParamModel { name: "out_proj.weight"@, shape: seq![h, v] }));
    assert(p[5] == (ParamModel {
        name: "conv1d.weight"@,
        shape: seq![all, 1usize, c.conv_kernel_dim],
    }));
    assert(p[6] == (ParamModel { name: "A_log"@, shape: seq![c.num_v_heads] }));
    assert(p[7] == (ParamModel { name: "dt_bias"@, shape: seq![c.num_v_heads] }));
    assert(p[8] == (ParamModel { name: "norm.weight"@, shape: seq![c.value_head_dim] }));
}

/// A delta-net's queries and keys are as wide as its key heads, its values as its
/// value heads; it keeps a matrix from key to value for each value head, and
/// repeats queries and keys only where the values have more heads.
pub proof fn law_a_delta_net_is_shaped_by_its_heads(c: DeltaNetConfig, batch: usize)
    requires
        c.wf(),
    ensures
        ({
            let s = c.shapes(batch);
            &&& s.queries.len == c.num_k_heads * c.key_head_dim
            &&& s.keys.len == c.num_k_heads * c.key_head_dim
            &&& s.values.len == c.num_v_heads * c.value_head_dim
            &&& s.value_dim == c.num_v_heads * c.value_head_dim
            &&& s.state.0 == batch && s.state.1 == c.num_v_heads && s.state.2 == c.key_head_dim
                && s.state.3 == c.value_head_dim
            &&& s.repeat is Some <==> c.num_v_heads > c.num_k_heads
            &&& s.repeat matches Some(r) ==> r * c.num_k_heads <= c.num_v_heads < (r + 1)
                * c.num_k_heads
        }),
{
    let kd = c.num_k_heads * c.key_head_dim;
    let vd = c.num_v_heads * c.value_head_dim;
    assert(kd >= 0 && vd >= 0) by (nonlinear_arith)
        requires
            kd == c.num_k_heads * c.key_head_dim,
            vd == c.num_v_heads * c.value_head_dim,
    ;
    let n = c.num_v_heads as int;
    let k = c.num_k_heads as int;
    vstd::arithmetic::div_mod::lemma_fundamental_div_mod(n, k);
    let r = n / k;
    assert(r * k <= n < (r + 1) * k && 0 <= r <= n) by (nonlinear_arith)
        requires
            n == k * r + n % k,
            0 <= n % k < k,
            k >= 1,
            n >= 0,
    ;
}

/// As many positions are kept as there are, up to the most that can be; past
/// that, the latest ones.
pub proof fn law_as_many_positions_are_kept_as_fit(total: nat, max: nat)
    requires
        total <= usize::MAX,
    ensures
        total <= max ==> latest(total, max).len == total && latest(total, max).start == 0,
        total > max ==> latest(total, max).len == max && latest(total, max).start == total - max,
{
}

/// A layer that shares another's cache uses that one's; any other uses its own.
pub proof fn law_a_shared_layer_uses_its_source(layers: Seq<LayerKind>, layer: int)
    requires
        0 <= layer < layers.len(),
    ensures
        forall|s: usize|
            layers[layer] == (LayerKind::Shared { source_layer: s }) ==> #[trigger] target(
                layers,
                layer,
            ) == s,
        !(layers[layer] is Shared) ==> target(layers, layer) == layer,
{
}

/// A window of no width shows nothing.
pub proof fn law_an_empty_window_shows_nothing(pos: int, i: int, j: int)
    requires
        pos >= 0,
        i >= 0,
    ensures
        in_future(pos, i, j) || out_of_window(pos, i, j, 0),
{
}

/// The levels of each width, from the middle outwards, in ten-thousandths of the
/// deviation.
pub proof fn law_levels_of_each_width()
    ensures
        levels(1).skip(1) == seq![7979int],
        levels(2).skip(2) == seq![4528int, 15104],
        levels(3).skip(4) == seq![2451int, 7560, 13440, 21519],
        levels(4).skip(8) == seq![1284int, 3881, 6568, 9423, 12562, 16180, 20690, 27326],
{
    assert(levels(1).skip(1) =~= seq![7979int]);
    assert(levels(2).skip(2) =~= seq![4528int, 15104]);
    assert(levels(3).skip(4) =~= seq![2451int, 7560, 13440, 21519]);
    assert(levels(4).skip(8) =~= seq![
        1284int,
        3881,
        6568,
        9423,
        12562,
        16180,
        20690,
        27326,
    ]);
}

/// Keeping inner products costs one bit of the levels, so there have to be two;
/// four are the most.
pub proof fn law_inner_products_cost_a_bit(c: TurboQuantConfig)
    ensures
        c.mode == TurboQuantMode::Mse ==> c.level_bits() == c.bit_width,
        c.mode == TurboQuantMode::InnerProduct ==> c.level_bits() + 1 == c.bit_width,
        c.supported() <==> c.dim > 0 && c.bit_width <= 4 && c.level_bits() >= 1,
{
}

/// Generation ends with the first token that ends it, or with as many as were
/// asked for, but never before the first.
pub proof fn law_generation_ends_when_it_should(m: GenerationModel, token: u32)
    ensures
        ({
            let after = GenerationModel { generated: m.generated.push(token), ..m };
            after.finished() <==> m.eos.contains(token) || m.generated.len() + 1
                >= m.max_new_tokens
        }),
        m.generated.len() == 0 ==> !m.finished(),
{
}

/// Each set of kernels goes by its own name.
pub proof fn law_kernels_by_name(a: KernelSet)
    ensures
        a is Baseline ==> a.label() == "baseline"@,
        a is Avx2 ==> a.label() == "avx2"@,
        a is Avx512 ==> a.label() == "avx512"@,
        a is Neon ==> a.label() == "neon"@,
{
}

/// A four-bit float is a sign, two bits of exponent and one of fraction: twice
/// its value is the fraction alone where the exponent is zero, and two or three
/// doubled for each step of the exponent past the first.
pub proof fn law_a_four_bit_float(sign: int, exponent: int, fraction: int)
    requires
        0 <= sign <= 1,
        0 <= exponent <= 3,
        0 <= fraction <= 1,
    ensures
        ({
            let magnitude = if exponent == 0 {
                fraction
            } else {
                (2 + fraction) * pow2((exponent - 1) as nat)
            };
            e2m1_doubled(8 * sign + 2 * exponent + fraction) == (if sign == 0 {
                magnitude
            } else {
                -magnitude
            })
        }),
{
    vstd::arithmetic::power2::lemma2_to64();
    assert((8 * sign + 2 * exponent + fraction) % 8 == 2 * exponent + fraction);
    assert(pow2(0) == 1 && pow2(1) == 2 && pow2(2) == 4);
    if exponent == 1 {
        let p = pow2((exponent - 1) as nat) as int;
        assert((2 + fraction) * p == 2 + fraction) by (nonlinear_arith)
            requires
                p == 1,
        ;
    } else if exponent == 2 {
        let p = pow2((exponent - 1) as nat) as int;
        assert((2 + fraction) * p == 2 * (2 + fraction)) by (nonlinear_arith)
            requires
                p == 2,
        ;
    } else if exponent == 3 {
        let p = pow2((exponent - 1) as nat) as int;
        assert((2 + fraction) * p == 4 * (2 + fraction)) by (nonlinear_arith)
            requires
                p == 4,
        ;
    }
}

/// What the bits of a finite, positive 32-bit float count, in its smallest
/// steps.
pub open spec fn f32_steps(bits: int) -> int {
    let exponent = bits / 0x80_0000;
    let fraction = bits % 0x80_0000;
    if exponent == 0 {
        fraction
    } else {
        (0x80_0000 + fraction) * pow2((exponent - 1) as nat)
    }
}

/// What the bits of a finite, positive 16-bit float count, in its smallest
/// steps.
pub open spec fn f16_steps(bits: int) -> int {
    let exponent = bits / 0x400;
    let fraction = bits % 0x400;
    if exponent == 0 {
        fraction
    } else {
        (0x400 + fraction) * pow2((exponent - 1) as nat)
    }
}

/// A scale is a power of two: half of two to the byte, less the bias of 127, and
/// so twice as large for each next byte.
pub proof fn law_a_scale_is_a_power_of_two(byte: u8)
    ensures
        f32_steps(e8m0_bits(byte) as int) == pow2((byte + 21) as nat),
{
    vstd::arithmetic::power2::lemma2_to64();
    let bits = e8m0_bits(byte) as int;
    if byte >= 2 {
        let e = byte - 1;
        assert(bits == e * 0x80_0000);
        assert(bits / 0x80_0000 == e && bits % 0x80_0000 == 0);
        lemma_pow2_adds(23, (e - 1) as nat);
        assert(pow2(23) == 0x80_0000);
        assert(23 + (e - 1) == byte + 21);
    } else {
        assert(pow2(21) == 0x20_0000);
        assert(pow2(22) == 0x40_0000);
        assert(bits / 0x80_0000 == 0);
    }
}

/// A block of 32 four-bit floats is a scale and sixteen bytes: the lower halves
/// of the bytes in order, and then the upper halves.
pub proof fn law_a_block_is_lower_halves_then_upper(raw: Seq<u8>, block: int, j: int)
    requires
        block >= 0,
        0 <= j < 16,
        (block + 1) * 17 <= raw.len(),
    ensures
        mxfp4_at(raw, 32 * block + j).doubled == e2m1_doubled(
            raw[17 * block + 1 + j] as int % 16,
        ),
        mxfp4_at(raw, 32 * block + 16 + j).doubled == e2m1_doubled(
            raw[17 * block + 1 + j] as int / 16,
        ),
        mxfp4_at(raw, 32 * block + j).scale == raw[17 * block],
        mxfp4_at(raw, 32 * block + 16 + j).scale == raw[17 * block],
{
    assert((32 * block + j) / 32 == block && (32 * block + j) % 32 == j);
    assert((32 * block + 16 + j) / 32 == block && (32 * block + 16 + j) % 32 == 16 + j);
}

/// Widening a 16-bit float keeps its value: a finite one counts as much, in
/// steps that are finer by two to the 125th.
#[verifier::rlimit(40)]
pub proof fn law_widening_keeps_the_value(bits: u16)
    requires
        bits < 0x7c00,
    ensures
        f32_steps(f32_of_f16(bits)) == f16_steps(bits as int) * pow2(125),
{
    let e = bits as int / 0x400;
    let m = bits as int % 0x400;
    assert(e % 0x20 == e);
    assert(bits as int / 0x8000 == 0);
    let wide = f32_of_f16(bits);
    vstd::arithmetic::power2::lemma2_to64();
    assert(pow2(13) == 0x2000);
    if e == 0 && m == 0 {
        assert(wide == 0);
        assert(0 * pow2(125) == 0);
    } else if e == 0 {
        law_a_subnormal_keeps_its_value(m as nat);
        let s = norm_shift(m as nat);
        let n = normalized(m as nat);
        lemma_shift_bound(m as nat);
        let f = (n - 0x400) * 0x2000;
        assert(wide == (113 - s) * 0x80_0000 + f);
        assert(wide / 0x80_0000 == 113 - s && wide % 0x80_0000 == f);
        let p = pow2((112 - s) as nat) as int;
        let q = pow2(s) as int;
        lemma_pow2_adds(13, (112 - s) as nat);
        lemma_pow2_adds(s, (125 - s) as nat);
        assert(pow2((125 - s) as nat) == 0x2000 * p);
        assert(pow2(125) == q * (0x2000 * p));
        assert((0x80_0000 + f) * p == m * (q * (0x2000 * p))) by (nonlinear_arith)
            requires
                f == (n - 0x400) * 0x2000,
                n == m * q,
        ;
    } else {
        let f = m * 0x2000;
        assert(wide == (e + 112) * 0x80_0000 + f);
        assert(wide / 0x80_0000 == e + 112 && wide % 0x80_0000 == f);
        let p = pow2((e - 1) as nat) as int;
        lemma_pow2_adds((e - 1) as nat, 112);
        lemma_pow2_adds(13, 112);
        let r = pow2(112) as int;
        assert(pow2((e + 111) as nat) == p * r);
        assert(pow2(125) == 0x2000 * r);
        assert((0x80_0000 + f) * (p * r) == ((0x400 + m) * p) * (0x2000 * r)) by (nonlinear_arith)
            requires
                f == m * 0x2000,
        ;
    }
}

proof fn lemma_shift_bound(m: nat)
    requires
        0 < m < 0x400,
    ensures
        1 <= norm_shift(m) <= 10,
{
    law_a_subnormal_keeps_its_value(m);
    let s = norm_shift(m);
    if s == 0 {
        assert(pow2(0) == 1) by {
            vstd::arithmetic::power2::lemma2_to64();
        }
    }
    if s > 10 {
        vstd::arithmetic::power2::lemma2_to64();
        lemma_pow2_adds(11, (s - 11) as nat);
        lemma_pow2_pos((s - 11) as nat);
        let t = pow2((s - 11) as nat) as int;
        assert(m * (0x800 * t) >= 0x800) by (nonlinear_arith)
            requires
                m >= 1,
                t >= 1,
        ;
    }
}

/// Widening keeps the sign, and keeps what is no finite number what it is: an
/// infinity is one, and nothing else becomes one.
pub proof fn law_widening_keeps_the_sign_and_the_infinities(bits: u16)
    ensures
        bits < 0x8000 ==> f32_of_f16((bits + 0x8000) as u16) == f32_of_f16(bits) + 0x8000_0000,
        bits == 0x7c00 ==> f32_of_f16(bits) == 0x7f80_0000,
        0x7c00 < bits < 0x8000 ==> 0x7f80_0000 < f32_of_f16(bits) < 0x8000_0000,
        bits < 0x7c00 ==> f32_of_f16(bits) < 0x7f80_0000,
{
    let b = bits as int;
    if b < 0x8000 {
        let c = b + 0x8000;
        assert((c / 0x400) % 0x20 == (b / 0x400) % 0x20);
        assert(c % 0x400 == b % 0x400);
        assert(c / 0x8000 == 1 && b / 0x8000 == 0);
    }
    let m = (b % 0x400) as nat;
    if 0 < m {
        lemma_shift_bound(m);
        law_a_subnormal_keeps_its_value(m);
    }
}

/// Generation starts with the whole prompt, from the first position on, and what
/// came of it so far is the prompt and then the tokens.
pub proof fn law_generation_starts_with_the_prompt(m: GenerationModel)
    ensures
        m.generated.len() == 0 ==> m.next_input() == m.prompt && m.next_pos() == 0,
        m.so_far() == m.prompt + m.generated,
{
}

} // verus!
