//! The tensors that a layer is made of, by name and shape.

use crate::text::concat2;
use vstd::prelude::*;

verus! {

/// A tensor that a layer reads.
#[derive(Debug, Clone, PartialEq, Eq)]
pub struct Param {
    /// Its name below the layer's own.
    pub name: String,
    pub shape: Vec<usize>,
}

/// What a [`Param`] says.
#[verifier::ext_equal]
pub struct ParamModel {
    pub name: Seq<char>,
    pub shape: Seq<usize>,
}

impl View for Param {
    type V = ParamModel;

    open spec fn view(&self) -> ParamModel {
        ParamModel { name: self.name@, shape: self.shape@ }
    }
}

/// What a list of tensors says.
pub open spec fn param_views(v: Seq<Param>) -> Seq<ParamModel> {
    v.map_values(|p: Param| p@)
}

/// A tensor of one dimension.
pub open spec fn vector(name: Seq<char>, len: usize) -> ParamModel {
    ParamModel { name, shape: seq![len] }
}

/// The tensors of a linear layer from `inputs` to `outputs` numbers.
pub open spec fn linear(
    name: Seq<char>,
    inputs: usize,
    outputs: usize,
    bias: bool,
) -> Seq<ParamModel> {
    let weight = ParamModel { name: name + ".weight"@, shape: seq![outputs, inputs] };
    if bias {
        seq![weight, vector(name + ".bias"@, outputs)]
    } else {
        seq![weight]
    }
}

/// Add a tensor of one dimension.
pub fn push_vector(out: &mut Vec<Param>, name: &str, len: usize)
    ensures
        param_views(final(out)@) == param_views(old(out)@).push(vector(name@, len)),
{
    let p = Param { name: name.to_owned(), shape: vec![len] };
    let ghost v = p@;
    out.push(p);
    proof {
        assert(v =~= vector(name@, len));
        assert(param_views(out@) =~= param_views(old(out)@).push(vector(name@, len)));
    }
}

/// Add the tensors of a linear layer.
pub fn push_linear(out: &mut Vec<Param>, name: &str, inputs: usize, outputs: usize, bias: bool)
    ensures
        param_views(final(out)@) == param_views(old(out)@) + linear(name@, inputs, outputs, bias),
{
    let weight = Param { name: concat2(name, ".weight"), shape: vec![outputs, inputs] };
    let ghost w = weight@;
    out.push(weight);
    proof {
        assert(w.shape =~= seq![outputs, inputs]);
        assert(param_views(out@) =~= param_views(old(out)@) + linear(
            name@,
            inputs,
            outputs,
            false,
        ));
    }
    if bias {
        let b = concat2(name, ".bias");
        push_vector(out, b.as_str(), outputs);
        assert(param_views(out@) =~= param_views(old(out)@) + linear(name@, inputs, outputs, true));
    }
}

} // verus!
