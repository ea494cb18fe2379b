//! How tensors lie in a file: the types of their elements, and the bytes that
//! each takes.

use super::gguf::{tensor_models, Named, RawTensorInfo, TensorModel};
use crate::text::{decimal, joined, push_decimal, strings};
use candle_core::quantized::GgmlDType as Dtype;
use vstd::prelude::*;
use vstd::string::StringExecFns;

verus! {

/// The element types of a tensor that the tensor library can hold.
#[derive(Debug, Clone, Copy, PartialEq, Eq, Structural)]
pub enum GgmlType {
    F32,
    F16,
    Bf16,
    Q4_0,
    Q4_1,
    Q5_0,
    Q5_1,
    Q8_0,
    Q8_1,
    Q2K,
    Q3K,
    Q4K,
    Q5K,
    Q6K,
    Q8K,
}

/// Elements in one block of a type.
pub open spec fn block_elems(t: GgmlType) -> nat {
    match t {
        GgmlType::F32 | GgmlType::F16 | GgmlType::Bf16 => 1,
        GgmlType::Q4_0 | GgmlType::Q4_1 | GgmlType::Q5_0 | GgmlType::Q5_1 => 32,
        GgmlType::Q8_0 | GgmlType::Q8_1 => 32,
        GgmlType::Q2K | GgmlType::Q3K | GgmlType::Q4K => 256,
        GgmlType::Q5K | GgmlType::Q6K | GgmlType::Q8K => 256,
    }
}

/// Bytes of one block of a type.
pub open spec fn block_bytes(t: GgmlType) -> nat {
    match t {
        GgmlType::F32 => 4,
        GgmlType::F16 => 2,
        GgmlType::Bf16 => 2,
        GgmlType::Q4_0 => 18,
        GgmlType::Q4_1 => 20,
        GgmlType::Q5_0 => 22,
        GgmlType::Q5_1 => 24,
        GgmlType::Q8_0 => 34,
        GgmlType::Q8_1 => 36,
        GgmlType::Q2K => 84,
        GgmlType::Q3K => 110,
        GgmlType::Q4K => 144,
        GgmlType::Q5K => 176,
        GgmlType::Q6K => 210,
        GgmlType::Q8K => 292,
    }
}

/// Calls `candle_core::quantized::GgmlDType::block_size`: how many elements one
/// block of each type holds.
#[verifier::external_body]
fn block_size(t: GgmlType) -> (n: usize)
    ensures
        n == block_elems(t),
{
    let d = match t {
        GgmlType::F32 => Dtype::F32, GgmlType::F16 => Dtype::F16, GgmlType::Bf16 => Dtype::BF16,
        GgmlType::Q4_0 => Dtype::Q4_0, GgmlType::Q4_1 => Dtype::Q4_1,
        GgmlType::Q5_0 => Dtype::Q5_0, GgmlType::Q5_1 => Dtype::Q5_1,
        GgmlType::Q8_0 => Dtype::Q8_0, GgmlType::Q8_1 => Dtype::Q8_1,
        GgmlType::Q2K => Dtype::Q2K, GgmlType::Q3K => Dtype::Q3K, GgmlType::Q4K => Dtype::Q4K,
        GgmlType::Q5K => Dtype::Q5K, GgmlType::Q6K => Dtype::Q6K, GgmlType::Q8K => Dtype::Q8K,
    };
    d.block_size()
}

/// Calls `candle_core::quantized::GgmlDType::type_size`: how many bytes one
/// block of each type takes.
#[verifier::external_body]
fn type_size(t: GgmlType) -> (n: usize)
    ensures
        n == block_bytes(t),
{
    let d = match t {
        GgmlType::F32 => Dtype::F32, GgmlType::F16 => Dtype::F16, GgmlType::Bf16 => Dtype::BF16,
        GgmlType::Q4_0 => Dtype::Q4_0, GgmlType::Q4_1 => Dtype::Q4_1,
        GgmlType::Q5_0 => Dtype::Q5_0, GgmlType::Q5_1 => Dtype::Q5_1,
        GgmlType::Q8_0 => Dtype::Q8_0, GgmlType::Q8_1 => Dtype::Q8_1,
        GgmlType::Q2K => Dtype::Q2K, GgmlType::Q3K => Dtype::Q3K, GgmlType::Q4K => Dtype::Q4K,
        GgmlType::Q5K => Dtype::Q5K, GgmlType::Q6K => Dtype::Q6K, GgmlType::Q8K => Dtype::Q8K,
    };
    d.type_size()
}

/// The type that a number in a file names.
pub open spec fn type_of(u: u32) -> Option<GgmlType> {
    if u == 0 {
        Some(GgmlType::F32)
    } else if u == 1 {
        Some(GgmlType::F16)
    } else if u == 2 {
        Some(GgmlType::Q4_0)
    } else if u == 3 {
        Some(GgmlType::Q4_1)
    } else if u == 6 {
        Some(GgmlType::Q5_0)
    } else if u == 7 {
        Some(GgmlType::Q5_1)
    } else if u == 8 {
        Some(GgmlType::Q8_0)
    } else if u == 9 {
        Some(GgmlType::Q8_1)
    } else if u == 10 {
        Some(GgmlType::Q2K)
    } else if u == 11 {
        Some(GgmlType::Q3K)
    } else if u == 12 {
        Some(GgmlType::Q4K)
    } else if u == 13 {
        Some(GgmlType::Q5K)
    } else if u == 14 {
        Some(GgmlType::Q6K)
    } else if u == 15 {
        Some(GgmlType::Q8K)
    } else if u == 30 {
        Some(GgmlType::Bf16)
    } else {
        None
    }
}

/// The type that a number in a file names, if it is one.
pub fn ggml_dtype_from_u32(u: u32) -> (r: Option<GgmlType>)
    ensures
        r == type_of(u),
{
    match u {
        0 => Some(GgmlType::F32),
        1 => Some(GgmlType::F16),
        2 => Some(GgmlType::Q4_0),
        3 => Some(GgmlType::Q4_1),
        6 => Some(GgmlType::Q5_0),
        7 => Some(GgmlType::Q5_1),
        8 => Some(GgmlType::Q8_0),
        9 => Some(GgmlType::Q8_1),
        10 => Some(GgmlType::Q2K),
        11 => Some(GgmlType::Q3K),
        12 => Some(GgmlType::Q4K),
        13 => Some(GgmlType::Q5K),
        14 => Some(GgmlType::Q6K),
        15 => Some(GgmlType::Q8K),
        30 => Some(GgmlType::Bf16),
        _ => None,
    }
}

/// The number of a tensor type that is decoded here rather than by the tensor
/// library: 4-bit floats under a shared scale.
pub const MXFP4_TYPE: u32 = 39;

pub const MXFP4_BLOCK_SIZE: u64 = 32;

/// One scale byte and sixteen bytes of two elements each.
pub const MXFP4_BYTES_PER_BLOCK: u64 = 17;

/// How many elements dimensions span.
pub open spec fn product(dims: Seq<u64>) -> nat
    decreases dims.len(),
{
    if dims.len() == 0 {
        1
    } else {
        product(dims.drop_last()) * dims.last() as nat
    }
}

/// Elements can be counted in 64 bits, dimension by dimension.
pub open spec fn countable_dims(dims: Seq<u64>) -> bool {
    forall|k: int| 0 <= k <= dims.len() ==> product(#[trigger] dims.take(k)) <= u64::MAX
}

/// How many elements dimensions span, if 64 bits can count them on the way.
pub fn elem_count(dims: &[u64]) -> (r: Option<u64>)
    ensures
        r == (if countable_dims(dims@) {
            Some(product(dims@) as u64)
        } else {
            None
        }),
        r matches Some(n) ==> n == product(dims@),
{
    let mut n: u64 = 1;
    let mut i: usize = 0;
    assert(dims@.take(0) =~= Seq::empty());
    while i < dims.len()
        invariant
            i <= dims@.len(),
            n == product(dims@.take(i as int)),
            forall|k: int| 0 <= k <= i ==> product(#[trigger] dims@.take(k)) <= u64::MAX,
        decreases dims@.len() - i,
    {
        assert(dims@.take(i + 1).drop_last() =~= dims@.take(i as int));
        match n.checked_mul(dims[i]) {
            Some(m) => {
                n = m;
            },
            None => {
                assert(product(dims@.take(i + 1)) > u64::MAX);
                return None;
            },
        }
        i += 1;
    }
    assert(dims@.take(dims@.len() as int) =~= dims@);
    Some(n)
}

/// How a tensor is kept.
#[derive(Debug, Clone, Copy, PartialEq, Eq, Structural)]
pub enum TensorKind {
    /// Decoded here, a slice at a time.
    Mxfp4,
    /// Handed to the tensor library: its type, and how many bytes it takes.
    Blocks { dtype: GgmlType, size: u64 },
}

/// Why a tensor cannot be kept.
#[derive(Debug, Clone, Copy, PartialEq, Eq, Structural)]
pub enum LayoutError {
    UnknownType { dtype: u32 },
    /// Its elements do not fill whole blocks.
    Ragged { elems: u64, block: u64 },
    /// Its size is past what 64 bits can count.
    TooLarge,
}

impl LayoutError {
    /// What to tell a user of a tensor with this name.
    pub open spec fn text(self, name: Seq<char>) -> Seq<char> {
        match self {
            LayoutError::UnknownType { dtype } => "unknown GgmlDType "@ + decimal(dtype as nat),
            LayoutError::Ragged { elems, block } => "tensor "@ + name + ": elem count "@ + decimal(
                elems as nat,
            ) + " not divisible by block size "@ + decimal(block as nat),
            LayoutError::TooLarge => "tensor "@ + name + ": too large"@,
        }
    }

    pub fn message(&self, name: &str) -> (r: String)
        ensures
            r@ == self.text(name@),
    {
        let mut s = String::new();
        match self {
            LayoutError::UnknownType { dtype } => {
                s.append("unknown GgmlDType ");
                push_decimal(&mut s, *dtype as u64);
            },
            LayoutError::Ragged { elems, block } => {
                s.append("tensor ");
                s.append(name);
                s.append(": elem count ");
                push_decimal(&mut s, *elems);
                s.append(" not divisible by block size ");
                push_decimal(&mut s, *block);
            },
            LayoutError::TooLarge => {
                s.append("tensor ");
                s.append(name);
                s.append(": too large");
            },
        }
        assert(s@ =~= self.text(name@));
        s
    }
}

/// How a tensor of `elems` elements of a type is kept.
pub open spec fn layout_of(dtype: u32, elems: nat) -> Result<TensorKind, LayoutError> {
    if dtype == MXFP4_TYPE {
        Ok(TensorKind::Mxfp4)
    } else {
        match type_of(dtype) {
            None => Err(LayoutError::UnknownType { dtype }),
            Some(t) => if elems % block_elems(t) != 0 {
                Err(LayoutError::Ragged { elems: elems as u64, block: block_elems(t) as u64 })
            } else if elems / block_elems(t) * block_bytes(t) > u64::MAX {
                Err(LayoutError::TooLarge)
            } else {
                Ok(
                    TensorKind::Blocks {
                        dtype: t,
                        size: (elems / block_elems(t) * block_bytes(t)) as u64,
                    },
                )
            },
        }
    }
}

/// How a tensor of `elems` elements of a type is kept.
pub fn layout(dtype: u32, elems: u64) -> (r: Result<TensorKind, LayoutError>)
    ensures
        r == layout_of(dtype, elems as nat),
{
    if dtype == MXFP4_TYPE {
        return Ok(TensorKind::Mxfp4);
    }
    match ggml_dtype_from_u32(dtype) {
        None => Err(LayoutError::UnknownType { dtype }),
        Some(t) => {
            let block: u64 = block_size(t) as u64;
            if elems % block != 0 {
                return Err(LayoutError::Ragged { elems, block });
            }
            let each: u64 = type_size(t) as u64;
            let blocks: u64 = elems / block;
            match blocks.checked_mul(each) {
                Some(size) => Ok(TensorKind::Blocks { dtype: t, size }),
                None => Err(LayoutError::TooLarge),
            }
        },
    }
}

/// How a tensor that a header describes is kept.
pub open spec fn kind_of(t: TensorModel) -> Result<TensorKind, LayoutError> {
    if countable_dims(t.dims) {
        layout_of(t.dtype, product(t.dims))
    } else {
        Err(LayoutError::TooLarge)
    }
}

/// The plan for the first `k` tensors, or the first that cannot be kept and
/// why.
pub open spec fn planned(tensors: Seq<Named<TensorModel>>, k: int) -> Result<
    Seq<TensorKind>,
    (int, LayoutError),
>
    decreases k,
{
    if k <= 0 {
        Ok(Seq::empty())
    } else {
        match planned(tensors, k - 1) {
            Err(e) => Err(e),
            Ok(done) => {
                match kind_of(tensors[k - 1].value) {
                    Ok(kind) => Ok(done.push(kind)),
                    Err(e) => Err((k - 1, e)),
                }
            },
        }
    }
}

proof fn lemma_planned_err(tensors: Seq<Named<TensorModel>>, k: int, n: int)
    requires
        0 <= k <= n,
        planned(tensors, k) is Err,
    ensures
        planned(tensors, n) == planned(tensors, k),
    decreases n - k,
{
    if k < n {
        lemma_planned_err(tensors, k, n - 1);
    }
}

/// How each tensor of a header is kept, in their order, or the first that
/// cannot be kept and why.
pub fn plan_tensors(tensors: &Vec<RawTensorInfo>) -> (r: Result<
    Vec<TensorKind>,
    (usize, LayoutError),
>)
    ensures
        (match r {
            Ok(v) => Ok::<Seq<TensorKind>, (int, LayoutError)>(v@),
            Err((i, e)) => Err((i as int, e)),
        }) == planned(tensor_models(tensors@), tensors@.len() as int),
{
    let ghost all = tensor_models(tensors@);
    let mut out: Vec<TensorKind> = Vec::new();
    let mut i: usize = 0;
    assert(out@ =~= Seq::empty());
    while i < tensors.len()
        invariant
            i <= tensors@.len(),
            all == tensor_models(tensors@),
            planned(all, i as int) == Ok::<Seq<TensorKind>, (int, LayoutError)>(out@),
        decreases tensors@.len() - i,
    {
        let t = &tensors[i];
        assert(all[i as int].value == t.model());
        let kind = match elem_count(t.dims.as_slice()) {
            Some(n) => layout(t.dtype, n),
            None => Err(LayoutError::TooLarge),
        };
        match kind {
            Ok(kind) => {
                out.push(kind);
            },
            Err(e) => {
                proof {
                    lemma_planned_err(all, i + 1, tensors@.len() as int);
                }
                return Err((i, e));
            },
        }
        i += 1;
    }
    Ok(out)
}

/// The bytes of one expert in a stack of experts.
pub open spec fn expert_bytes(elems: u64, block: u64, each: u64) -> int {
    elems as int / block as int * each
}

/// Where one expert in a stack of experts lies within the tensor's data, and
/// how many bytes it has.
pub open spec fn expert_at(idx: u64, elems: u64, block: u64, each: u64) -> Result<
    (u64, u64),
    LayoutError,
> {
    let bytes = expert_bytes(elems, block, each);
    if elems % block != 0 {
        Err(LayoutError::Ragged { elems, block })
    } else if bytes > u64::MAX || idx * bytes > u64::MAX {
        Err(LayoutError::TooLarge)
    } else {
        Ok(((idx * bytes) as u64, bytes as u64))
    }
}

/// The bytes of one expert in a stack of experts: where they start within the
/// tensor's data, and how many there are.
pub fn expert_range(idx: u64, elems: u64, block: u64, each: u64) -> (r: Result<
    (u64, u64),
    LayoutError,
>)
    requires
        block > 0,
    ensures
        r == expert_at(idx, elems, block, each),
{
    if elems % block != 0 {
        return Err(LayoutError::Ragged { elems, block });
    }
    let bytes: u64 = match (elems / block).checked_mul(each) {
        Some(n) => n,
        None => {
            return Err(LayoutError::TooLarge);
        },
    };
    match idx.checked_mul(bytes) {
        Some(start) => Ok((start, bytes)),
        None => Err(LayoutError::TooLarge),
    }
}

/// Experts have equally many bytes, the ranges of two of them do not overlap,
/// and those of neighbours follow each other without a gap.
pub proof fn law_experts_lie_side_by_side(
    first: u64,
    second: u64,
    elems: u64,
    block: u64,
    each: u64,
)
    requires
        block > 0,
        first < second,
        expert_at(first, elems, block, each) is Ok,
        expert_at(second, elems, block, each) is Ok,
    ensures
        ({
            let (a, n) = expert_at(first, elems, block, each)->Ok_0;
            let (b, m) = expert_at(second, elems, block, each)->Ok_0;
            &&& n == m
            &&& a + n <= b
            &&& second == first + 1 ==> a + n == b
        }),
{
    let bytes = expert_bytes(elems, block, each);
    assert(elems as int / block as int >= 0) by (nonlinear_arith)
        requires
            elems >= 0,
            block > 0,
    ;
    assert(bytes >= 0) by (nonlinear_arith)
        requires
            bytes == (elems as int / block as int) * each,
            elems as int / block as int >= 0,
            each >= 0,
    ;
    assert(first * bytes >= 0 && second * bytes >= 0 && first * bytes + bytes <= second * bytes)
        by (nonlinear_arith)
        requires
            0 <= first < second,
            bytes >= 0,
    ;
    assert(second == first + 1 ==> first * bytes + bytes == second * bytes) by (nonlinear_arith);
}

/// A place among the dotted names of tensors.
pub struct TensorPath {
    parts: Vec<String>,
}

impl View for TensorPath {
    type V = Seq<Seq<char>>;

    closed spec fn view(&self) -> Seq<Seq<char>> {
        strings(self.parts@)
    }
}

/// A name below a place: the parts with a dot between each and the next.
pub open spec fn dotted(parts: Seq<Seq<char>>, name: Seq<char>) -> Seq<char> {
    if parts.len() == 0 {
        name
    } else {
        joined(parts, "."@) + "."@ + name
    }
}

impl TensorPath {
    /// The place of all names.
    pub fn root() -> (r: Self)
        ensures
            r@ == Seq::<Seq<char>>::empty(),
    {
        let r = TensorPath { parts: Vec::new() };
        assert(r@ =~= Seq::empty());
        r
    }

    /// The place one part below this one.
    pub fn pp(&self, part: &str) -> (r: Self)
        ensures
            r@ == self@.push(part@),
    {
        let mut parts: Vec<String> = Vec::new();
        let mut i: usize = 0;
        while i < self.parts.len()
            invariant
                i <= self.parts@.len(),
                parts@.len() == i,
                forall|j: int| 0 <= j < i ==> (#[trigger] parts@[j])@ == self.parts@[j]@,
            decreases self.parts@.len() - i,
        {
            parts.push(self.parts[i].clone());
            i += 1;
        }
        parts.push(part.to_owned());
        let r = TensorPath { parts };
        assert(r@ =~= self@.push(part@));
        r
    }

    /// The full name of a tensor at this place.
    pub fn full_path(&self, name: &str) -> (r: String)
        ensures
            r@ == dotted(self@, name@),
    {
        let mut s = String::new();
        let mut i: usize = 0;
        assert(self@.take(0) =~= Seq::empty());
        while i < self.parts.len()
            invariant
                i <= self.parts@.len(),
                s@ == joined(self@.take(i as int), "."@),
            decreases self.parts@.len() - i,
        {
            proof {
                assert(self@.take(i + 1).drop_last() =~= self@.take(i as int));
                assert(self@.take(i + 1).last() == self.parts@[i as int]@);
            }
            if i > 0 {
                s.append(".");
            }
            s.append(self.parts[i].as_str());
            i += 1;
            assert(s@ =~= joined(self@.take(i as int), "."@));
        }
        assert(self@.take(self@.len() as int) =~= self@);
        if self.parts.len() > 0 {
            s.append(".");
        }
        s.append(name);
        assert(s@ =~= dotted(self@, name@));
        s
    }
}

/// Going one part down and then naming a tensor is naming it with the part
/// before it.
pub proof fn law_a_part_prefixes_the_name(parts: Seq<Seq<char>>, part: Seq<char>, name: Seq<char>)
    ensures
        dotted(parts.push(part), name) == dotted(parts, part + "."@ + name),
{
    let all = parts.push(part);
    assert(all.drop_last() =~= parts);
    if parts.len() == 0 {
        assert(joined(all, "."@) == part);
        assert(dotted(all, name) =~= part + "."@ + name);
    } else {
        assert(dotted(all, name) =~= dotted(parts, part + "."@ + name));
    }
}

} // verus!
