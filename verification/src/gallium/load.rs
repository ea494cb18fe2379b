//! A model file as a whole: its header, and where and how each of its tensors
//! is kept.

use super::gguf::{
    header_of, parse_gguf_tolerant, GgufError, GgufHeader, HeaderModel, Named, TensorModel,
};
use super::layout::{kind_of, plan_tensors, planned, LayoutError, TensorKind};
use super::metadata::data_at;
use vstd::prelude::*;

verus! {

/// Why a model file cannot be used.
#[derive(Debug, Clone, PartialEq, Eq)]
pub enum LoadError {
    /// It has no header that can be read.
    Header { why: GgufError },
    /// There is no telling where its tensor data starts.
    Unaligned,
    /// A tensor cannot be kept.
    Tensor { name: String, why: LayoutError },
}

/// What a [`LoadError`] says.
pub enum LoadErrorModel {
    Header { why: GgufError },
    Unaligned,
    Tensor { name: Seq<char>, why: LayoutError },
}

impl View for LoadError {
    type V = LoadErrorModel;

    open spec fn view(&self) -> LoadErrorModel {
        match *self {
            LoadError::Header { why } => LoadErrorModel::Header { why },
            LoadError::Unaligned => LoadErrorModel::Unaligned,
            LoadError::Tensor { name, why } => LoadErrorModel::Tensor { name: name@, why },
        }
    }
}

impl LoadErrorModel {
    /// What to tell a user.
    pub open spec fn text(self) -> Seq<char> {
        match self {
            LoadErrorModel::Header { why } => why.text(),
            LoadErrorModel::Unaligned => "the tensor data cannot be aligned"@,
            LoadErrorModel::Tensor { name, why } => why.text(name),
        }
    }
}

impl LoadError {
    /// What to tell a user.
    pub fn message(&self) -> (r: String)
        ensures
            r@ == self@.text(),
    {
        match self {
            LoadError::Header { why } => why.message(),
            LoadError::Unaligned => "the tensor data cannot be aligned".to_owned(),
            LoadError::Tensor { name, why } => why.message(name.as_str()),
        }
    }
}

/// A model file.
#[derive(Debug)]
pub struct ModelFile {
    pub header: GgufHeader,
    /// Where the tensor data starts.
    pub base: u64,
    /// How each tensor of the header is kept, in their order.
    pub kinds: Vec<TensorKind>,
}

/// What a [`ModelFile`] says.
pub struct ModelFileModel {
    pub header: HeaderModel,
    pub base: u64,
    pub kinds: Seq<TensorKind>,
}

impl ModelFile {
    pub open spec fn model(self) -> ModelFileModel {
        ModelFileModel { header: self.header.model(), base: self.base, kinds: self.kinds@ }
    }
}

/// What a file holds, or why it cannot be used.
pub open spec fn model_file(src: Seq<u8>) -> Result<ModelFileModel, LoadErrorModel> {
    match header_of(src) {
        Err(why) => Err(LoadErrorModel::Header { why }),
        Ok(header) => match data_at(header) {
            None => Err(LoadErrorModel::Unaligned),
            Some(base) => match planned(header.tensors, header.tensors.len() as int) {
                Err((index, why)) => Err(LoadErrorModel::Tensor { name: header.tensors[index].key, why }),
                Ok(kinds) => Ok(ModelFileModel { header, base, kinds }),
            },
        },
    }
}

/// Read what a model file holds. No tensor's data is looked at.
pub fn load_gguf(src: &[u8]) -> (r: Result<ModelFile, LoadError>)
    ensures
        (match r {
            Ok(f) => Ok::<ModelFileModel, LoadErrorModel>(f.model()),
            Err(e) => Err(e@),
        }) == model_file(src@),
{
    let header = match parse_gguf_tolerant(src) {
        Ok(h) => h,
        Err(why) => {
            return Err(LoadError::Header { why });
        },
    };
    let base: u64 = match header.data_offset() {
        Some(b) => b,
        None => {
            return Err(LoadError::Unaligned);
        },
    };
    match plan_tensors(&header.tensors) {
        Ok(kinds) => Ok(ModelFile { header, base, kinds }),
        Err((index, why)) => {
            proof {
                lemma_bad_index(header.model().tensors, header.tensors@.len() as int);
            }
            Err(LoadError::Tensor { name: header.tensors[index].name.clone(), why })
        },
    }
}

/// A file that can be used says of each of its tensors how it is kept, and that
/// is how its type and its dimensions say.
pub proof fn law_each_tensor_is_kept_by_its_type(
    tensors: Seq<Named<TensorModel>>,
    k: int,
    i: int,
)
    requires
        0 <= i < k <= tensors.len(),
        planned(tensors, k) is Ok,
    ensures
        planned(tensors, k)->Ok_0.len() == k,
        kind_of(tensors[i].value) == Ok::<TensorKind, LayoutError>(planned(tensors, k)->Ok_0[i]),
    decreases k,
{
    if i < k - 1 {
        law_each_tensor_is_kept_by_its_type(tensors, k - 1, i);
    } else if k > 1 {
        law_each_tensor_is_kept_by_its_type(tensors, k - 1, 0);
    }
}

proof fn lemma_bad_index(tensors: Seq<Named<TensorModel>>, k: int)
    requires
        0 <= k <= tensors.len(),
    ensures
        planned(tensors, k) matches Err((i, e)) ==> 0 <= i < k,
    decreases k,
{
    if k > 0 {
        lemma_bad_index(tensors, k - 1);
    }
}

/// The tensor that a file is refused for is the first that cannot be kept.
pub proof fn law_the_first_bad_tensor_is_named(
    tensors: Seq<Named<TensorModel>>,
    k: int,
    i: int,
)
    requires
        0 <= k <= tensors.len(),
        planned(tensors, k) is Err,
        0 <= i < planned(tensors, k)->Err_0.0,
    ensures
        0 <= planned(tensors, k)->Err_0.0 < k,
        kind_of(tensors[planned(tensors, k)->Err_0.0].value) == Err::<TensorKind, LayoutError>(
            planned(tensors, k)->Err_0.1,
        ),
        kind_of(tensors[i].value) is Ok,
    decreases k,
{
    if planned(tensors, k - 1) is Err {
        law_the_first_bad_tensor_is_named(tensors, k - 1, i);
    } else {
        law_each_tensor_is_kept_by_its_type(tensors, k - 1, i);
    }
}

} // verus!
