//! A file's metadata, by key.

use super::gguf::{
    entry_models, found, models, position, GgufHeader, GgufMetadata, GgufValue, HeaderModel,
    Named, ValueModel,
};
use crate::text::{same, strings};
use vstd::prelude::*;

verus! {

/// Why there is no such value.
#[derive(Debug, Clone, Copy, PartialEq, Eq, Structural)]
pub enum MetadataError {
    /// There is nothing under the key.
    Missing,
    /// What is there is something else.
    WrongType { wanted: Wanted },
}

/// What a value was asked to be.
#[derive(Debug, Clone, Copy, PartialEq, Eq, Structural)]
pub enum Wanted {
    Text,
    Array,
    /// An array in which every value is a text.
    TextArray,
    U32,
    F32,
}

impl MetadataError {
    /// What to tell a user who asked for this key. What was found instead is not
    /// part of it.
    pub open spec fn text(self, key: Seq<char>) -> Seq<char> {
        match self {
            MetadataError::Missing => "missing metadata key: "@ + key,
            MetadataError::WrongType { wanted } => match wanted {
                Wanted::Text => "expected string for "@ + key,
                Wanted::Array => "expected array for "@ + key,
                Wanted::TextArray => "expected string array for "@ + key,
                Wanted::U32 => "not a u32"@,
                Wanted::F32 => "not a f32"@,
            },
        }
    }

    pub fn message(&self, key: &str) -> (r: String)
        ensures
            r@ == self.text(key@),
    {
        let mut s = String::new();
        match self {
            MetadataError::Missing => {
                s.append("missing metadata key: ");
                s.append(key);
            },
            MetadataError::WrongType { wanted } => match wanted {
                Wanted::Text => {
                    s.append("expected string for ");
                    s.append(key);
                },
                Wanted::Array => {
                    s.append("expected array for ");
                    s.append(key);
                },
                Wanted::TextArray => {
                    s.append("expected string array for ");
                    s.append(key);
                },
                Wanted::U32 => {
                    s.append("not a u32");
                },
                Wanted::F32 => {
                    s.append("not a f32");
                },
            },
        }
        assert(s@ =~= self.text(key@));
        s
    }
}

/// Where a tensor's data is aligned to, where a file says nothing.
pub const DEFAULT_ALIGNMENT: u64 = 32;

impl GgufMetadata {
    /// What the metadata says.
    pub open spec fn list(self) -> Seq<Named<ValueModel>> {
        entry_models(self.entries@)
    }

    /// What is under a key.
    pub open spec fn at(self, key: Seq<char>) -> Option<ValueModel> {
        found(self.list(), key)
    }

    /// What is under a key.
    pub fn get(&self, key: &str) -> (r: Option<&GgufValue>)
        ensures
            (match r {
                Some(v) => Some(v.model()),
                None => None,
            }) == self.at(key@),
    {
        let ghost all = entry_models(self.entries@);
        let mut i: usize = 0;
        while i < self.entries.len()
            invariant
                i <= self.entries@.len(),
                all == entry_models(self.entries@),
                position(all, key@, 0) == position(all, key@, i as int),
            decreases self.entries@.len() - i,
        {
            assert(all[i as int].key == self.entries@[i as int].key@);
            if same(self.entries[i].key.as_str(), key) {
                return Some(&self.entries[i].value);
            }
            i += 1;
        }
        None
    }

    /// The text under a key.
    pub fn get_str(&self, key: &str) -> (r: Result<String, MetadataError>)
        ensures
            match self.at(key@) {
                Some(ValueModel::Text(t)) => r matches Ok(s) && s@ == t,
                Some(_) => r == Err::<String, MetadataError>(
                    MetadataError::WrongType { wanted: Wanted::Text },
                ),
                None => r == Err::<String, MetadataError>(MetadataError::Missing),
            },
    {
        match self.get(key) {
            Some(GgufValue::Text(s)) => Ok(s.clone()),
            Some(_) => Err(MetadataError::WrongType { wanted: Wanted::Text }),
            None => Err(MetadataError::Missing),
        }
    }

    /// The number under a key.
    pub fn get_u32(&self, key: &str) -> (r: Result<u32, MetadataError>)
        ensures
            r == (match self.at(key@) {
                Some(ValueModel::U32(n)) => Ok::<u32, MetadataError>(n),
                Some(_) => Err(MetadataError::WrongType { wanted: Wanted::U32 }),
                None => Err(MetadataError::Missing),
            }),
    {
        match self.get(key) {
            Some(GgufValue::U32(n)) => Ok(*n),
            Some(_) => Err(MetadataError::WrongType { wanted: Wanted::U32 }),
            None => Err(MetadataError::Missing),
        }
    }

    /// The bits of the float under a key.
    pub fn get_f32_bits(&self, key: &str) -> (r: Result<u32, MetadataError>)
        ensures
            r == (match self.at(key@) {
                Some(ValueModel::F32(n)) => Ok::<u32, MetadataError>(n),
                Some(_) => Err(MetadataError::WrongType { wanted: Wanted::F32 }),
                None => Err(MetadataError::Missing),
            }),
    {
        match self.get(key) {
            Some(GgufValue::F32(n)) => Ok(*n),
            Some(_) => Err(MetadataError::WrongType { wanted: Wanted::F32 }),
            None => Err(MetadataError::Missing),
        }
    }

    /// The number under a key, or the default.
    pub fn get_u32_or(&self, key: &str, default: u32) -> (r: u32)
        ensures
            r == (match self.at(key@) {
                Some(ValueModel::U32(n)) => n,
                _ => default,
            }),
    {
        match self.get_u32(key) {
            Ok(n) => n,
            Err(_) => default,
        }
    }

    /// The values of the array under a key.
    fn array(&self, key: &str) -> (r: Result<&Vec<GgufValue>, MetadataError>)
        ensures
            match self.at(key@) {
                Some(ValueModel::Array(vs)) => r matches Ok(v) && models(*v, v@.len()) == vs
                    && vs.len() == v@.len() && forall|i: int|
                    0 <= i < vs.len() ==> #[trigger] vs[i] == v@[i].model(),
                Some(_) => r matches Err(MetadataError::WrongType { wanted: Wanted::Array }),
                None => r matches Err(MetadataError::Missing),
            },
    {
        match self.get(key) {
            Some(GgufValue::Array(v)) => {
                proof {
                    lemma_models(*v, v@.len());
                }
                Ok(v)
            },
            Some(_) => Err(MetadataError::WrongType { wanted: Wanted::Array }),
            None => Err(MetadataError::Missing),
        }
    }

    /// The texts of the array under a key; every value has to be one.
    pub fn get_str_array(&self, key: &str) -> (r: Result<Vec<String>, MetadataError>)
        ensures
            match self.at(key@) {
                Some(ValueModel::Array(vs)) => if forall|i: int|
                    0 <= i < vs.len() ==> (#[trigger] vs[i]) is Text {
                    r matches Ok(v) && strings(v@) == Seq::new(vs.len(), |i: int| vs[i]->Text_0)
                } else {
                    r == Err::<Vec<String>, MetadataError>(
                        MetadataError::WrongType { wanted: Wanted::TextArray },
                    )
                },
                Some(_) => r == Err::<Vec<String>, MetadataError>(
                    MetadataError::WrongType { wanted: Wanted::Array },
                ),
                None => r == Err::<Vec<String>, MetadataError>(MetadataError::Missing),
            },
    {
        let v = match self.array(key) {
            Ok(v) => v,
            Err(e) => {
                return Err(e);
            },
        };
        let ghost vs = models(*v, v@.len());
        let mut out: Vec<String> = Vec::new();
        let mut i: usize = 0;
        while i < v.len()
            invariant
                i <= v@.len(),
                vs.len() == v@.len(),
                forall|j: int| 0 <= j < vs.len() ==> #[trigger] vs[j] == v@[j].model(),
                self.at(key@) == Some(ValueModel::Array(vs)),
                out@.len() == i,
                forall|j: int| 0 <= j < i ==> (#[trigger] vs[j]) is Text,
                forall|j: int| 0 <= j < i ==> (#[trigger] out@[j])@ == vs[j]->Text_0,
            decreases v@.len() - i,
        {
            assert(vs[i as int] == v@[i as int].model());
            match &v[i] {
                GgufValue::Text(s) => {
                    out.push(s.clone());
                },
                _ => {
                    return Err(MetadataError::WrongType { wanted: Wanted::TextArray });
                },
            }
            i += 1;
        }
        assert(strings(out@) =~= Seq::new(vs.len(), |i: int| vs[i]->Text_0));
        Ok(out)
    }

    /// The integers of the array under a key, of any width. What is none counts
    /// as zero.
    pub fn get_i64_array(&self, key: &str) -> (r: Result<Vec<i64>, MetadataError>)
        ensures
            match self.at(key@) {
                Some(ValueModel::Array(vs)) => r matches Ok(v) && v@ == Seq::new(
                    vs.len(),
                    |i: int| integer(vs[i]) as i64,
                ),
                Some(_) => r == Err::<Vec<i64>, MetadataError>(
                    MetadataError::WrongType { wanted: Wanted::Array },
                ),
                None => r == Err::<Vec<i64>, MetadataError>(MetadataError::Missing),
            },
    {
        let v = match self.array(key) {
            Ok(v) => v,
            Err(e) => {
                return Err(e);
            },
        };
        let ghost vs = models(*v, v@.len());
        let mut out: Vec<i64> = Vec::new();
        let mut i: usize = 0;
        while i < v.len()
            invariant
                i <= v@.len(),
                vs.len() == v@.len(),
                forall|j: int| 0 <= j < vs.len() ==> #[trigger] vs[j] == v@[j].model(),
                out@.len() == i,
                forall|j: int| 0 <= j < i ==> #[trigger] out@[j] == integer(vs[j]),
            decreases v@.len() - i,
        {
            assert(vs[i as int] == v@[i as int].model());
            out.push(to_integer(&v[i]));
            i += 1;
        }
        assert(out@ =~= Seq::new(vs.len(), |i: int| integer(vs[i]) as i64));
        Ok(out)
    }

    /// The booleans of the array under a key; a number counts as whether it is
    /// not zero.
    pub fn get_bool_array(&self, key: &str) -> (r: Result<Vec<bool>, MetadataError>)
        ensures
            match self.at(key@) {
                Some(ValueModel::Array(vs)) => r matches Ok(v) && v@ == Seq::new(
                    vs.len(),
                    |i: int| truth(vs[i]),
                ),
                Some(_) => r == Err::<Vec<bool>, MetadataError>(
                    MetadataError::WrongType { wanted: Wanted::Array },
                ),
                None => r == Err::<Vec<bool>, MetadataError>(MetadataError::Missing),
            },
    {
        let v = match self.array(key) {
            Ok(v) => v,
            Err(e) => {
                return Err(e);
            },
        };
        let ghost vs = models(*v, v@.len());
        let mut out: Vec<bool> = Vec::new();
        let mut i: usize = 0;
        while i < v.len()
            invariant
                i <= v@.len(),
                vs.len() == v@.len(),
                forall|j: int| 0 <= j < vs.len() ==> #[trigger] vs[j] == v@[j].model(),
                out@.len() == i,
                forall|j: int| 0 <= j < i ==> #[trigger] out@[j] == truth(vs[j]),
            decreases v@.len() - i,
        {
            assert(vs[i as int] == v@[i as int].model());
            let b = match &v[i] {
                GgufValue::Bool(b) => *b,
                other => to_integer(other) != 0,
            };
            out.push(b);
            i += 1;
        }
        assert(out@ =~= Seq::new(vs.len(), |i: int| truth(vs[i])));
        Ok(out)
    }
}

proof fn lemma_models(v: Vec<GgufValue>, n: nat)
    requires
        n <= v@.len(),
    ensures
        models(v, n).len() == n,
        forall|i: int| 0 <= i < n ==> #[trigger] models(v, n)[i] == v@[i].model(),
    decreases n,
{
    if n > 0 {
        lemma_models(v, (n - 1) as nat);
    }
}

/// A value as a 64-bit integer, in two's complement; zero where it is none.
pub open spec fn integer(v: ValueModel) -> int {
    match v {
        ValueModel::U8(x) => x as int,
        ValueModel::I8(x) => x as int,
        ValueModel::U16(x) => x as int,
        ValueModel::I16(x) => x as int,
        ValueModel::U32(x) => x as int,
        ValueModel::I32(x) => x as int,
        ValueModel::U64(x) => super::gguf::signed(x as nat, 0x8000_0000_0000_0000),
        ValueModel::I64(x) => x as int,
        _ => 0,
    }
}

/// A value as a boolean.
pub open spec fn truth(v: ValueModel) -> bool {
    match v {
        ValueModel::Bool(b) => b,
        other => integer(other) != 0,
    }
}

fn to_integer(v: &GgufValue) -> (r: i64)
    ensures
        r == integer(v.model()),
{
    match v {
        GgufValue::U8(x) => *x as i64,
        GgufValue::I8(x) => *x as i64,
        GgufValue::U16(x) => *x as i64,
        GgufValue::I16(x) => *x as i64,
        GgufValue::U32(x) => *x as i64,
        GgufValue::I32(x) => *x as i64,
        GgufValue::U64(x) => if *x >= 0x8000_0000_0000_0000 {
            (*x as i128 - 0x1_0000_0000_0000_0000) as i64
        } else {
            *x as i64
        },
        GgufValue::I64(x) => *x,
        _ => 0,
    }
}

/// What a file's tensor data is aligned to.
pub open spec fn alignment_in(metadata: Seq<Named<ValueModel>>) -> u64 {
    match found(metadata, "general.alignment"@) {
        Some(ValueModel::U32(n)) => n as u64,
        Some(ValueModel::U8(n)) => n as u64,
        Some(ValueModel::U16(n)) => n as u64,
        _ => DEFAULT_ALIGNMENT,
    }
}

/// The least multiple of `a` that is not below `n`.
pub open spec fn rounded_up(n: int, a: int) -> int {
    ((n + a - 1) / a) * a
}

impl GgufHeader {
    /// What the tensor data is aligned to.
    pub fn alignment(&self) -> (r: u64)
        ensures
            r == alignment_in(self.model().metadata),
            r <= 0xFFFF_FFFF,
    {
        match self.metadata.get("general.alignment") {
            Some(GgufValue::U32(n)) => *n as u64,
            Some(GgufValue::U8(n)) => *n as u64,
            Some(GgufValue::U16(n)) => *n as u64,
            _ => DEFAULT_ALIGNMENT,
        }
    }

    /// Where the tensor data starts: after the header, aligned. Nowhere, where
    /// the alignment is zero or the place is past what 64 bits can count.
    pub fn data_offset(&self) -> (r: Option<u64>)
        ensures
            r == data_at(self.model()),
    {
        let a: u64 = self.alignment();
        if a == 0 {
            return None;
        }
        let n: u64 = self.end as u64;
        let over: u64 = n % a;
        proof {
            lemma_rounded_up(n as int, a as int);
        }
        if over == 0 {
            Some(n)
        } else {
            n.checked_add(a - over)
        }
    }
}

/// Where the tensor data of a file starts, if it can be told.
pub open spec fn data_at(h: HeaderModel) -> Option<u64> {
    let a = alignment_in(h.metadata) as int;
    if a == 0 || rounded_up(h.end as int, a) > u64::MAX {
        None
    } else {
        Some(rounded_up(h.end as int, a) as u64)
    }
}

proof fn lemma_rounded_up(n: int, a: int)
    requires
        n >= 0,
        a > 0,
    ensures
        rounded_up(n, a) == (if n % a == 0 {
            n
        } else {
            n + (a - n % a)
        }),
{
    law_tensor_data_is_aligned(n, a);
    let m = if n % a == 0 {
        n
    } else {
        n + (a - n % a)
    };
    let q = n / a;
    vstd::arithmetic::div_mod::lemma_fundamental_div_mod(n, a);
    vstd::arithmetic::div_mod::lemma_mod_bound(n, a);
    vstd::arithmetic::div_mod::lemma_fundamental_div_mod(rounded_up(n, a), a);
    let k = rounded_up(n, a) / a;
    if n % a == 0 {
        assert(m == a * q);
        assert(k == q) by (nonlinear_arith)
            requires
                a * q <= a * k < a * q + a,
                a > 0,
        ;
    } else {
        assert(m == a * (q + 1)) by (nonlinear_arith)
            requires
                n == a * q + n % a,
                m == n + (a - n % a),
        ;
        assert(k == q + 1) by (nonlinear_arith)
            requires
                a * q < a * k,
                a * k < a * q + a + a,
                a > 0,
        ;
    }
}

/// Tensor data starts at a multiple of the alignment, behind the header, and at
/// the first such place.
pub proof fn law_tensor_data_is_aligned(n: int, a: int)
    requires
        n >= 0,
        a > 0,
    ensures
        rounded_up(n, a) % a == 0,
        n <= rounded_up(n, a) < n + a,
{
    let q = (n + a - 1) / a;
    vstd::arithmetic::div_mod::lemma_fundamental_div_mod(n + a - 1, a);
    vstd::arithmetic::div_mod::lemma_mod_bound(n + a - 1, a);
    assert(a * q == q * a) by (nonlinear_arith);
    vstd::arithmetic::div_mod::lemma_mod_multiples_basic(q, a);
}

} // verus!
