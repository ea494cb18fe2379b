//! The header of a GGUF file: metadata, and where each tensor lies. Tensor
//! types that are not known are kept as they stand.

use crate::bytes::{le_value, lemma_byte_ranges, read_le};
use crate::text::{decimal, lossy_text, hex, push_decimal, push_hex, same, text_of};
use vstd::prelude::*;
use vstd::slice::slice_subrange;
use vstd::string::StringExecFns;

verus! {

/// Which of the two layouts a file has: the first counts in 32 bits, the later
/// ones in 64.
#[derive(Debug, Clone, Copy, PartialEq, Eq, Structural)]
pub enum GgufVersion {
    V1,
    V2V3,
}

impl GgufVersion {
    /// Bytes of a count.
    pub open spec fn count_len(self) -> nat {
        match self {
            GgufVersion::V1 => 4,
            GgufVersion::V2V3 => 8,
        }
    }
}

/// Why bytes are no header.
#[derive(Debug, Clone, Copy, PartialEq, Eq, Structural)]
pub enum GgufError {
    /// The file ends before its header does.
    Short,
    UnknownMagic { magic: u32 },
    UnknownVersion { version: u32 },
    UnknownValueType { vtype: u32 },
}

impl GgufError {
    /// What to tell a user.
    pub open spec fn text(self) -> Seq<char> {
        match self {
            GgufError::Short => "failed to fill whole buffer"@,
            GgufError::UnknownMagic { magic } => "unknown GGUF magic 0x"@ + hex(magic as u64, 8),
            GgufError::UnknownVersion { version } => "unknown GGUF version "@ + decimal(
                version as nat,
            ),
            GgufError::UnknownValueType { vtype } => "unknown GGUF value type "@ + decimal(
                vtype as nat,
            ),
        }
    }

    pub fn message(&self) -> (r: String)
        ensures
            r@ == self.text(),
    {
        let mut s = String::new();
        match self {
            GgufError::Short => {
                s.append("failed to fill whole buffer");
            },
            GgufError::UnknownMagic { magic } => {
                s.append("unknown GGUF magic 0x");
                push_hex(&mut s, *magic as u64, 8);
            },
            GgufError::UnknownVersion { version } => {
                s.append("unknown GGUF version ");
                push_decimal(&mut s, *version as u64);
            },
            GgufError::UnknownValueType { vtype } => {
                s.append("unknown GGUF value type ");
                push_decimal(&mut s, *vtype as u64);
            },
        }
        assert(s@ =~= self.text());
        s
    }
}

/// A metadata value. Floats are kept as their bits.
#[derive(Debug)]
pub enum GgufValue {
    U8(u8),
    I8(i8),
    U16(u16),
    I16(i16),
    U32(u32),
    I32(i32),
    F32(u32),
    Bool(bool),
    Text(String),
    Array(Vec<GgufValue>),
    U64(u64),
    I64(i64),
    F64(u64),
}

/// What a [`GgufValue`] holds.
pub enum ValueModel {
    U8(u8),
    I8(i8),
    U16(u16),
    I16(i16),
    U32(u32),
    I32(i32),
    F32(u32),
    Bool(bool),
    Text(Seq<char>),
    Array(Seq<ValueModel>),
    U64(u64),
    I64(i64),
    F64(u64),
}

impl GgufValue {
    pub open spec fn model(self) -> ValueModel
        decreases self, 0nat,
    {
        match self {
            GgufValue::U8(x) => ValueModel::U8(x),
            GgufValue::I8(x) => ValueModel::I8(x),
            GgufValue::U16(x) => ValueModel::U16(x),
            GgufValue::I16(x) => ValueModel::I16(x),
            GgufValue::U32(x) => ValueModel::U32(x),
            GgufValue::I32(x) => ValueModel::I32(x),
            GgufValue::F32(x) => ValueModel::F32(x),
            GgufValue::Bool(x) => ValueModel::Bool(x),
            GgufValue::Text(s) => ValueModel::Text(s@),
            GgufValue::Array(v) => ValueModel::Array(models(v, v.len() as nat)),
            GgufValue::U64(x) => ValueModel::U64(x),
            GgufValue::I64(x) => ValueModel::I64(x),
            GgufValue::F64(x) => ValueModel::F64(x),
        }
    }
}

/// What the first `n` values of a list hold.
pub open spec fn models(v: Vec<GgufValue>, n: nat) -> Seq<ValueModel>
    decreases v, n,
{
    if n == 0 || n > v.len() {
        Seq::empty()
    } else {
        models(v, (n - 1) as nat).push(v[n - 1].model())
    }
}

/// The `k` bytes at `at` as a number, and the place after them.
pub open spec fn uint_at(s: Seq<u8>, at: nat, k: nat) -> Result<(nat, nat), GgufError> {
    if at + k <= s.len() {
        Ok((le_value(s.subrange(at as int, (at + k) as int)), at + k))
    } else {
        Err(GgufError::Short)
    }
}

/// A number of `k` bytes in two's complement.
pub open spec fn signed(n: nat, half: int) -> int {
    if n >= half {
        n - 2 * half
    } else {
        n as int
    }
}

/// Bytes without the zeros at their end, among the first `n`.
pub open spec fn without_zeros(s: Seq<u8>, n: int) -> int
    decreases n,
{
    if 0 < n <= s.len() && s[n - 1] == 0 {
        without_zeros(s, n - 1)
    } else {
        n
    }
}

/// The text at `at`, which its length comes before, and the place after it.
/// Zeros at its end are dropped.
pub open spec fn text_at(s: Seq<u8>, at: nat, ver: GgufVersion) -> Result<
    (Seq<char>, nat),
    GgufError,
> {
    match uint_at(s, at, ver.count_len()) {
        Err(e) => Err(e),
        Ok((len, p)) => if p + len <= s.len() {
            let bytes = s.subrange(p as int, (p + len) as int);
            Ok((text_of(bytes.take(without_zeros(bytes, bytes.len() as int))), p + len))
        } else {
            Err(GgufError::Short)
        },
    }
}

/// The value of type `vtype` at `at`, and the place after it.
pub open spec fn value_at(s: Seq<u8>, at: nat, vtype: u32, ver: GgufVersion) -> Result<
    (ValueModel, nat),
    GgufError,
>
    decreases s.len() - at, 0nat, 0nat,
{
    if vtype == 0 {
        match uint_at(s, at, 1) {
            Ok((n, p)) => Ok((ValueModel::U8(n as u8), p)),
            Err(e) => Err(e),
        }
    } else if vtype == 1 {
        match uint_at(s, at, 1) {
            Ok((n, p)) => Ok((ValueModel::I8(signed(n, 0x80) as i8), p)),
            Err(e) => Err(e),
        }
    } else if vtype == 2 {
        match uint_at(s, at, 2) {
            Ok((n, p)) => Ok((ValueModel::U16(n as u16), p)),
            Err(e) => Err(e),
        }
    } else if vtype == 3 {
        match uint_at(s, at, 2) {
            Ok((n, p)) => Ok((ValueModel::I16(signed(n, 0x8000) as i16), p)),
            Err(e) => Err(e),
        }
    } else if vtype == 4 {
        match uint_at(s, at, 4) {
            Ok((n, p)) => Ok((ValueModel::U32(n as u32), p)),
            Err(e) => Err(e),
        }
    } else if vtype == 5 {
        match uint_at(s, at, 4) {
            Ok((n, p)) => Ok((ValueModel::I32(signed(n, 0x8000_0000) as i32), p)),
            Err(e) => Err(e),
        }
    } else if vtype == 6 {
        match uint_at(s, at, 4) {
            Ok((n, p)) => Ok((ValueModel::F32(n as u32), p)),
            Err(e) => Err(e),
        }
    } else if vtype == 7 {
        match uint_at(s, at, 1) {
            Ok((n, p)) => Ok((ValueModel::Bool(n != 0), p)),
            Err(e) => Err(e),
        }
    } else if vtype == 8 {
        match text_at(s, at, ver) {
            Ok((t, p)) => Ok((ValueModel::Text(t), p)),
            Err(e) => Err(e),
        }
    } else if vtype == 9 {
        match uint_at(s, at, 4) {
            Err(e) => Err(e),
            Ok((elem, p)) => match uint_at(s, p, ver.count_len()) {
                Err(e) => Err(e),
                Ok((count, q)) => match elements_at(s, q, elem as u32, ver, count) {
                    Ok((vs, r)) => Ok((ValueModel::Array(vs), r)),
                    Err(e) => Err(e),
                },
            },
        }
    } else if vtype == 10 {
        match uint_at(s, at, 8) {
            Ok((n, p)) => Ok((ValueModel::U64(n as u64), p)),
            Err(e) => Err(e),
        }
    } else if vtype == 11 {
        match uint_at(s, at, 8) {
            Ok((n, p)) => Ok((ValueModel::I64(signed(n, 0x8000_0000_0000_0000) as i64), p)),
            Err(e) => Err(e),
        }
    } else if vtype == 12 {
        match uint_at(s, at, 8) {
            Ok((n, p)) => Ok((ValueModel::F64(n as u64), p)),
            Err(e) => Err(e),
        }
    } else {
        Err(GgufError::UnknownValueType { vtype })
    }
}

/// The `n` values of type `elem` that follow each other from `at` on, and the
/// place after them.
pub open spec fn elements_at(s: Seq<u8>, at: nat, elem: u32, ver: GgufVersion, n: nat) -> Result<
    (Seq<ValueModel>, nat),
    GgufError,
>
    decreases s.len() - at, 1nat, n,
{
    if n == 0 {
        Ok((Seq::empty(), at))
    } else {
        match elements_at(s, at, elem, ver, (n - 1) as nat) {
            Err(e) => Err(e),
            Ok((vs, p)) => if at <= p <= s.len() {
                match value_at(s, p, elem, ver) {
                    Ok((v, q)) => Ok((vs.push(v), q)),
                    Err(e) => Err(e),
                }
            } else {
                Err(GgufError::Short)
            },
        }
    }
}

proof fn lemma_elements_err(s: Seq<u8>, at: nat, elem: u32, ver: GgufVersion, k: nat, n: nat)
    requires
        k <= n,
        elements_at(s, at, elem, ver, k) is Err,
    ensures
        elements_at(s, at, elem, ver, n) == elements_at(s, at, elem, ver, k),
    decreases n - k,
{
    if k < n {
        lemma_elements_err(s, at, elem, ver, k, (n - 1) as nat);
    }
}

/// Read `k` bytes as a number.
fn read_uint(src: &[u8], at: usize, k: usize) -> (r: Result<(u64, usize), GgufError>)
    requires
        k <= 8,
        at <= src@.len(),
    ensures
        match r {
            Ok((n, p)) => {
                &&& uint_at(src@, at as nat, k as nat) == Ok::<(nat, nat), GgufError>(
                    (n as nat, p as nat),
                )
                &&& p == at + k
                &&& p <= src@.len()
                &&& n < crate::bytes::byte_range(k as nat)
            },
            Err(e) => uint_at(src@, at as nat, k as nat) == Err::<(nat, nat), GgufError>(e),
        },
{
    if src.len() - at < k {
        return Err(GgufError::Short);
    }
    Ok((read_le(src, at, k), at + k))
}

/// Read a count.
fn read_count(src: &[u8], at: usize, ver: GgufVersion) -> (r: Result<(u64, usize), GgufError>)
    requires
        at <= src@.len(),
    ensures
        match r {
            Ok((n, p)) => {
                &&& uint_at(src@, at as nat, ver.count_len()) == Ok::<(nat, nat), GgufError>(
                    (n as nat, p as nat),
                )
                &&& p == at + ver.count_len()
                &&& p <= src@.len()
            },
            Err(e) => uint_at(src@, at as nat, ver.count_len()) == Err::<(nat, nat), GgufError>(e),
        },
{
    match ver {
        GgufVersion::V1 => read_uint(src, at, 4),
        GgufVersion::V2V3 => read_uint(src, at, 8),
    }
}

/// What a read text says.
pub open spec fn text_told(r: Result<(String, usize), GgufError>) -> Result<
    (Seq<char>, nat),
    GgufError,
> {
    match r {
        Ok((t, p)) => Ok((t@, p as nat)),
        Err(e) => Err(e),
    }
}

/// Read a text, which its length comes before.
pub fn read_text(src: &[u8], at: usize, ver: GgufVersion) -> (r: Result<
    (String, usize),
    GgufError,
>)
    requires
        at <= src@.len(),
    ensures
        text_told(r) == text_at(src@, at as nat, ver),
        r matches Ok((_, p)) ==> at + ver.count_len() <= p <= src@.len(),
{
    let (len, p) = match read_count(src, at, ver) {
        Ok(x) => x,
        Err(e) => {
            return Err(e);
        },
    };
    let room: usize = src.len() - p;
    if (room as u64) < len {
        return Err(GgufError::Short);
    }
    let end: usize = p + len as usize;
    let bytes = slice_subrange(src, p, end);
    let mut n: usize = bytes.len();
    while n > 0 && bytes[n - 1] == 0
        invariant
            n <= bytes@.len(),
            without_zeros(bytes@, n as int) == without_zeros(bytes@, bytes@.len() as int),
        decreases n,
    {
        n -= 1;
    }
    let kept = slice_subrange(bytes, 0, n);
    assert(kept@ =~= bytes@.take(n as int));
    Ok((lossy_text(kept), end))
}

/// What a read value says.
pub open spec fn value_told(r: Result<(GgufValue, usize), GgufError>) -> Result<
    (ValueModel, nat),
    GgufError,
> {
    match r {
        Ok((v, p)) => Ok((v.model(), p as nat)),
        Err(e) => Err(e),
    }
}

fn to_signed(n: u64, half: u64) -> (r: i64)
    requires
        half <= 0x8000_0000_0000_0000,
        n < 2 * half,
    ensures
        r == signed(n as nat, half as int),
{
    if n >= half {
        (n as i128 - 2 * half as i128) as i64
    } else {
        n as i64
    }
}

/// Read a value of type `vtype`.
pub fn read_value(src: &[u8], at: usize, vtype: u32, ver: GgufVersion) -> (r: Result<
    (GgufValue, usize),
    GgufError,
>)
    requires
        at <= src@.len(),
    ensures
        value_told(r) == value_at(src@, at as nat, vtype, ver),
        r matches Ok((_, p)) ==> at < p <= src@.len(),
    decreases src@.len() - at,
{
    proof {
        lemma_byte_ranges();
    }
    match vtype {
        0 => match read_uint(src, at, 1) {
            Ok((n, p)) => Ok((GgufValue::U8(n as u8), p)),
            Err(e) => Err(e),
        },
        1 => match read_uint(src, at, 1) {
            Ok((n, p)) => Ok((GgufValue::I8(to_signed(n, 0x80) as i8), p)),
            Err(e) => Err(e),
        },
        2 => match read_uint(src, at, 2) {
            Ok((n, p)) => Ok((GgufValue::U16(n as u16), p)),
            Err(e) => Err(e),
        },
        3 => match read_uint(src, at, 2) {
            Ok((n, p)) => Ok((GgufValue::I16(to_signed(n, 0x8000) as i16), p)),
            Err(e) => Err(e),
        },
        4 => match read_uint(src, at, 4) {
            Ok((n, p)) => Ok((GgufValue::U32(n as u32), p)),
            Err(e) => Err(e),
        },
        5 => match read_uint(src, at, 4) {
            Ok((n, p)) => Ok((GgufValue::I32(to_signed(n, 0x8000_0000) as i32), p)),
            Err(e) => Err(e),
        },
        6 => match read_uint(src, at, 4) {
            Ok((n, p)) => Ok((GgufValue::F32(n as u32), p)),
            Err(e) => Err(e),
        },
        7 => match read_uint(src, at, 1) {
            Ok((n, p)) => Ok((GgufValue::Bool(n != 0), p)),
            Err(e) => Err(e),
        },
        8 => match read_text(src, at, ver) {
            Ok((t, p)) => Ok((GgufValue::Text(t), p)),
            Err(e) => Err(e),
        },
        9 => read_array(src, at, ver),
        10 => match read_uint(src, at, 8) {
            Ok((n, p)) => Ok((GgufValue::U64(n), p)),
            Err(e) => Err(e),
        },
        11 => match read_uint(src, at, 8) {
            Ok((n, p)) => Ok((GgufValue::I64(to_signed(n, 0x8000_0000_0000_0000)), p)),
            Err(e) => Err(e),
        },
        12 => match read_uint(src, at, 8) {
            Ok((n, p)) => Ok((GgufValue::F64(n), p)),
            Err(e) => Err(e),
        },
        _ => Err(GgufError::UnknownValueType { vtype }),
    }
}

proof fn lemma_models_push(v: Vec<GgufValue>, w: Vec<GgufValue>, n: nat)
    requires
        n <= v.len(),
        n <= w.len(),
        forall|i: int| 0 <= i < n ==> v@[i] == w@[i],
    ensures
        models(v, n) == models(w, n),
    decreases n,
{
    if n > 0 {
        lemma_models_push(v, w, (n - 1) as nat);
        assert(v@[n - 1] == w@[n - 1]);
    }
}

/// Read an array: the type of its values, how many there are, and the values.
fn read_array(src: &[u8], at: usize, ver: GgufVersion) -> (r: Result<
    (GgufValue, usize),
    GgufError,
>)
    requires
        at <= src@.len(),
    ensures
        value_told(r) == value_at(src@, at as nat, 9, ver),
        r matches Ok((_, p)) ==> at < p <= src@.len(),
    decreases src@.len() - at, 0nat,
{
    proof {
        lemma_byte_ranges();
    }
    let (elem, p) = match read_uint(src, at, 4) {
        Ok(x) => x,
        Err(e) => {
            return Err(e);
        },
    };
    let (count, q) = match read_count(src, p, ver) {
        Ok(x) => x,
        Err(e) => {
            return Err(e);
        },
    };
    let elem: u32 = elem as u32;
    let mut out: Vec<GgufValue> = Vec::new();
    let mut pos: usize = q;
    let mut k: u64 = 0;
    while k < count
        invariant
            k <= count,
            at < q <= pos <= src@.len(),
            out@.len() == k,
            elements_at(src@, q as nat, elem, ver, k as nat) == Ok::<
                (Seq<ValueModel>, nat),
                GgufError,
            >((models(out, k as nat), pos as nat)),
            value_at(src@, at as nat, 9, ver) == (match elements_at(
                src@,
                q as nat,
                elem,
                ver,
                count as nat,
            ) {
                Ok((vs, r)) => Ok::<(ValueModel, nat), GgufError>((ValueModel::Array(vs), r)),
                Err(e) => Err(e),
            }),
        decreases count - k,
    {
        match read_value(src, pos, elem, ver) {
            Ok((v, next)) => {
                let ghost before = out;
                let ghost m = v.model();
                out.push(v);
                proof {
                    lemma_models_push(before, out, k as nat);
                    assert(models(out, (k + 1) as nat) == models(before, k as nat).push(m));
                }
                pos = next;
            },
            Err(e) => {
                proof {
                    lemma_elements_err(
                        src@,
                        q as nat,
                        elem,
                        ver,
                        (k + 1) as nat,
                        count as nat,
                    );
                }
                return Err(e);
            },
        }
        k += 1;
    }
    Ok((GgufValue::Array(out), pos))
}

/// One metadata entry.
#[derive(Debug)]
pub struct Entry {
    pub key: String,
    pub value: GgufValue,
}

/// Where a tensor lies. The outermost dimension comes first.
#[derive(Debug, Clone, PartialEq, Eq)]
pub struct RawTensorInfo {
    pub name: String,
    pub dims: Vec<u64>,
    pub dtype: u32,
    /// Byte offset within the tensor data.
    pub offset: u64,
}

/// What a [`RawTensorInfo`] says, its name aside.
pub struct TensorModel {
    pub dims: Seq<u64>,
    pub dtype: u32,
    pub offset: u64,
}

impl RawTensorInfo {
    pub open spec fn model(self) -> TensorModel {
        TensorModel { dims: self.dims@, dtype: self.dtype, offset: self.offset }
    }
}

/// Things by their names.
pub struct Named<T> {
    pub key: Seq<char>,
    pub value: T,
}

/// Where a name stands in a list, from position `i` on.
pub open spec fn position<T>(list: Seq<Named<T>>, key: Seq<char>, i: int) -> Option<int>
    decreases list.len() - i,
{
    if i < 0 || i >= list.len() {
        None
    } else if list[i].key == key {
        Some(i)
    } else {
        position(list, key, i + 1)
    }
}

/// What a list has under a name.
pub open spec fn found<T>(list: Seq<Named<T>>, key: Seq<char>) -> Option<T> {
    match position(list, key, 0) {
        Some(i) => Some(list[i].value),
        None => None,
    }
}

/// A list with a thing under a name: in the place of what was there, or last.
pub open spec fn put<T>(list: Seq<Named<T>>, key: Seq<char>, value: T) -> Seq<Named<T>> {
    match position(list, key, 0) {
        Some(i) => list.update(i, Named { key, value }),
        None => list.push(Named { key, value }),
    }
}

/// No name occurs twice.
pub open spec fn names_differ<T>(list: Seq<Named<T>>) -> bool {
    forall|i: int, j: int|
        0 <= i < list.len() && 0 <= j < list.len() && (#[trigger] list[i]).key == (
        #[trigger] list[j]).key ==> i == j
}

pub proof fn lemma_position<T>(list: Seq<Named<T>>, key: Seq<char>, i: int)
    requires
        0 <= i <= list.len(),
    ensures
        match position(list, key, i) {
            Some(k) => i <= k < list.len() && list[k].key == key && forall|j: int|
                i <= j < k ==> (#[trigger] list[j]).key != key,
            None => forall|j: int| i <= j < list.len() ==> (#[trigger] list[j]).key != key,
        },
    decreases list.len() - i,
{
    if i < list.len() && list[i].key != key {
        lemma_position(list, key, i + 1);
    }
}

/// Putting a thing under a name is like writing into a map: it is then found
/// there, what other names have stays, and no name comes to occur twice.
pub proof fn law_put_replaces<T>(list: Seq<Named<T>>, key: Seq<char>, value: T, other: Seq<char>)
    requires
        names_differ(list),
    ensures
        found(put(list, key, value), key) == Some(value),
        other != key ==> found(put(list, key, value), other) == found(list, other),
        names_differ(put(list, key, value)),
{
    lemma_position(list, key, 0);
    lemma_position(list, other, 0);
    let after = put(list, key, value);
    lemma_position(after, key, 0);
    lemma_position(after, other, 0);
    match position(list, key, 0) {
        Some(i) => {
            assert(after[i].key == key);
            let k = position(after, key, 0)->0;
            if k != i {
                assert(list[k].key == key);
            }
        },
        None => {
            assert(after[list.len() as int].key == key);
            let k = position(after, key, 0)->0;
            if k < list.len() {
                assert(list[k].key == key);
            }
        },
    }
    if other != key {
        match position(list, other, 0) {
            Some(k) => {
                assert(after[k].key == other);
                let j = position(after, other, 0)->0;
                assert(list[j].key == other);
            },
            None => {
                if let Some(j) = position(after, other, 0) {
                    assert(after[j].key == other);
                    if j < list.len() {
                        assert(list[j].key == other || j == position(list, key, 0)->0);
                    }
                }
            },
        }
    }
}

/// What a list of metadata entries says.
pub open spec fn entry_models(v: Seq<Entry>) -> Seq<Named<ValueModel>> {
    v.map_values(|e: Entry| Named { key: e.key@, value: e.value.model() })
}

/// What a list of tensor infos says.
pub open spec fn tensor_models(v: Seq<RawTensorInfo>) -> Seq<Named<TensorModel>> {
    v.map_values(|t: RawTensorInfo| Named { key: t.name@, value: t.model() })
}

/// The first `n` metadata entries from `at` on, and the place after them. Of
/// two entries with one key the later counts.
pub open spec fn entries_at(s: Seq<u8>, at: nat, ver: GgufVersion, n: nat) -> Result<
    (Seq<Named<ValueModel>>, nat),
    GgufError,
>
    decreases n,
{
    if n == 0 {
        Ok((Seq::empty(), at))
    } else {
        match entries_at(s, at, ver, (n - 1) as nat) {
            Err(e) => Err(e),
            Ok((done, p)) => match text_at(s, p, ver) {
                Err(e) => Err(e),
                Ok((key, q)) => match uint_at(s, q, 4) {
                    Err(e) => Err(e),
                    Ok((vtype, r)) => match value_at(s, r, vtype as u32, ver) {
                        Err(e) => Err(e),
                        Ok((value, t)) => Ok((put(done, key, value), t)),
                    },
                },
            },
        }
    }
}

/// The `n` dimensions from `at` on, the last of the file first, and the place
/// after them.
pub open spec fn dims_at(s: Seq<u8>, at: nat, ver: GgufVersion, n: nat) -> Result<
    (Seq<u64>, nat),
    GgufError,
>
    decreases n,
{
    if n == 0 {
        Ok((Seq::empty(), at))
    } else {
        match dims_at(s, at, ver, (n - 1) as nat) {
            Err(e) => Err(e),
            Ok((done, p)) => match uint_at(s, p, ver.count_len()) {
                Err(e) => Err(e),
                Ok((d, q)) => Ok((seq![d as u64] + done, q)),
            },
        }
    }
}

/// The tensor info at `at`, its name, and the place after it.
pub open spec fn tensor_at(s: Seq<u8>, at: nat, ver: GgufVersion) -> Result<
    (Seq<char>, TensorModel, nat),
    GgufError,
> {
    match text_at(s, at, ver) {
        Err(e) => Err(e),
        Ok((name, p)) => match uint_at(s, p, 4) {
            Err(e) => Err(e),
            Ok((n_dims, q)) => match dims_at(s, q, ver, n_dims) {
                Err(e) => Err(e),
                Ok((dims, r)) => match uint_at(s, r, 4) {
                    Err(e) => Err(e),
                    Ok((dtype, t)) => match uint_at(s, t, 8) {
                        Err(e) => Err(e),
                        Ok((offset, u)) => Ok(
                            (
                                name,
                                TensorModel { dims, dtype: dtype as u32, offset: offset as u64 },
                                u,
                            ),
                        ),
                    },
                },
            },
        },
    }
}

/// The first `n` tensor infos from `at` on, and the place after them. Of two
/// with one name the later counts.
pub open spec fn tensors_at(s: Seq<u8>, at: nat, ver: GgufVersion, n: nat) -> Result<
    (Seq<Named<TensorModel>>, nat),
    GgufError,
>
    decreases n,
{
    if n == 0 {
        Ok((Seq::empty(), at))
    } else {
        match tensors_at(s, at, ver, (n - 1) as nat) {
            Err(e) => Err(e),
            Ok((done, p)) => match tensor_at(s, p, ver) {
                Err(e) => Err(e),
                Ok((name, info, q)) => Ok((put(done, name, info), q)),
            },
        }
    }
}

/// What a header says, and where it ends.
pub struct HeaderModel {
    pub metadata: Seq<Named<ValueModel>>,
    pub tensors: Seq<Named<TensorModel>>,
    pub end: nat,
}

/// The layout that a version number names.
pub open spec fn version_of(v: nat) -> Option<GgufVersion> {
    if v == 1 {
        Some(GgufVersion::V1)
    } else if v == 2 || v == 3 {
        Some(GgufVersion::V2V3)
    } else {
        None
    }
}

/// The header at the start of a file.
pub open spec fn header_of(s: Seq<u8>) -> Result<HeaderModel, GgufError> {
    match uint_at(s, 0, 4) {
        Err(e) => Err(e),
        Ok((magic, a)) => if magic != 0x4655_4747 && magic != 0x4747_5546 {
            Err(GgufError::UnknownMagic { magic: magic as u32 })
        } else {
            match uint_at(s, a, 4) {
                Err(e) => Err(e),
                Ok((v, b)) => match version_of(v) {
                    None => Err(GgufError::UnknownVersion { version: v as u32 }),
                    Some(ver) => body_of(s, b, ver),
                },
            }
        },
    }
}

/// The rest of a header, from its counts on.
pub open spec fn body_of(s: Seq<u8>, at: nat, ver: GgufVersion) -> Result<HeaderModel, GgufError> {
    match uint_at(s, at, ver.count_len()) {
        Err(e) => Err(e),
        Ok((tensor_count, a)) => match uint_at(s, a, ver.count_len()) {
            Err(e) => Err(e),
            Ok((kv_count, b)) => match entries_at(s, b, ver, kv_count) {
                Err(e) => Err(e),
                Ok((metadata, c)) => match tensors_at(s, c, ver, tensor_count) {
                    Err(e) => Err(e),
                    Ok((tensors, d)) => Ok(HeaderModel { metadata, tensors, end: d }),
                },
            },
        },
    }
}

/// The header of a file.
#[derive(Debug)]
pub struct GgufHeader {
    pub metadata: GgufMetadata,
    pub tensors: Vec<RawTensorInfo>,
    /// Where the header ends.
    pub end: usize,
}

/// A file's metadata.
#[derive(Debug)]
pub struct GgufMetadata {
    pub entries: Vec<Entry>,
}

impl GgufHeader {
    pub open spec fn model(self) -> HeaderModel {
        HeaderModel {
            metadata: entry_models(self.metadata.entries@),
            tensors: tensor_models(self.tensors@),
            end: self.end as nat,
        }
    }
}

fn put_entry(list: &mut Vec<Entry>, key: String, value: GgufValue)
    ensures
        entry_models(final(list)@) == put(entry_models(old(list)@), key@, value.model()),
{
    let ghost all = entry_models(list@);
    let ghost named = Named { key: key@, value: value.model() };
    let mut i: usize = 0;
    while i < list.len()
        invariant
            i <= list@.len(),
            list == old(list),
            all == entry_models(list@),
            named == (Named { key: key@, value: value.model() }),
            position(all, key@, 0) == position(all, key@, i as int),
        decreases list@.len() - i,
    {
        assert(all[i as int].key == list@[i as int].key@);
        if same(list[i].key.as_str(), key.as_str()) {
            list.set(i, Entry { key, value });
            assert(entry_models(list@) =~= all.update(i as int, named));
            return;
        }
        i += 1;
    }
    list.push(Entry { key, value });
    assert(entry_models(list@) =~= all.push(named));
}

fn put_tensor(list: &mut Vec<RawTensorInfo>, info: RawTensorInfo)
    ensures
        tensor_models(final(list)@) == put(tensor_models(old(list)@), info.name@, info.model()),
{
    let ghost all = tensor_models(list@);
    let ghost named = Named { key: info.name@, value: info.model() };
    let mut i: usize = 0;
    while i < list.len()
        invariant
            i <= list@.len(),
            list == old(list),
            all == tensor_models(list@),
            named == (Named { key: info.name@, value: info.model() }),
            position(all, info.name@, 0) == position(all, info.name@, i as int),
        decreases list@.len() - i,
    {
        assert(all[i as int].key == list@[i as int].name@);
        if same(list[i].name.as_str(), info.name.as_str()) {
            list.set(i, info);
            assert(tensor_models(list@) =~= all.update(i as int, named));
            return;
        }
        i += 1;
    }
    list.push(info);
    assert(tensor_models(list@) =~= all.push(named));
}

proof fn lemma_entries_err(s: Seq<u8>, at: nat, ver: GgufVersion, k: nat, n: nat)
    requires
        k <= n,
        entries_at(s, at, ver, k) is Err,
    ensures
        entries_at(s, at, ver, n) is Err,
        entries_at(s, at, ver, n)->Err_0 == entries_at(s, at, ver, k)->Err_0,
    decreases n - k,
{
    if k < n {
        lemma_entries_err(s, at, ver, k, (n - 1) as nat);
    }
}

proof fn lemma_dims_err(s: Seq<u8>, at: nat, ver: GgufVersion, k: nat, n: nat)
    requires
        k <= n,
        dims_at(s, at, ver, k) is Err,
    ensures
        dims_at(s, at, ver, n) is Err,
        dims_at(s, at, ver, n)->Err_0 == dims_at(s, at, ver, k)->Err_0,
    decreases n - k,
{
    if k < n {
        lemma_dims_err(s, at, ver, k, (n - 1) as nat);
    }
}

proof fn lemma_tensors_err(s: Seq<u8>, at: nat, ver: GgufVersion, k: nat, n: nat)
    requires
        k <= n,
        tensors_at(s, at, ver, k) is Err,
    ensures
        tensors_at(s, at, ver, n) is Err,
        tensors_at(s, at, ver, n)->Err_0 == tensors_at(s, at, ver, k)->Err_0,
    decreases n - k,
{
    if k < n {
        lemma_tensors_err(s, at, ver, k, (n - 1) as nat);
    }
}

/// Read metadata entries.
fn read_entries(src: &[u8], at: usize, ver: GgufVersion, n: u64) -> (r: Result<
    (Vec<Entry>, usize),
    GgufError,
>)
    requires
        at <= src@.len(),
    ensures
        (match r {
            Ok((v, p)) => Ok::<(Seq<Named<ValueModel>>, nat), GgufError>(
                (entry_models(v@), p as nat),
            ),
            Err(e) => Err(e),
        }) == entries_at(src@, at as nat, ver, n as nat),
        r matches Ok((_, p)) ==> p <= src@.len(),
{
    let mut out: Vec<Entry> = Vec::new();
    let mut pos: usize = at;
    let mut k: u64 = 0;
    assert(entry_models(out@) =~= Seq::empty());
    while k < n
        invariant
            k <= n,
            pos <= src@.len(),
            entries_at(src@, at as nat, ver, k as nat) == Ok::<
                (Seq<Named<ValueModel>>, nat),
                GgufError,
            >((entry_models(out@), pos as nat)),
        decreases n - k,
    {
        let (key, p) = match read_text(src, pos, ver) {
            Ok(x) => x,
            Err(e) => {
                proof {
                    lemma_entries_err(src@, at as nat, ver, (k + 1) as nat, n as nat);
                }
                return Err(e);
            },
        };
        proof {
            lemma_byte_ranges();
        }
        let (vtype, q) = match read_uint(src, p, 4) {
            Ok(x) => x,
            Err(e) => {
                proof {
                    lemma_entries_err(src@, at as nat, ver, (k + 1) as nat, n as nat);
                }
                return Err(e);
            },
        };
        let (value, r) = match read_value(src, q, vtype as u32, ver) {
            Ok(x) => x,
            Err(e) => {
                proof {
                    lemma_entries_err(src@, at as nat, ver, (k + 1) as nat, n as nat);
                }
                return Err(e);
            },
        };
        put_entry(&mut out, key, value);
        pos = r;
        k += 1;
    }
    Ok((out, pos))
}

/// Read dimensions, and turn them round.
fn read_dims(src: &[u8], at: usize, ver: GgufVersion, n: u64) -> (r: Result<
    (Vec<u64>, usize),
    GgufError,
>)
    requires
        at <= src@.len(),
    ensures
        (match r {
            Ok((v, p)) => Ok::<(Seq<u64>, nat), GgufError>((v@, p as nat)),
            Err(e) => Err(e),
        }) == dims_at(src@, at as nat, ver, n as nat),
        r matches Ok((_, p)) ==> p <= src@.len(),
{
    let mut out: Vec<u64> = Vec::new();
    let mut pos: usize = at;
    let mut k: u64 = 0;
    assert(out@ =~= Seq::empty());
    while k < n
        invariant
            k <= n,
            pos <= src@.len(),
            dims_at(src@, at as nat, ver, k as nat) == Ok::<(Seq<u64>, nat), GgufError>(
                (out@, pos as nat),
            ),
        decreases n - k,
    {
        let (d, p) = match read_count(src, pos, ver) {
            Ok(x) => x,
            Err(e) => {
                proof {
                    lemma_dims_err(src@, at as nat, ver, (k + 1) as nat, n as nat);
                }
                return Err(e);
            },
        };
        let ghost before = out@;
        out.insert(0, d);
        assert(out@ =~= seq![d] + before);
        pos = p;
        k += 1;
    }
    Ok((out, pos))
}

/// Read one tensor info.
fn read_tensor(src: &[u8], at: usize, ver: GgufVersion) -> (r: Result<
    (RawTensorInfo, usize),
    GgufError,
>)
    requires
        at <= src@.len(),
    ensures
        (match r {
            Ok((t, p)) => Ok::<(Seq<char>, TensorModel, nat), GgufError>(
                (t.name@, t.model(), p as nat),
            ),
            Err(e) => Err(e),
        }) == tensor_at(src@, at as nat, ver),
        r matches Ok((_, p)) ==> p <= src@.len(),
{
    proof {
        lemma_byte_ranges();
    }
    let (name, a) = match read_text(src, at, ver) {
        Ok(x) => x,
        Err(e) => {
            return Err(e);
        },
    };
    let (n_dims, b) = match read_uint(src, a, 4) {
        Ok(x) => x,
        Err(e) => {
            return Err(e);
        },
    };
    let (dims, c) = match read_dims(src, b, ver, n_dims) {
        Ok(x) => x,
        Err(e) => {
            return Err(e);
        },
    };
    let (dtype, d) = match read_uint(src, c, 4) {
        Ok(x) => x,
        Err(e) => {
            return Err(e);
        },
    };
    let (offset, f) = match read_uint(src, d, 8) {
        Ok(x) => x,
        Err(e) => {
            return Err(e);
        },
    };
    Ok((RawTensorInfo { name, dims, dtype: dtype as u32, offset }, f))
}

/// Read tensor infos.
fn read_tensors(src: &[u8], at: usize, ver: GgufVersion, n: u64) -> (r: Result<
    (Vec<RawTensorInfo>, usize),
    GgufError,
>)
    requires
        at <= src@.len(),
    ensures
        (match r {
            Ok((v, p)) => Ok::<(Seq<Named<TensorModel>>, nat), GgufError>(
                (tensor_models(v@), p as nat),
            ),
            Err(e) => Err(e),
        }) == tensors_at(src@, at as nat, ver, n as nat),
        r matches Ok((_, p)) ==> p <= src@.len(),
{
    let mut out: Vec<RawTensorInfo> = Vec::new();
    let mut pos: usize = at;
    let mut k: u64 = 0;
    assert(tensor_models(out@) =~= Seq::empty());
    while k < n
        invariant
            k <= n,
            pos <= src@.len(),
            tensors_at(src@, at as nat, ver, k as nat) == Ok::<
                (Seq<Named<TensorModel>>, nat),
                GgufError,
            >((tensor_models(out@), pos as nat)),
        decreases n - k,
    {
        match read_tensor(src, pos, ver) {
            Ok((info, p)) => {
                put_tensor(&mut out, info);
                pos = p;
            },
            Err(e) => {
                proof {
                    lemma_tensors_err(src@, at as nat, ver, (k + 1) as nat, n as nat);
                }
                return Err(e);
            },
        }
        k += 1;
    }
    Ok((out, pos))
}

/// Read a file's header. Tensor types that are not known do no harm here.
pub fn parse_gguf_tolerant(src: &[u8]) -> (r: Result<GgufHeader, GgufError>)
    ensures
        (match r {
            Ok(h) => Ok::<HeaderModel, GgufError>(h.model()),
            Err(e) => Err(e),
        }) == header_of(src@),
        r matches Ok(h) ==> h.end <= src@.len(),
{
    proof {
        lemma_byte_ranges();
    }
    let (magic, a) = match read_uint(src, 0, 4) {
        Ok(x) => x,
        Err(e) => {
            return Err(e);
        },
    };
    if magic != 0x4655_4747 && magic != 0x4747_5546 {
        return Err(GgufError::UnknownMagic { magic: magic as u32 });
    }
    let (v, b) = match read_uint(src, a, 4) {
        Ok(x) => x,
        Err(e) => {
            return Err(e);
        },
    };
    let ver = if v == 1 {
        GgufVersion::V1
    } else if v == 2 || v == 3 {
        GgufVersion::V2V3
    } else {
        return Err(GgufError::UnknownVersion { version: v as u32 });
    };
    let (tensor_count, c) = match read_count(src, b, ver) {
        Ok(x) => x,
        Err(e) => {
            return Err(e);
        },
    };
    let (kv_count, d) = match read_count(src, c, ver) {
        Ok(x) => x,
        Err(e) => {
            return Err(e);
        },
    };
    let (entries, f) = match read_entries(src, d, ver, kv_count) {
        Ok(x) => x,
        Err(e) => {
            return Err(e);
        },
    };
    let (tensors, end) = match read_tensors(src, f, ver, tensor_count) {
        Ok(x) => x,
        Err(e) => {
            return Err(e);
        },
    };
    Ok(GgufHeader { metadata: GgufMetadata { entries }, tensors, end })
}

proof fn lemma_entries_differ(s: Seq<u8>, at: nat, ver: GgufVersion, n: nat)
    ensures
        entries_at(s, at, ver, n) matches Ok((list, _)) ==> names_differ(list),
    decreases n,
{
    if n > 0 {
        lemma_entries_differ(s, at, ver, (n - 1) as nat);
        if let Ok((done, p)) = entries_at(s, at, ver, (n - 1) as nat) {
            if let Ok((key, q)) = text_at(s, p, ver) {
                if let Ok((vtype, r)) = uint_at(s, q, 4) {
                    if let Ok((value, _)) = value_at(s, r, vtype as u32, ver) {
                        law_put_replaces(done, key, value, key);
                    }
                }
            }
        }
    }
}

proof fn lemma_tensors_differ(s: Seq<u8>, at: nat, ver: GgufVersion, n: nat)
    ensures
        tensors_at(s, at, ver, n) matches Ok((list, _)) ==> names_differ(list),
    decreases n,
{
    if n > 0 {
        lemma_tensors_differ(s, at, ver, (n - 1) as nat);
        if let Ok((done, p)) = tensors_at(s, at, ver, (n - 1) as nat) {
            if let Ok((name, info, _)) = tensor_at(s, p, ver) {
                law_put_replaces(done, name, info, name);
            }
        }
    }
}

/// In a header that was read, no metadata key and no tensor name occurs twice.
pub proof fn law_names_in_a_header_differ(s: Seq<u8>)
    ensures
        header_of(s) matches Ok(h) ==> names_differ(h.metadata) && names_differ(h.tensors),
{
    if let Ok((magic, a)) = uint_at(s, 0, 4) {
        if let Ok((v, b)) = uint_at(s, a, 4) {
            if let Some(ver) = version_of(v) {
                if let Ok((tensor_count, c)) = uint_at(s, b, ver.count_len()) {
                    if let Ok((kv_count, d)) = uint_at(s, c, ver.count_len()) {
                        lemma_entries_differ(s, d, ver, kv_count);
                        if let Ok((_, e)) = entries_at(s, d, ver, kv_count) {
                            lemma_tensors_differ(s, e, ver, tensor_count);
                        }
                    }
                }
            }
        }
    }
}

} // verus!
