//! What a model file says, byte by byte: whatever is spelled out is what is
//! read, and where its data lies.

use super::gguf::{
    body_of, dims_at, elements_at, entries_at, found, header_of, position, put, signed, tensor_at,
    tensors_at, text_at, uint_at, value_at, without_zeros, GgufError, GgufVersion, HeaderModel,
    Named, TensorModel, ValueModel,
};
use super::layout::{
    block_bytes, block_elems, countable_dims, dotted, expert_at, kind_of, layout_of, planned,
    product, type_of, GgmlType, LayoutError, TensorKind,
};
use super::load::{model_file, LoadErrorModel};
use super::metadata::{alignment_in, data_at, integer, truth, MetadataError, Wanted};
use crate::bytes::{
    byte_range, law_le_value_inverts_le_bytes, le_bytes, lemma_byte_ranges, lemma_le_bytes_len,
};
use crate::text::{decimal, hex};
use vstd::prelude::*;
use vstd::utf8::encode_utf8;

verus! {

/// Whether bytes stand at a place.
pub open spec fn stands(s: Seq<u8>, at: nat, b: Seq<u8>) -> bool {
    at + b.len() <= s.len() && s.subrange(at as int, (at + b.len()) as int) == b
}

proof fn lemma_parts(s: Seq<u8>, at: nat, a: Seq<u8>, b: Seq<u8>)
    requires
        stands(s, at, a + b),
    ensures
        stands(s, at, a),
        stands(s, at + a.len(), b),
{
    let all = s.subrange(at as int, (at + a.len() + b.len()) as int);
    assert(s.subrange(at as int, (at + a.len()) as int) =~= all.subrange(0, a.len() as int));
    assert(all.subrange(0, a.len() as int) =~= a);
    assert(s.subrange((at + a.len()) as int, (at + a.len() + b.len()) as int) =~= all.subrange(
        a.len() as int,
        (a.len() + b.len()) as int,
    ));
    assert(all.subrange(a.len() as int, (a.len() + b.len()) as int) =~= b);
}

/// A number reads back from the bytes it was written in, wherever they stand.
pub proof fn law_a_count_is_read_as_written(s: Seq<u8>, at: nat, n: nat, k: nat)
    requires
        n < byte_range(k),
        stands(s, at, le_bytes(n, k)),
    ensures
        uint_at(s, at, k) == Ok::<(nat, nat), GgufError>((n, at + k)),
{
    law_le_value_inverts_le_bytes(n, k);
}

/// A number of which a byte is missing is too short to read.
pub proof fn law_a_cut_number_is_too_short(s: Seq<u8>, at: nat, k: nat)
    requires
        at + k > s.len(),
    ensures
        uint_at(s, at, k) == Err::<(nat, nat), GgufError>(GgufError::Short),
{
}

/// Whether bytes spell a value of a type, wherever they stand.
pub open spec fn spells(b: Seq<u8>, v: ValueModel, vtype: u32, ver: GgufVersion) -> bool {
    forall|s: Seq<u8>, at: nat|
        #[trigger] stands(s, at, b) ==> value_at(s, at, vtype, ver) == Ok::<
            (ValueModel, nat),
            GgufError,
        >((v, at + b.len()))
}

/// Numbers without a sign, and the bits of floats, are spelled by their bytes,
/// each type in its width.
#[verifier::rlimit(40)]
pub proof fn law_unsigned_values_are_read_as_written(
    ver: GgufVersion,
    x: u8,
    y: u16,
    z: u32,
    w: u64,
    b: bool,
)
    ensures
        spells(le_bytes(x as nat, 1), ValueModel::U8(x), 0, ver),
        spells(le_bytes(y as nat, 2), ValueModel::U16(y), 2, ver),
        spells(le_bytes(z as nat, 4), ValueModel::U32(z), 4, ver),
        spells(le_bytes(z as nat, 4), ValueModel::F32(z), 6, ver),
        spells(le_bytes(flag_value(b), 1), ValueModel::Bool(b), 7, ver),
        spells(le_bytes(w as nat, 8), ValueModel::U64(w), 10, ver),
        spells(le_bytes(w as nat, 8), ValueModel::F64(w), 12, ver),
{
    lemma_byte_ranges();
    let flag = flag_value(b);
    lemma_le_bytes_len(x as nat, 1);
    lemma_le_bytes_len(y as nat, 2);
    lemma_le_bytes_len(z as nat, 4);
    lemma_le_bytes_len(w as nat, 8);
    lemma_le_bytes_len(flag, 1);
    assert forall|s: Seq<u8>, at: nat| #[trigger]
        stands(s, at, le_bytes(x as nat, 1)) implies value_at(s, at, 0, ver) == Ok::<
        (ValueModel, nat),
        GgufError,
    >((ValueModel::U8(x), at + 1)) by {
        law_a_count_is_read_as_written(s, at, x as nat, 1);
    }
    assert forall|s: Seq<u8>, at: nat| #[trigger]
        stands(s, at, le_bytes(y as nat, 2)) implies value_at(s, at, 2, ver) == Ok::<
        (ValueModel, nat),
        GgufError,
    >((ValueModel::U16(y), at + 2)) by {
        law_a_count_is_read_as_written(s, at, y as nat, 2);
    }
    assert forall|s: Seq<u8>, at: nat| #[trigger]
        stands(s, at, le_bytes(z as nat, 4)) implies value_at(s, at, 4, ver) == Ok::<
        (ValueModel, nat),
        GgufError,
    >((ValueModel::U32(z), at + 4)) && value_at(s, at, 6, ver) == Ok::<
        (ValueModel, nat),
        GgufError,
    >((ValueModel::F32(z), at + 4)) by {
        law_a_count_is_read_as_written(s, at, z as nat, 4);
    }
    assert forall|s: Seq<u8>, at: nat| #[trigger]
        stands(s, at, le_bytes(flag, 1)) implies value_at(s, at, 7, ver) == Ok::<
        (ValueModel, nat),
        GgufError,
    >((ValueModel::Bool(b), at + 1)) by {
        law_a_count_is_read_as_written(s, at, flag, 1);
    }
    assert forall|s: Seq<u8>, at: nat| #[trigger]
        stands(s, at, le_bytes(w as nat, 8)) implies value_at(s, at, 10, ver) == Ok::<
        (ValueModel, nat),
        GgufError,
    >((ValueModel::U64(w), at + 8)) && value_at(s, at, 12, ver) == Ok::<
        (ValueModel, nat),
        GgufError,
    >((ValueModel::F64(w), at + 8)) by {
        law_a_count_is_read_as_written(s, at, w as nat, 8);
    }
}

/// The number that stands for a truth value.
pub open spec fn flag_value(b: bool) -> nat {
    if b {
        1
    } else {
        0
    }
}

/// Numbers with a sign are spelled by their bytes in two's complement, each type
/// in its width.
pub proof fn law_signed_values_are_read_as_written(
    ver: GgufVersion,
    x: i8,
    y: i16,
    z: i32,
    w: i64,
)
    ensures
        spells(le_bytes((x as int % 0x100) as nat, 1), ValueModel::I8(x), 1, ver),
        spells(le_bytes((y as int % 0x1_0000) as nat, 2), ValueModel::I16(y), 3, ver),
        spells(le_bytes((z as int % 0x1_0000_0000) as nat, 4), ValueModel::I32(z), 5, ver),
        spells(
            le_bytes((w as int % 0x1_0000_0000_0000_0000) as nat, 8),
            ValueModel::I64(w),
            11,
            ver,
        ),
{
    lemma_byte_ranges();
    let p = (x as int % 0x100) as nat;
    let q = (y as int % 0x1_0000) as nat;
    let r = (z as int % 0x1_0000_0000) as nat;
    let t = (w as int % 0x1_0000_0000_0000_0000) as nat;
    lemma_le_bytes_len(p, 1);
    lemma_le_bytes_len(q, 2);
    lemma_le_bytes_len(r, 4);
    lemma_le_bytes_len(t, 8);
    assert(signed(p, 0x80) == x);
    assert(signed(q, 0x8000) == y);
    assert(signed(r, 0x8000_0000) == z);
    assert(signed(t, 0x8000_0000_0000_0000) == w);
    assert forall|s: Seq<u8>, at: nat| #[trigger]
        stands(s, at, le_bytes(p, 1)) implies value_at(s, at, 1, ver) == Ok::<
        (ValueModel, nat),
        GgufError,
    >((ValueModel::I8(x), at + 1)) by {
        law_a_count_is_read_as_written(s, at, p, 1);
    }
    assert forall|s: Seq<u8>, at: nat| #[trigger]
        stands(s, at, le_bytes(q, 2)) implies value_at(s, at, 3, ver) == Ok::<
        (ValueModel, nat),
        GgufError,
    >((ValueModel::I16(y), at + 2)) by {
        law_a_count_is_read_as_written(s, at, q, 2);
    }
    assert forall|s: Seq<u8>, at: nat| #[trigger]
        stands(s, at, le_bytes(r, 4)) implies value_at(s, at, 5, ver) == Ok::<
        (ValueModel, nat),
        GgufError,
    >((ValueModel::I32(z), at + 4)) by {
        law_a_count_is_read_as_written(s, at, r, 4);
    }
    assert forall|s: Seq<u8>, at: nat| #[trigger]
        stands(s, at, le_bytes(t, 8)) implies value_at(s, at, 11, ver) == Ok::<
        (ValueModel, nat),
        GgufError,
    >((ValueModel::I64(w), at + 8)) by {
        law_a_count_is_read_as_written(s, at, t, 8);
    }
}

/// How wide a version counts.
pub open spec fn wide(ver: GgufVersion) -> nat {
    match ver {
        GgufVersion::V1 => 4,
        GgufVersion::V2V3 => 8,
    }
}

/// A text on disk: its length in bytes, and then the bytes, with some zeros
/// behind them that do not count.
pub open spec fn text_bytes(t: Seq<char>, zeros: nat, ver: GgufVersion) -> Seq<u8> {
    let b = encode_utf8(t);
    le_bytes(b.len() + zeros, wide(ver)) + (b + Seq::new(zeros, |i: int| 0u8))
}

/// Whether a text can be written: it does not end in a zero of its own, and its
/// length can be counted.
pub open spec fn writable(t: Seq<char>, zeros: nat, ver: GgufVersion) -> bool {
    let b = encode_utf8(t);
    &&& b.len() > 0 ==> b.last() != 0
    &&& b.len() + zeros < byte_range(wide(ver))
}

/// A text reads back as it was written, without the zeros behind it.
pub proof fn law_a_text_is_read_as_written(
    s: Seq<u8>,
    at: nat,
    t: Seq<char>,
    zeros: nat,
    ver: GgufVersion,
)
    requires
        writable(t, zeros, ver),
        stands(s, at, text_bytes(t, zeros, ver)),
    ensures
        text_at(s, at, ver) == Ok::<(Seq<char>, nat), GgufError>(
            (t, at + text_bytes(t, zeros, ver).len()),
        ),
        text_bytes(t, zeros, ver).len() == wide(ver) + encode_utf8(t).len() + zeros,
{
    let b = encode_utf8(t);
    let z = Seq::new(zeros, |i: int| 0u8);
    let n = b.len() + zeros;
    let k = wide(ver);
    lemma_le_bytes_len(n, k);
    lemma_parts(s, at, le_bytes(n, k), b + z);
    law_a_count_is_read_as_written(s, at, n, k);
    let p = at + k;
    let body = s.subrange(p as int, (p + n) as int);
    assert(body == b + z);
    lemma_zeros(b, zeros, n as int);
    assert(body.take(b.len() as int) =~= b);
    vstd::utf8::encode_utf8_valid_utf8(t);
    vstd::utf8::encode_utf8_decode_utf8(t);
}

proof fn lemma_zeros(b: Seq<u8>, zeros: nat, n: int)
    requires
        b.len() > 0 ==> b.last() != 0,
        b.len() <= n <= b.len() + zeros,
    ensures
        without_zeros(b + Seq::new(zeros, |i: int| 0u8), n) == b.len(),
    decreases n,
{
    let s = b + Seq::new(zeros, |i: int| 0u8);
    if n > b.len() {
        assert(s[n - 1] == 0);
        lemma_zeros(b, zeros, n - 1);
    } else if n > 0 {
        assert(s[n - 1] == b.last());
    }
}

/// A text is a value too.
pub proof fn law_a_text_is_a_value(t: Seq<char>, zeros: nat, ver: GgufVersion)
    requires
        writable(t, zeros, ver),
    ensures
        spells(text_bytes(t, zeros, ver), ValueModel::Text(t), 8, ver),
{
    let b = text_bytes(t, zeros, ver);
    assert forall|s: Seq<u8>, at: nat| #[trigger] stands(s, at, b) implies value_at(s, at, 8, ver)
        == Ok::<(ValueModel, nat), GgufError>((ValueModel::Text(t), at + b.len())) by {
        law_a_text_is_read_as_written(s, at, t, zeros, ver);
    }
}

/// The bytes of several things, one after the other.
pub open spec fn chained(parts: Seq<Seq<u8>>) -> Seq<u8>
    decreases parts.len(),
{
    if parts.len() == 0 {
        Seq::empty()
    } else {
        chained(parts.drop_last()) + parts.last()
    }
}

/// An array is a value: the type of its elements, how many there are, and each of
/// them in its order. So are arrays of arrays.
#[verifier::rlimit(40)]
pub proof fn law_an_array_is_read_as_written(
    elem: u32,
    parts: Seq<Seq<u8>>,
    values: Seq<ValueModel>,
    ver: GgufVersion,
)
    requires
        parts.len() == values.len(),
        values.len() < byte_range(wide(ver)),
        forall|i: int| 0 <= i < values.len() ==> spells(#[trigger] parts[i], values[i], elem, ver),
    ensures
        spells(
            le_bytes(elem as nat, 4) + (le_bytes(values.len(), wide(ver)) + chained(parts)),
            ValueModel::Array(values),
            9,
            ver,
        ),
{
    lemma_byte_ranges();
    let n = values.len();
    let k = wide(ver);
    let head = le_bytes(elem as nat, 4);
    let count = le_bytes(n, k);
    let body = chained(parts);
    let b = head + (count + body);
    lemma_le_bytes_len(elem as nat, 4);
    lemma_le_bytes_len(n, k);
    assert forall|s: Seq<u8>, at: nat| #[trigger] stands(s, at, b) implies value_at(s, at, 9, ver)
        == Ok::<(ValueModel, nat), GgufError>((ValueModel::Array(values), at + b.len())) by {
        lemma_parts(s, at, head, count + body);
        lemma_parts(s, at + 4, count, body);
        law_a_count_is_read_as_written(s, at, elem as nat, 4);
        law_a_count_is_read_as_written(s, at + 4, n, k);
        lemma_elements(s, at + 4 + k, elem, parts, values, ver);
    }
}

proof fn lemma_elements(
    s: Seq<u8>,
    at: nat,
    elem: u32,
    parts: Seq<Seq<u8>>,
    values: Seq<ValueModel>,
    ver: GgufVersion,
)
    requires
        parts.len() == values.len(),
        forall|i: int| 0 <= i < values.len() ==> spells(#[trigger] parts[i], values[i], elem, ver),
        stands(s, at, chained(parts)),
    ensures
        elements_at(s, at, elem, ver, values.len()) == Ok::<(Seq<ValueModel>, nat), GgufError>(
            (values, at + chained(parts).len()),
        ),
    decreases values.len(),
{
    if values.len() > 0 {
        let (before, done) = (parts.drop_last(), values.drop_last());
        let last = parts.last();
        lemma_parts(s, at, chained(before), last);
        assert forall|i: int| 0 <= i < done.len() implies spells(
            #[trigger] before[i],
            done[i],
            elem,
            ver,
        ) by {
            assert(spells(parts[i], values[i], elem, ver));
        }
        lemma_elements(s, at, elem, before, done, ver);
        assert(spells(parts[parts.len() - 1], values[values.len() - 1], elem, ver));
        assert(stands(s, at + chained(before).len(), last));
        assert(done.push(values.last()) =~= values);
    } else {
        assert(values =~= Seq::empty());
    }
}

/// A value of a type that there is none of is refused by its number.
pub proof fn law_an_unknown_type_is_refused(s: Seq<u8>, at: nat, vtype: u32, ver: GgufVersion)
    requires
        vtype > 12,
    ensures
        value_at(s, at, vtype, ver) == Err::<(ValueModel, nat), GgufError>(
            GgufError::UnknownValueType { vtype },
        ),
{
}

/// An entry of a file's metadata, and the bytes of its value.
pub struct Written {
    pub key: Seq<char>,
    pub vtype: u32,
    pub value: ValueModel,
    pub bytes: Seq<u8>,
}

impl Written {
    pub open spec fn wf(self, ver: GgufVersion) -> bool {
        writable(self.key, 0, ver) && spells(self.bytes, self.value, self.vtype, ver)
    }

    /// The entry on disk: its key, its type, and its value.
    pub open spec fn on_disk(self, ver: GgufVersion) -> Seq<u8> {
        text_bytes(self.key, 0, ver) + (le_bytes(self.vtype as nat, 4) + self.bytes)
    }
}

/// Entries on disk, one after the other.
pub open spec fn entries_bytes(list: Seq<Written>, ver: GgufVersion) -> Seq<u8>
    decreases list.len(),
{
    if list.len() == 0 {
        Seq::empty()
    } else {
        entries_bytes(list.drop_last(), ver) + list.last().on_disk(ver)
    }
}

/// What entries say.
pub open spec fn said(list: Seq<Written>) -> Seq<Named<ValueModel>> {
    list.map_values(|w: Written| Named { key: w.key, value: w.value })
}

proof fn lemma_new_name<T>(list: Seq<Named<T>>, key: Seq<char>, value: T)
    requires
        forall|i: int| 0 <= i < list.len() ==> (#[trigger] list[i]).key != key,
    ensures
        put(list, key, value) == list.push(Named { key, value }),
{
    super::gguf::lemma_position(list, key, 0);
}

#[verifier::rlimit(40)]
proof fn lemma_entries(s: Seq<u8>, at: nat, list: Seq<Written>, ver: GgufVersion)
    requires
        forall|i: int| 0 <= i < list.len() ==> (#[trigger] list[i]).wf(ver),
        forall|i: int, j: int|
            0 <= i < j < list.len() ==> (#[trigger] list[i]).key != (#[trigger] list[j]).key,
        stands(s, at, entries_bytes(list, ver)),
    ensures
        entries_at(s, at, ver, list.len()) == Ok::<(Seq<Named<ValueModel>>, nat), GgufError>(
            (said(list), at + entries_bytes(list, ver).len()),
        ),
    decreases list.len(),
{
    if list.len() > 0 {
        lemma_byte_ranges();
        let before = list.drop_last();
        let w = list[list.len() - 1];
        assert(w.wf(ver));
        assert forall|i: int| 0 <= i < before.len() implies (#[trigger] before[i]).wf(ver) by {
            assert(list[i].wf(ver));
        }
        let done = entries_bytes(before, ver);
        let key = text_bytes(w.key, 0, ver);
        let tag = le_bytes(w.vtype as nat, 4);
        lemma_le_bytes_len(w.vtype as nat, 4);
        lemma_parts(s, at, done, w.on_disk(ver));
        lemma_entries(s, at, before, ver);
        let p = at + done.len();
        lemma_parts(s, p, key, tag + w.bytes);
        law_a_text_is_read_as_written(s, p, w.key, 0, ver);
        let q = p + key.len();
        lemma_parts(s, q, tag, w.bytes);
        law_a_count_is_read_as_written(s, q, w.vtype as nat, 4);
        assert(stands(s, q + 4, w.bytes));
        assert forall|i: int| 0 <= i < said(before).len() implies (#[trigger] said(
            before,
        )[i]).key != w.key by {
            assert(list[i].key != list[list.len() - 1].key);
        }
        lemma_new_name(said(before), w.key, w.value);
        assert(said(list) =~= said(before).push(Named { key: w.key, value: w.value }));
    } else {
        assert(said(list) =~= Seq::empty());
    }
}

/// A tensor on disk: its name, how many sizes it has, the sizes with the
/// innermost first, its type, and where its data starts.
pub open spec fn tensor_bytes(name: Seq<char>, t: TensorModel, ver: GgufVersion) -> Seq<u8> {
    text_bytes(name, 0, ver) + (le_bytes(t.dims.len(), 4) + (dims_bytes(t.dims, ver) + (le_bytes(
        t.dtype as nat,
        4,
    ) + le_bytes(t.offset as nat, 8))))
}

/// Sizes on disk, the innermost first.
pub open spec fn dims_bytes(dims: Seq<u64>, ver: GgufVersion) -> Seq<u8>
    decreases dims.len(),
{
    if dims.len() == 0 {
        Seq::empty()
    } else {
        dims_bytes(dims.drop_first(), ver) + le_bytes(dims[0] as nat, wide(ver))
    }
}

/// Whether a tensor can be written.
pub open spec fn writable_tensor(name: Seq<char>, t: TensorModel, ver: GgufVersion) -> bool {
    &&& writable(name, 0, ver)
    &&& t.dims.len() < byte_range(4)
    &&& forall|i: int| 0 <= i < t.dims.len() ==> (#[trigger] t.dims[i]) < byte_range(wide(ver))
}

proof fn lemma_dims(s: Seq<u8>, at: nat, dims: Seq<u64>, ver: GgufVersion)
    requires
        forall|i: int| 0 <= i < dims.len() ==> (#[trigger] dims[i]) < byte_range(wide(ver)),
        stands(s, at, dims_bytes(dims, ver)),
    ensures
        dims_at(s, at, ver, dims.len()) == Ok::<(Seq<u64>, nat), GgufError>(
            (dims, at + dims_bytes(dims, ver).len()),
        ),
    decreases dims.len(),
{
    if dims.len() > 0 {
        let inner = dims.drop_first();
        let d = le_bytes(dims[0] as nat, wide(ver));
        lemma_le_bytes_len(dims[0] as nat, wide(ver));
        assert forall|i: int| 0 <= i < inner.len() implies (#[trigger] inner[i]) < byte_range(
            wide(ver),
        ) by {
            assert(inner[i] == dims[i + 1]);
        }
        let done = dims_bytes(inner, ver);
        lemma_parts(s, at, done, d);
        lemma_dims(s, at, inner, ver);
        law_a_count_is_read_as_written(s, at + done.len(), dims[0] as nat, wide(ver));
        assert(seq![dims[0]] + inner =~= dims);
    } else {
        assert(dims =~= Seq::empty());
    }
}

/// A tensor reads back as it was written, with the outermost size first.
#[verifier::rlimit(40)]
pub proof fn law_a_tensor_is_read_as_written(
    s: Seq<u8>,
    at: nat,
    name: Seq<char>,
    t: TensorModel,
    ver: GgufVersion,
)
    requires
        writable_tensor(name, t, ver),
        stands(s, at, tensor_bytes(name, t, ver)),
    ensures
        tensor_at(s, at, ver) == Ok::<(Seq<char>, TensorModel, nat), GgufError>(
            (name, t, at + tensor_bytes(name, t, ver).len()),
        ),
{
    lemma_byte_ranges();
    let n = text_bytes(name, 0, ver);
    let c = le_bytes(t.dims.len(), 4);
    let d = dims_bytes(t.dims, ver);
    let y = le_bytes(t.dtype as nat, 4);
    let o = le_bytes(t.offset as nat, 8);
    lemma_le_bytes_len(t.dims.len(), 4);
    lemma_le_bytes_len(t.dtype as nat, 4);
    lemma_le_bytes_len(t.offset as nat, 8);
    lemma_parts(s, at, n, c + (d + (y + o)));
    law_a_text_is_read_as_written(s, at, name, 0, ver);
    let p = at + n.len();
    lemma_parts(s, p, c, d + (y + o));
    law_a_count_is_read_as_written(s, p, t.dims.len(), 4);
    lemma_parts(s, p + 4, d, y + o);
    lemma_dims(s, p + 4, t.dims, ver);
    let q = p + 4 + d.len();
    lemma_parts(s, q, y, o);
    law_a_count_is_read_as_written(s, q, t.dtype as nat, 4);
    law_a_count_is_read_as_written(s, q + 4, t.offset as nat, 8);
}

/// Tensors on disk, one after the other.
pub open spec fn tensors_bytes(list: Seq<Named<TensorModel>>, ver: GgufVersion) -> Seq<u8>
    decreases list.len(),
{
    if list.len() == 0 {
        Seq::empty()
    } else {
        tensors_bytes(list.drop_last(), ver) + tensor_bytes(list.last().key, list.last().value, ver)
    }
}

#[verifier::rlimit(40)]
proof fn lemma_tensors(s: Seq<u8>, at: nat, list: Seq<Named<TensorModel>>, ver: GgufVersion)
    requires
        forall|i: int|
            0 <= i < list.len() ==> writable_tensor((#[trigger] list[i]).key, list[i].value, ver),
        forall|i: int, j: int|
            0 <= i < j < list.len() ==> (#[trigger] list[i]).key != (#[trigger] list[j]).key,
        stands(s, at, tensors_bytes(list, ver)),
    ensures
        tensors_at(s, at, ver, list.len()) == Ok::<(Seq<Named<TensorModel>>, nat), GgufError>(
            (list, at + tensors_bytes(list, ver).len()),
        ),
    decreases list.len(),
{
    if list.len() > 0 {
        let before = list.drop_last();
        let w = list[list.len() - 1];
        let done = tensors_bytes(before, ver);
        let b = tensor_bytes(w.key, w.value, ver);
        assert(writable_tensor(w.key, w.value, ver));
        assert forall|i: int| 0 <= i < before.len() implies writable_tensor(
            (#[trigger] before[i]).key,
            before[i].value,
            ver,
        ) by {
            assert(writable_tensor(list[i].key, list[i].value, ver));
        }
        lemma_parts(s, at, done, b);
        lemma_tensors(s, at, before, ver);
        law_a_tensor_is_read_as_written(s, at + done.len(), w.key, w.value, ver);
        assert forall|i: int| 0 <= i < before.len() implies (#[trigger] before[i]).key
            != w.key by {
            assert(list[i].key != list[list.len() - 1].key);
        }
        lemma_new_name(before, w.key, w.value);
        assert(before.push(Named { key: w.key, value: w.value }) =~= list);
    } else {
        assert(list =~= Seq::empty());
    }
}

/// A whole header on disk: the mark, the version, how many tensors and how many
/// entries there are, the entries, and the tensors.
pub open spec fn header_bytes(
    version: nat,
    ver: GgufVersion,
    entries: Seq<Written>,
    tensors: Seq<Named<TensorModel>>,
) -> Seq<u8> {
    seq![0x47u8, 0x47, 0x55, 0x46] + (le_bytes(version, 4) + body_bytes(ver, entries, tensors))
}

/// What follows the version.
pub open spec fn body_bytes(
    ver: GgufVersion,
    entries: Seq<Written>,
    tensors: Seq<Named<TensorModel>>,
) -> Seq<u8> {
    le_bytes(tensors.len(), wide(ver)) + (le_bytes(entries.len(), wide(ver)) + (entries_bytes(
        entries,
        ver,
    ) + tensors_bytes(tensors, ver)))
}

/// A header reads back as it was written, whatever data follows it: each entry
/// under its key, each tensor under its name, and where the header ends. The
/// first version counts in four bytes, the second and the third in eight.
#[verifier::rlimit(40)]
pub proof fn law_a_header_is_read_as_written(
    version: nat,
    ver: GgufVersion,
    entries: Seq<Written>,
    tensors: Seq<Named<TensorModel>>,
    data: Seq<u8>,
)
    requires
        version == 1 ==> ver == GgufVersion::V1,
        version == 2 || version == 3 ==> ver == GgufVersion::V2V3,
        1 <= version <= 3,
        entries.len() < byte_range(wide(ver)),
        tensors.len() < byte_range(wide(ver)),
        forall|i: int| 0 <= i < entries.len() ==> (#[trigger] entries[i]).wf(ver),
        forall|i: int, j: int|
            0 <= i < j < entries.len() ==> (#[trigger] entries[i]).key != (
            #[trigger] entries[j]).key,
        forall|i: int|
            0 <= i < tensors.len() ==> writable_tensor(
                (#[trigger] tensors[i]).key,
                tensors[i].value,
                ver,
            ),
        forall|i: int, j: int|
            0 <= i < j < tensors.len() ==> (#[trigger] tensors[i]).key != (
            #[trigger] tensors[j]).key,
    ensures
        header_of(header_bytes(version, ver, entries, tensors) + data) == Ok::<
            HeaderModel,
            GgufError,
        >(
            HeaderModel {
                metadata: said(entries),
                tensors,
                end: header_bytes(version, ver, entries, tensors).len(),
            },
        ),
{
    let all = header_bytes(version, ver, entries, tensors);
    let s = all + data;
    assert(s.subrange(0, all.len() as int) =~= all);
    let mark = seq![0x47u8, 0x47, 0x55, 0x46];
    let v = le_bytes(version, 4);
    let body = body_bytes(ver, entries, tensors);
    lemma_le_bytes_len(version, 4);
    lemma_parts(s, 0, mark, v + body);
    lemma_parts(s, 4, v, body);
    lemma_body(s, 8, ver, entries, tensors);
    lemma_mark(s);
    assert(uint_at(s, 4, 4) == Ok::<(nat, nat), GgufError>((version, 8))) by {
        lemma_byte_ranges();
        law_a_count_is_read_as_written(s, 4, version, 4);
    }
}

proof fn lemma_mark(s: Seq<u8>)
    requires
        stands(s, 0, seq![0x47u8, 0x47, 0x55, 0x46]),
    ensures
        uint_at(s, 0, 4) == Ok::<(nat, nat), GgufError>((0x4655_4747, 4)),
{
    lemma_byte_ranges();
    assert(le_bytes(0x4655_4747, 4) =~= seq![0x47u8, 0x47, 0x55, 0x46]) by {
        reveal_with_fuel(le_bytes, 5);
    }
    law_a_count_is_read_as_written(s, 0, 0x4655_4747, 4);
}

#[verifier::rlimit(40)]
proof fn lemma_body(
    s: Seq<u8>,
    at: nat,
    ver: GgufVersion,
    entries: Seq<Written>,
    tensors: Seq<Named<TensorModel>>,
)
    requires
        entries.len() < byte_range(wide(ver)),
        tensors.len() < byte_range(wide(ver)),
        forall|i: int| 0 <= i < entries.len() ==> (#[trigger] entries[i]).wf(ver),
        forall|i: int, j: int|
            0 <= i < j < entries.len() ==> (#[trigger] entries[i]).key != (
            #[trigger] entries[j]).key,
        forall|i: int|
            0 <= i < tensors.len() ==> writable_tensor(
                (#[trigger] tensors[i]).key,
                tensors[i].value,
                ver,
            ),
        forall|i: int, j: int|
            0 <= i < j < tensors.len() ==> (#[trigger] tensors[i]).key != (
            #[trigger] tensors[j]).key,
        stands(s, at, body_bytes(ver, entries, tensors)),
    ensures
        body_of(s, at, ver) == Ok::<HeaderModel, GgufError>(
            HeaderModel {
                metadata: said(entries),
                tensors,
                end: at + body_bytes(ver, entries, tensors).len(),
            },
        ),
{
    let k = wide(ver);
    let nt = le_bytes(tensors.len(), k);
    let ne = le_bytes(entries.len(), k);
    let e = entries_bytes(entries, ver);
    let t = tensors_bytes(tensors, ver);
    lemma_le_bytes_len(tensors.len(), k);
    lemma_le_bytes_len(entries.len(), k);
    lemma_parts(s, at, nt, ne + (e + t));
    lemma_parts(s, at + k, ne, e + t);
    lemma_parts(s, at + k + k, e, t);
    law_a_count_is_read_as_written(s, at, tensors.len(), k);
    law_a_count_is_read_as_written(s, at + k, entries.len(), k);
    lemma_entries(s, at + k + k, entries, ver);
    lemma_tensors(s, at + k + k + e.len(), tensors, ver);
}

/// A file that does not start with the mark, the right way round or the other,
/// is none; nor is one of a version past the third.
#[verifier::rlimit(40)]
pub proof fn law_what_is_no_header_is_refused(magic: u32, version: u32, rest: Seq<u8>)
    ensures
        magic != 0x4655_4747 && magic != 0x4747_5546 ==> header_of(
            le_bytes(magic as nat, 4) + rest,
        ) == Err::<HeaderModel, GgufError>(GgufError::UnknownMagic { magic }),
        version == 0 || version > 3 ==> {
            &&& header_of(seq![0x47u8, 0x47, 0x55, 0x46] + le_bytes(version as nat, 4) + rest)
                == Err::<HeaderModel, GgufError>(GgufError::UnknownVersion { version })
            &&& header_of(seq![0x46u8, 0x55, 0x47, 0x47] + le_bytes(version as nat, 4) + rest)
                == Err::<HeaderModel, GgufError>(GgufError::UnknownVersion { version })
        },
{
    lemma_byte_ranges();
    let v = le_bytes(version as nat, 4);
    let one = seq![0x47u8, 0x47, 0x55, 0x46];
    let two = seq![0x46u8, 0x55, 0x47, 0x47];
    lemma_le_bytes_len(magic as nat, 4);
    lemma_le_bytes_len(version as nat, 4);
    assert(le_bytes(0x4655_4747, 4) =~= one && le_bytes(0x4747_5546, 4) =~= two) by {
        reveal_with_fuel(le_bytes, 5);
    }
    let a = le_bytes(magic as nat, 4) + rest;
    assert(a.subrange(0, 4) =~= le_bytes(magic as nat, 4));
    law_a_count_is_read_as_written(a, 0, magic as nat, 4);
    let b = one + v + rest;
    assert(b.subrange(0, 4) =~= one);
    assert(b.subrange(4, 8) =~= v);
    law_a_count_is_read_as_written(b, 0, 0x4655_4747, 4);
    law_a_count_is_read_as_written(b, 4, version as nat, 4);
    let c = two + v + rest;
    assert(c.subrange(0, 4) =~= two);
    assert(c.subrange(4, 8) =~= v);
    law_a_count_is_read_as_written(c, 0, 0x4747_5546, 4);
    law_a_count_is_read_as_written(c, 4, version as nat, 4);
}

/// What is looked up is what was put under the key, and nothing where nothing
/// was.
pub proof fn law_what_is_under_a_key<T>(list: Seq<Named<T>>, key: Seq<char>, i: int)
    ensures
        0 <= i < list.len() && list[i].key == key && (forall|j: int|
            0 <= j < i ==> (#[trigger] list[j]).key != key) ==> found(list, key) == Some(
            list[i].value,
        ),
        (forall|j: int| 0 <= j < list.len() ==> (#[trigger] list[j]).key != key) ==> found(
            list,
            key,
        ) is None,
{
    super::gguf::lemma_position(list, key, 0);
    if let Some(k) = position(list, key, 0) {
        if 0 <= i < list.len() && list[i].key == key {
            if k < i {
                assert(list[k].key == key);
            } else if i < k {
                assert(list[i].key != key);
            }
        }
    }
}

/// An integer of any width is what it is; one past what a signed one holds turns
/// negative, and what is no integer counts as zero.
pub proof fn law_integers_of_any_width(
    a: u8,
    b: i8,
    c: u16,
    d: i16,
    e: u32,
    f: i32,
    g: u64,
    h: i64,
)
    ensures
        integer(ValueModel::U8(a)) == a,
        integer(ValueModel::I8(b)) == b,
        integer(ValueModel::U16(c)) == c,
        integer(ValueModel::I16(d)) == d,
        integer(ValueModel::U32(e)) == e,
        integer(ValueModel::I32(f)) == f,
        integer(ValueModel::I64(h)) == h,
        g < 0x8000_0000_0000_0000 ==> integer(ValueModel::U64(g)) == g,
        g >= 0x8000_0000_0000_0000 ==> integer(ValueModel::U64(g)) == g - 0x1_0000_0000_0000_0000,
        integer(ValueModel::F32(e)) == 0,
        integer(ValueModel::F64(g)) == 0,
        truth(ValueModel::Bool(true)),
        !truth(ValueModel::Bool(false)),
        truth(ValueModel::U8(a)) == (a != 0),
        truth(ValueModel::I32(f)) == (f != 0),
        truth(ValueModel::U64(g)) == (g != 0),
{
}

/// A file says what its data is aligned to, under a key of its own and in 8, 16
/// or 32 bits; one that says nothing aligns it to 32.
pub proof fn law_a_file_says_its_alignment(
    before: Seq<Named<ValueModel>>,
    a: u8,
    b: u16,
    c: u32,
)
    requires
        forall|j: int|
            0 <= j < before.len() ==> (#[trigger] before[j]).key != "general.alignment"@,
    ensures
        ({
            let with = |v: ValueModel|
                alignment_in(before.push(Named { key: "general.alignment"@, value: v }));
            &&& alignment_in(before) == 32
            &&& with(ValueModel::U8(a)) == a
            &&& with(ValueModel::U16(b)) == b
            &&& with(ValueModel::U32(c)) == c
            &&& with(ValueModel::Text("64"@)) == 32
        }),
{
    let key = "general.alignment"@;
    law_what_is_under_a_key(before, key, 0);
    assert forall|v: ValueModel| found(
        #[trigger] before.push(Named { key, value: v }),
        key,
    ) == Some(v) by {
        let list = before.push(Named { key, value: v });
        assert forall|j: int| 0 <= j < before.len() implies (#[trigger] list[j]).key != key by {
            assert(list[j] == before[j]);
        }
        law_what_is_under_a_key(list, key, before.len() as int);
    }
}

/// The data starts behind the header, at a multiple of the alignment.
pub proof fn law_the_data_starts_behind_the_header(h: HeaderModel)
    ensures
        data_at(h) matches Some(at) ==> {
            let a = alignment_in(h.metadata);
            &&& a > 0
            &&& at as int % a as int == 0
            &&& h.end <= at < h.end + a
        },
        alignment_in(h.metadata) == 0 ==> data_at(h) is None,
{
    let a = alignment_in(h.metadata) as int;
    if a > 0 {
        super::metadata::law_tensor_data_is_aligned(h.end as int, a);
    }
}

/// Each type of tensor goes by its number on disk; the gaps are no types.
pub proof fn law_types_by_number(u: u32)
    ensures
        type_of(0) == Some(GgmlType::F32),
        type_of(1) == Some(GgmlType::F16),
        type_of(2) == Some(GgmlType::Q4_0),
        type_of(3) == Some(GgmlType::Q4_1),
        type_of(6) == Some(GgmlType::Q5_0),
        type_of(7) == Some(GgmlType::Q5_1),
        type_of(8) == Some(GgmlType::Q8_0),
        type_of(9) == Some(GgmlType::Q8_1),
        type_of(10) == Some(GgmlType::Q2K),
        type_of(11) == Some(GgmlType::Q3K),
        type_of(12) == Some(GgmlType::Q4K),
        type_of(13) == Some(GgmlType::Q5K),
        type_of(14) == Some(GgmlType::Q6K),
        type_of(15) == Some(GgmlType::Q8K),
        type_of(30) == Some(GgmlType::Bf16),
        type_of(u) is Some ==> u <= 3 || 6 <= u <= 15 || u == 30,
{
}

/// A tensor of whole blocks takes as many bytes as they do; one with a block
/// begun and not filled is refused, and so is one of a type that there is none
/// of. Tensors in four-bit floats are kept apart.
pub proof fn law_a_tensor_is_whole_blocks(dtype: u32, blocks: nat, over: nat)
    ensures
        type_of(dtype) matches Some(t) ==> dtype != 39 ==> {
            let elems = blocks * block_elems(t);
            let size = blocks * block_bytes(t);
            &&& size <= u64::MAX ==> layout_of(dtype, elems) == Ok::<TensorKind, LayoutError>(
                TensorKind::Blocks { dtype: t, size: size as u64 },
            )
            &&& size > u64::MAX ==> layout_of(dtype, elems) == Err::<TensorKind, LayoutError>(
                LayoutError::TooLarge,
            )
            &&& 0 < over < block_elems(t) ==> layout_of(dtype, elems + over) == Err::<
                TensorKind,
                LayoutError,
            >(
                LayoutError::Ragged {
                    elems: (elems + over) as u64,
                    block: block_elems(t) as u64,
                },
            )
        },
        layout_of(39, blocks) == Ok::<TensorKind, LayoutError>(TensorKind::Mxfp4),
        type_of(dtype) is None && dtype != 39 ==> layout_of(dtype, blocks) == Err::<
            TensorKind,
            LayoutError,
        >(LayoutError::UnknownType { dtype }),
{
    if let Some(t) = type_of(dtype) {
        let b = block_elems(t) as int;
        let elems = (blocks * block_elems(t)) as int;
        vstd::arithmetic::div_mod::lemma_fundamental_div_mod_converse(elems, b, blocks as int, 0);
        if 0 < over < b {
            vstd::arithmetic::div_mod::lemma_fundamental_div_mod_converse(
                elems + over,
                b,
                blocks as int,
                over as int,
            );
        }
    }
}

/// A tensor has as many elements as its sizes multiply to; one size more
/// multiplies them by it.
pub proof fn law_sizes_multiply(dims: Seq<u64>, d: u64)
    ensures
        product(Seq::empty()) == 1,
        product(dims.push(d)) == product(dims) * d,
        countable_dims(dims.push(d)) <==> countable_dims(dims) && product(dims) * d <= u64::MAX,
{
    let more = dims.push(d);
    assert(more.drop_last() =~= dims);
    let n = dims.len() as int;
    assert(more.take(n + 1) =~= more);
    assert forall|k: int| 0 <= k <= n implies more.take(k) == #[trigger] dims.take(k) by {
        assert(more.take(k) =~= dims.take(k));
    }
    if countable_dims(more) {
        assert forall|k: int| 0 <= k <= n implies product(#[trigger] dims.take(k)) <= u64::MAX by {
            assert(product(more.take(k)) <= u64::MAX);
        }
        assert(product(more.take(n + 1)) <= u64::MAX);
    }
    if countable_dims(dims) && product(dims) * d <= u64::MAX {
        assert forall|k: int| 0 <= k <= n + 1 implies product(#[trigger] more.take(k))
            <= u64::MAX by {
            if k <= n {
                assert(product(dims.take(k)) <= u64::MAX);
            }
        }
    }
}

/// A tensor is laid out by its type and the number of its elements, where that
/// can be counted.
pub proof fn law_a_tensor_is_laid_out_by_type_and_size(t: TensorModel)
    ensures
        countable_dims(t.dims) ==> kind_of(t) == layout_of(t.dtype, product(t.dims)),
        !countable_dims(t.dims) ==> kind_of(t) == Err::<TensorKind, LayoutError>(
            LayoutError::TooLarge,
        ),
{
}

/// Each expert takes the bytes of its blocks, behind those of the experts before
/// it; an expert with a block begun and not filled is refused.
pub proof fn law_an_expert_lies_behind_those_before(
    idx: u64,
    blocks: u64,
    over: u64,
    block: u64,
    each: u64,
)
    requires
        block > 0,
        blocks * block + over <= u64::MAX,
        over < block,
    ensures
        ({
            let elems = (blocks * block + over) as u64;
            let r = expert_at(idx, elems, block, each);
            &&& over > 0 ==> r == Err::<(u64, u64), LayoutError>(
                LayoutError::Ragged { elems, block },
            )
            &&& over == 0 && blocks * each <= u64::MAX && idx * (blocks * each) <= u64::MAX ==> r
                == Ok::<(u64, u64), LayoutError>(
                ((idx * (blocks * each)) as u64, (blocks * each) as u64),
            )
            &&& over == 0 && (blocks * each > u64::MAX || idx * (blocks * each) > u64::MAX) ==> r
                == Err::<(u64, u64), LayoutError>(LayoutError::TooLarge)
        }),
{
    let elems = blocks * block + over;
    assert(0 <= elems) by (nonlinear_arith)
        requires
            elems == blocks * block + over,
    ;
    vstd::arithmetic::div_mod::lemma_fundamental_div_mod_converse(
        elems as int,
        block as int,
        blocks as int,
        over as int,
    );
}

/// A file is loaded where its header is one, its data can be aligned and each of
/// its tensors can be kept; the first of these that fails is told.
#[verifier::rlimit(40)]
pub proof fn law_a_file_is_loaded_or_told_why(src: Seq<u8>)
    ensures
        match model_file(src) {
            Ok(f) => {
                &&& header_of(src) == Ok::<HeaderModel, GgufError>(f.header)
                &&& data_at(f.header) == Some(f.base)
                &&& f.kinds.len() == f.header.tensors.len()
                &&& forall|i: int|
                    0 <= i < f.kinds.len() ==> kind_of((#[trigger] f.header.tensors[i]).value)
                        == Ok::<TensorKind, LayoutError>(f.kinds[i])
            },
            Err(LoadErrorModel::Header { why }) => header_of(src) == Err::<HeaderModel, GgufError>(
                why,
            ),
            Err(LoadErrorModel::Unaligned) => header_of(src) matches Ok(h) && data_at(h) is None,
            Err(LoadErrorModel::Tensor { name, why }) => header_of(src) matches Ok(h) && data_at(
                h,
            ) is Some && exists|i: int|
                0 <= i < h.tensors.len() && (#[trigger] h.tensors[i]).key == name && kind_of(
                    h.tensors[i].value,
                ) == Err::<TensorKind, LayoutError>(why) && forall|j: int|
                    0 <= j < i ==> kind_of((#[trigger] h.tensors[j]).value) is Ok,
        },
{
    if let Ok(h) = header_of(src) {
        let n = h.tensors.len() as int;
        lemma_planned(h.tensors, n);
    }
}

proof fn lemma_planned(tensors: Seq<Named<TensorModel>>, n: int)
    requires
        0 <= n <= tensors.len(),
    ensures
        match planned(tensors, n) {
            Ok(kinds) => kinds.len() == n && forall|i: int|
                0 <= i < n ==> kind_of((#[trigger] tensors[i]).value) == Ok::<
                    TensorKind,
                    LayoutError,
                >(kinds[i]),
            Err((i, e)) => 0 <= i < n && kind_of(tensors[i].value) == Err::<
                TensorKind,
                LayoutError,
            >(e) && forall|j: int| 0 <= j < i ==> kind_of((#[trigger] tensors[j]).value) is Ok,
        },
    decreases n,
{
    if n > 0 {
        lemma_planned(tensors, n - 1);
    }
}

/// A refusal names the key, and what was wanted there.
pub proof fn law_a_refusal_names_the_key(key: Seq<char>)
    ensures
        MetadataError::Missing.text(key) == "missing metadata key: "@ + key,
        (MetadataError::WrongType { wanted: Wanted::Text }).text(key) == "expected string for "@
            + key,
        (MetadataError::WrongType { wanted: Wanted::Array }).text(key) == "expected array for "@
            + key,
        (MetadataError::WrongType { wanted: Wanted::TextArray }).text(key)
            == "expected string array for "@ + key,
        (MetadataError::WrongType { wanted: Wanted::U32 }).text(key) == "not a u32"@,
        (MetadataError::WrongType { wanted: Wanted::F32 }).text(key) == "not a f32"@,
{
}

/// At the root a tensor goes by its own name.
pub proof fn law_at_the_root_a_name_is_whole(name: Seq<char>, part: Seq<char>)
    ensures
        dotted(Seq::empty(), name) == name,
        dotted(seq![part], name) == part + "."@ + name,
{
}

/// What is wrong with a file is told with the number that was found.
pub proof fn law_what_is_wrong_with_a_file_is_told(n: u32, name: Seq<char>, elems: u64, block: u64)
    ensures
        GgufError::Short.text() == "failed to fill whole buffer"@,
        (GgufError::UnknownMagic { magic: n }).text() == "unknown GGUF magic 0x"@ + hex(
            n as u64,
            8,
        ),
        (GgufError::UnknownVersion { version: n }).text() == "unknown GGUF version "@ + decimal(
            n as nat,
        ),
        (GgufError::UnknownValueType { vtype: n }).text() == "unknown GGUF value type "@ + decimal(
            n as nat,
        ),
        (LayoutError::UnknownType { dtype: n }).text(name) == "unknown GgmlDType "@ + decimal(
            n as nat,
        ),
        (LayoutError::Ragged { elems, block }).text(name) == "tensor "@ + name + ": elem count "@
            + decimal(elems as nat) + " not divisible by block size "@ + decimal(block as nat),
{
}

/// A file that cannot be loaded is told by what stopped it.
pub proof fn law_why_a_file_was_not_loaded(why: GgufError, name: Seq<char>, bad: LayoutError)
    ensures
        (LoadErrorModel::Header { why }).text() == why.text(),
        (LoadErrorModel::Tensor { name, why: bad }).text() == bad.text(name),
{
}

} // verus!
