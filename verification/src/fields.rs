use vstd::prelude::*;
use vstd::bytes::{
    spec_u32_from_le_bytes, spec_u32_to_le_bytes, spec_u64_from_le_bytes, spec_u64_to_le_bytes,
    u32_from_le_bytes, u32_to_le_bytes, u64_from_le_bytes, u64_to_le_bytes,
};
use crate::pool::EngineStringPool;
use crate::types::{field_size, FieldError, LuauFieldType, ScriptValue};

verus! {

/// A value as a component field stores it: floating-point values as their bit patterns,
/// strings as the key the string pool gave them.
#[derive(Debug, PartialEq, Eq)]
pub enum FieldValue {
    Bool(bool),
    Integer(i64),
    Number(u64),
    Vector4(u32, u32, u32, u32),
    String(u32),
    Buffer(Vec<u8>),
}

/// The mathematical content of a `FieldValue`.
pub enum FieldModel {
    Bool(bool),
    Integer(i64),
    Number(u64),
    Vector4(u32, u32, u32, u32),
    String(u32),
    Buffer(Seq<u8>),
}

impl View for FieldValue {
    type V = FieldModel;

    open spec fn view(&self) -> FieldModel {
        match self {
            FieldValue::Bool(b) => FieldModel::Bool(*b),
            FieldValue::Integer(i) => FieldModel::Integer(*i),
            FieldValue::Number(n) => FieldModel::Number(*n),
            FieldValue::Vector4(x, y, z, w) => FieldModel::Vector4(*x, *y, *z, *w),
            FieldValue::String(k) => FieldModel::String(*k),
            FieldValue::Buffer(b) => FieldModel::Buffer(b@),
        }
    }
}

/// The field type a stored value belongs to.
pub open spec fn model_type(m: FieldModel) -> LuauFieldType {
    match m {
        FieldModel::Bool(_) => LuauFieldType::Bool,
        FieldModel::Integer(_) => LuauFieldType::Integer,
        FieldModel::Number(_) => LuauFieldType::Number,
        FieldModel::Vector4(..) => LuauFieldType::Vector4,
        FieldModel::String(_) => LuauFieldType::String,
        FieldModel::Buffer(b) => LuauFieldType::Buffer(b.len() as usize),
    }
}

/// The bytes a field holds for a value: little-endian integers, one byte 0 or 1 for a
/// boolean, the bytes themselves for a buffer.
pub open spec fn encode(m: FieldModel) -> Seq<u8> {
    match m {
        FieldModel::Bool(b) => seq![if b { 1u8 } else { 0u8 }],
        FieldModel::Integer(i) => spec_u64_to_le_bytes(i as u64),
        FieldModel::Number(n) => spec_u64_to_le_bytes(n),
        FieldModel::Vector4(x, y, z, w) => spec_u32_to_le_bytes(x) + spec_u32_to_le_bytes(y)
            + spec_u32_to_le_bytes(z) + spec_u32_to_le_bytes(w),
        FieldModel::String(k) => spec_u32_to_le_bytes(k),
        FieldModel::Buffer(b) => b,
    }
}

/// The value that the bytes of a field of type `t` hold.
pub open spec fn decode(t: LuauFieldType, bytes: Seq<u8>) -> FieldModel {
    match t {
        LuauFieldType::Bool => FieldModel::Bool(bytes[0] != 0),
        LuauFieldType::Integer => FieldModel::Integer(spec_u64_from_le_bytes(bytes) as i64),
        LuauFieldType::Number => FieldModel::Number(spec_u64_from_le_bytes(bytes)),
        LuauFieldType::Vector4 => FieldModel::Vector4(
            spec_u32_from_le_bytes(bytes.subrange(0, 4)),
            spec_u32_from_le_bytes(bytes.subrange(4, 8)),
            spec_u32_from_le_bytes(bytes.subrange(8, 12)),
            spec_u32_from_le_bytes(bytes.subrange(12, 16)),
        ),
        LuauFieldType::String => FieldModel::String(spec_u32_from_le_bytes(bytes)),
        LuauFieldType::Buffer(_) => FieldModel::Buffer(bytes),
    }
}

/// Decoding the encoding of a value gives the value back, and the encoding has the size
/// of the value's field type.
pub proof fn lemma_decode_encode(m: FieldModel)
    requires
        m matches FieldModel::Buffer(b) ==> b.len() <= usize::MAX,
    ensures
        encode(m).len() == field_size(model_type(m)),
        decode(model_type(m), encode(m)) == m,
{
    vstd::bytes::lemma_auto_spec_u64_to_from_le_bytes();
    vstd::bytes::lemma_auto_spec_u32_to_from_le_bytes();
    match m {
        FieldModel::Integer(i) => {
            let u = i as u64;
            assert(u as i64 == i) by (bit_vector)
                requires
                    u == i as u64,
            ;
        },
        FieldModel::Vector4(x, y, z, w) => {
            let e = encode(m);
            let (bx, by, bz, bw) = (
                spec_u32_to_le_bytes(x),
                spec_u32_to_le_bytes(y),
                spec_u32_to_le_bytes(z),
                spec_u32_to_le_bytes(w),
            );
            assert(e.subrange(0, 4) =~= bx);
            assert(e.subrange(4, 8) =~= by);
            assert(e.subrange(8, 12) =~= bz);
            assert(e.subrange(12, 16) =~= bw);
        },
        _ => {},
    }
}

/// Encoding what a field's bytes hold gives those bytes back, for every field type; a
/// boolean field must hold 0 or 1, as the encoding writes it.
pub proof fn lemma_encode_decode(t: LuauFieldType, bytes: Seq<u8>)
    requires
        bytes.len() == field_size(t),
        t is Bool ==> bytes[0] <= 1,
    ensures
        encode(decode(t, bytes)) == bytes,
{
    vstd::bytes::lemma_auto_spec_u64_to_from_le_bytes();
    vstd::bytes::lemma_auto_spec_u32_to_from_le_bytes();
    match t {
        LuauFieldType::Bool => {
            assert(encode(decode(t, bytes)) =~= bytes);
        },
        LuauFieldType::Integer => {
            let u = spec_u64_from_le_bytes(bytes);
            assert((u as i64) as u64 == u) by (bit_vector);
            assert(spec_u64_to_le_bytes(spec_u64_from_le_bytes(bytes)) == bytes);
        },
        LuauFieldType::Number => {
            assert(spec_u64_to_le_bytes(spec_u64_from_le_bytes(bytes)) == bytes);
        },
        LuauFieldType::Vector4 => {
            let (a, b, c, d) = (
                bytes.subrange(0, 4),
                bytes.subrange(4, 8),
                bytes.subrange(8, 12),
                bytes.subrange(12, 16),
            );
            assert(spec_u32_to_le_bytes(spec_u32_from_le_bytes(a)) == a);
            assert(spec_u32_to_le_bytes(spec_u32_from_le_bytes(b)) == b);
            assert(spec_u32_to_le_bytes(spec_u32_from_le_bytes(c)) == c);
            assert(spec_u32_to_le_bytes(spec_u32_from_le_bytes(d)) == d);
            assert(a + b + c + d =~= bytes);
        },
        LuauFieldType::String => {
            assert(spec_u32_to_le_bytes(spec_u32_from_le_bytes(bytes)) == bytes);
        },
        LuauFieldType::Buffer(_) => {},
    }
}

/// A value that what a field holds stands for is accepted by the field, and storing it
/// stores what the field holds.
pub proof fn lemma_stored_of_read(
    t: LuauFieldType,
    bytes: Seq<u8>,
    v: ScriptValue,
    strings: Seq<Seq<char>>,
)
    requires
        bytes.len() == field_size(t),
        strings.no_duplicates(),
        represents(decode(t, bytes), v, strings),
    ensures
        accepts(t, v),
        stored_model(v, strings) == decode(t, bytes),
        v matches ScriptValue::String(s) ==> strings.contains(s@),
{
    if let ScriptValue::String(s) = v {
        if let FieldModel::String(k) = decode(t, bytes) {
            lemma_index_of_unique(strings, s@, k as int);
        }
    }
}

/// `data` with `bytes` written over it from `offset` on.
pub open spec fn splice(data: Seq<u8>, offset: int, bytes: Seq<u8>) -> Seq<u8> {
    Seq::new(
        data.len(),
        |i: int|
            if offset <= i < offset + bytes.len() {
                bytes[i - offset]
            } else {
                data[i]
            },
    )
}

/// The bytes of field `[offset, offset + size)` of `data`.
pub open spec fn field_bytes(data: Seq<u8>, offset: int, t: LuauFieldType) -> Seq<u8> {
    data.subrange(offset, offset + field_size(t))
}

/// Reading back a spliced range gives the spliced bytes; ranges that do not meet it are
/// unchanged.
pub proof fn lemma_splice(data: Seq<u8>, offset: int, bytes: Seq<u8>, other: int, len: int)
    requires
        0 <= offset,
        offset + bytes.len() <= data.len(),
        0 <= other,
        0 <= len,
        other + len <= data.len(),
    ensures
        splice(data, offset, bytes).len() == data.len(),
        splice(data, offset, bytes).subrange(offset, offset + bytes.len()) == bytes,
        other + len <= offset || offset + bytes.len() <= other ==> splice(
            data,
            offset,
            bytes,
        ).subrange(other, other + len) == data.subrange(other, other + len),
{
    assert(splice(data, offset, bytes).subrange(offset, offset + bytes.len()) =~= bytes);
    if other + len <= offset || offset + bytes.len() <= other {
        assert(splice(data, offset, bytes).subrange(other, other + len) =~= data.subrange(
            other,
            other + len,
        ));
    }
}

impl LuauFieldType {
    /// The number of bytes a field of this type occupies.
    pub fn size(self) -> (r: usize)
        ensures
            r == field_size(self),
    {
        match self {
            LuauFieldType::Bool => 1,
            LuauFieldType::Integer => 8,
            LuauFieldType::Number => 8,
            LuauFieldType::Vector4 => 16,
            LuauFieldType::String => 4,
            LuauFieldType::Buffer(n) => n,
        }
    }
}

/// The bytes that a field holds for `value`.
pub fn encode_field(value: &FieldValue) -> (r: Vec<u8>)
    ensures
        r@ == encode(value@),
{
    match value {
        FieldValue::Bool(b) => {
            let mut r: Vec<u8> = Vec::new();
            r.push(if *b { 1u8 } else { 0u8 });
            assert(r@ =~= encode(value@));
            r
        },
        FieldValue::Integer(i) => u64_to_le_bytes(*i as u64),
        FieldValue::Number(n) => u64_to_le_bytes(*n),
        FieldValue::Vector4(x, y, z, w) => {
            let mut r = u32_to_le_bytes(*x);
            let mut b = u32_to_le_bytes(*y);
            r.append(&mut b);
            let mut c = u32_to_le_bytes(*z);
            r.append(&mut c);
            let mut d = u32_to_le_bytes(*w);
            r.append(&mut d);
            r
        },
        FieldValue::String(k) => u32_to_le_bytes(*k),
        FieldValue::Buffer(b) => vstd::slice::slice_to_vec(b.as_slice()),
    }
}

/// The value that the bytes of a field of type `t` hold.
pub fn decode_field(t: LuauFieldType, bytes: &[u8]) -> (r: FieldValue)
    requires
        bytes@.len() == field_size(t),
    ensures
        r@ == decode(t, bytes@),
{
    match t {
        LuauFieldType::Bool => FieldValue::Bool(bytes[0] != 0),
        LuauFieldType::Integer => FieldValue::Integer(u64_from_le_bytes(bytes) as i64),
        LuauFieldType::Number => FieldValue::Number(u64_from_le_bytes(bytes)),
        LuauFieldType::Vector4 => {
            let x = u32_from_le_bytes(&bytes[0..4]);
            let y = u32_from_le_bytes(&bytes[4..8]);
            let z = u32_from_le_bytes(&bytes[8..12]);
            let w = u32_from_le_bytes(&bytes[12..16]);
            FieldValue::Vector4(x, y, z, w)
        },
        LuauFieldType::String => FieldValue::String(u32_from_le_bytes(bytes)),
        LuauFieldType::Buffer(_) => FieldValue::Buffer(vstd::slice::slice_to_vec(bytes)),
    }
}

/// Reads the field of type `t` that starts at `offset` in a component's bytes.
pub fn read_field(data: &[u8], offset: usize, t: LuauFieldType) -> (r: FieldValue)
    requires
        offset + field_size(t) <= data@.len(),
    ensures
        r@ == decode(t, field_bytes(data@, offset as int, t)),
{
    let size = t.size();
    let _len = data.len();
    decode_field(t, &data[offset..offset + size])
}

/// Writes `bytes` over `data` from `offset` on.
pub fn write_bytes(data: &mut Vec<u8>, offset: usize, bytes: &[u8])
    requires
        offset + bytes@.len() <= old(data)@.len(),
    ensures
        final(data)@ == splice(old(data)@, offset as int, bytes@),
{
    let n = bytes.len();
    let _len = data.len();
    let mut i: usize = 0;
    while i < n
        invariant
            n == bytes@.len(),
            offset + n <= old(data)@.len(),
            old(data)@.len() <= usize::MAX,
            i <= n,
            data@ == splice(old(data)@, offset as int, bytes@.subrange(0, i as int)),
        decreases n - i,
    {
        data[offset + i] = bytes[i];
        i = i + 1;
        assert(data@ =~= splice(old(data)@, offset as int, bytes@.subrange(0, i as int)));
    }
    assert(bytes@.subrange(0, n as int) =~= bytes@);
}


/// Whether a field of type `t` takes the script value `v`: the kinds agree, and a buffer
/// has exactly the field's length.
pub open spec fn accepts(t: LuauFieldType, v: ScriptValue) -> bool {
    match (t, v) {
        (LuauFieldType::Bool, ScriptValue::Boolean(_)) => true,
        (LuauFieldType::Integer, ScriptValue::Integer(_)) => true,
        (LuauFieldType::Number, ScriptValue::Number(_)) => true,
        (LuauFieldType::Vector4, ScriptValue::Vector(..)) => true,
        (LuauFieldType::String, ScriptValue::String(_)) => true,
        (LuauFieldType::Buffer(n), ScriptValue::Buffer(b)) => b.len() == n,
        _ => false,
    }
}

/// The value a field stores for a script value, strings standing for their key among
/// the interned `strings`.
pub open spec fn stored_model(v: ScriptValue, strings: Seq<Seq<char>>) -> FieldModel {
    match v {
        ScriptValue::Boolean(b) => FieldModel::Bool(b),
        ScriptValue::Integer(i) => FieldModel::Integer(i),
        ScriptValue::Number(n) => FieldModel::Number(n),
        ScriptValue::Vector(x, y, z, w) => FieldModel::Vector4(x, y, z, w),
        ScriptValue::String(s) => FieldModel::String(strings.index_of(s@) as u32),
        ScriptValue::Buffer(b) => FieldModel::Buffer(b@),
        _ => FieldModel::Bool(false),
    }
}

/// The interned strings once `v` has been stored: a string value is interned.
pub open spec fn strings_after(v: ScriptValue, strings: Seq<Seq<char>>) -> Seq<Seq<char>> {
    match v {
        ScriptValue::String(s) => if strings.contains(s@) {
            strings
        } else {
            strings.push(s@)
        },
        _ => strings,
    }
}

/// A stored value stands for a script value: the same data, and for a string the key of
/// that string among `strings`.
pub open spec fn represents(m: FieldModel, v: ScriptValue, strings: Seq<Seq<char>>) -> bool {
    match (m, v) {
        (FieldModel::Bool(a), ScriptValue::Boolean(b)) => a == b,
        (FieldModel::Integer(a), ScriptValue::Integer(b)) => a == b,
        (FieldModel::Number(a), ScriptValue::Number(b)) => a == b,
        (FieldModel::Vector4(a, b, c, d), ScriptValue::Vector(e, f, g, h)) => a == e && b == f
            && c == g && d == h,
        (FieldModel::String(k), ScriptValue::String(s)) => k < strings.len() && strings[k as int]
            == s@,
        (FieldModel::Buffer(a), ScriptValue::Buffer(b)) => a == b@,
        _ => false,
    }
}

/// A field whose type was inferred from a value takes that value: storing it with
/// `write_field` succeeds.
pub proof fn lemma_inferred_type_accepted(v: ScriptValue)
    requires
        crate::types::inferred_type(v) is Some,
    ensures
        !(v is Nil),
        accepts(crate::types::inferred_type(v)->Some_0, v),
{
}

/// In a list without duplicates, the index of a string is the one position holding it.
pub proof fn lemma_index_of_unique(strings: Seq<Seq<char>>, s: Seq<char>, k: int)
    requires
        strings.no_duplicates(),
        0 <= k < strings.len(),
        strings[k] == s,
    ensures
        strings.index_of(s) == k,
{
    assert(strings.contains(s));
    let j = strings.index_of(s);
    assert(0 <= j < strings.len() && strings[j] == s);
}

/// A value a field accepts is represented by what the field stores, once its string (if
/// any) is interned; and the stored value has the field's type.
pub proof fn lemma_stored_represents(t: LuauFieldType, v: ScriptValue, strings: Seq<Seq<char>>)
    requires
        accepts(t, v),
        strings.no_duplicates(),
        strings.len() <= u32::MAX,
        v matches ScriptValue::String(s) ==> strings.contains(s@),
    ensures
        represents(stored_model(v, strings), v, strings),
        model_type(stored_model(v, strings)) == t,
{
    if let ScriptValue::String(s) = v {
        let k = strings.index_of(s@);
        assert(0 <= k < strings.len() && strings[k] == s@);
    }
}

/// Stores a script value in the field of type `t` at `offset` of a component's bytes.
/// Nil leaves the field as it is; a value of another type is refused and nothing changes;
/// a string is interned first.
pub fn write_field(
    data: &mut Vec<u8>,
    offset: usize,
    t: LuauFieldType,
    value: &ScriptValue,
    pool: &mut EngineStringPool,
) -> (r: Result<(), FieldError>)
    requires
        !(*value is Nil) ==> offset + field_size(t) <= old(data)@.len(),
        old(pool).wf(),
        *value matches ScriptValue::String(s) ==> old(pool)@.contains(s@) || old(pool)@.len()
            < u32::MAX,
    ensures
        final(pool).wf(),
        *value is Nil ==> r is Ok && final(data)@ == old(data)@ && final(pool)@ == old(pool)@,
        !(*value is Nil) && !accepts(t, *value) ==> {
            &&& r == Err::<(), FieldError>(FieldError::Mismatch { expected: t, got: value.kind_spec() })
            &&& final(data)@ == old(data)@
            &&& final(pool)@ == old(pool)@
        },
        !(*value is Nil) && accepts(t, *value) ==> {
            &&& r is Ok
            &&& final(pool)@ == strings_after(*value, old(pool)@)
            &&& final(data)@ == splice(
                old(data)@,
                offset as int,
                encode(stored_model(*value, final(pool)@)),
            )
            &&& represents(stored_model(*value, final(pool)@), *value, final(pool)@)
            &&& represents(
                decode(t, field_bytes(final(data)@, offset as int, t)),
                *value,
                final(pool)@,
            )
        },
{
    let stored = match (t, value) {
        (_, ScriptValue::Nil) => {
            return Ok(());
        },
        (LuauFieldType::Bool, ScriptValue::Boolean(b)) => FieldValue::Bool(*b),
        (LuauFieldType::Integer, ScriptValue::Integer(i)) => FieldValue::Integer(*i),
        (LuauFieldType::Number, ScriptValue::Number(n)) => FieldValue::Number(*n),
        (LuauFieldType::Vector4, ScriptValue::Vector(x, y, z, w)) => FieldValue::Vector4(
            *x,
            *y,
            *z,
            *w,
        ),
        (LuauFieldType::String, ScriptValue::String(s)) => {
            let key = pool.intern(s.as_str());
            proof {
                lemma_index_of_unique(pool@, s@, key as int);
            }
            FieldValue::String(key as u32)
        },
        (LuauFieldType::Buffer(n), ScriptValue::Buffer(b)) => {
            if b.len() != n {
                return Err(FieldError::Mismatch { expected: t, got: value.kind() });
            }
            FieldValue::Buffer(vstd::slice::slice_to_vec(b.as_slice()))
        },
        _ => {
            return Err(FieldError::Mismatch { expected: t, got: value.kind() });
        },
    };
    proof {
        lemma_stored_represents(t, *value, pool@);
        lemma_decode_encode(stored@);
    }
    let bytes = encode_field(&stored);
    write_bytes(data, offset, bytes.as_slice());
    proof {
        lemma_splice(old(data)@, offset as int, bytes@, offset as int, field_size(t) as int);
    }
    Ok(())
}

}
