use vstd::prelude::*;
use crate::layout::{is_power_of_two, FieldLayout};

verus! {

broadcast use {vstd::layout::layout_of_primitives, vstd::layout::align_properties, vstd::layout::align_nonzero};

/// The type of one field of a component declared from a script.
#[derive(Clone, Copy, Debug, PartialEq, Eq, Structural)]
pub enum LuauFieldType {
    Bool,
    Integer,
    Number,
    Vector4,
    String,
    Buffer(usize),
}

/// The number of bytes that a field of type `t` occupies.
pub open spec fn field_size(t: LuauFieldType) -> nat {
    match t {
        LuauFieldType::Bool => 1,
        LuauFieldType::Integer => 8,
        LuauFieldType::Number => 8,
        LuauFieldType::Vector4 => 16,
        LuauFieldType::String => 4,
        LuauFieldType::Buffer(n) => n as nat,
    }
}

/// The alignment of a field of type `t`: that of the machine type that holds it
/// (`bool`, `i64`, the bits of an `f64`, four `f32` bit patterns, a 32-bit string key, bytes).
pub open spec fn field_align(t: LuauFieldType) -> usize {
    match t {
        LuauFieldType::Bool => vstd::layout::align_of::<bool>() as usize,
        LuauFieldType::Integer => vstd::layout::align_of::<i64>() as usize,
        LuauFieldType::Number => vstd::layout::align_of::<u64>() as usize,
        LuauFieldType::Vector4 => vstd::layout::align_of::<u32>() as usize,
        LuauFieldType::String => vstd::layout::align_of::<u32>() as usize,
        LuauFieldType::Buffer(_) => 1,
    }
}

/// A field type whose layout can be built: a buffer must fit in an `isize`.
pub open spec fn field_type_fits(t: LuauFieldType) -> bool {
    match t {
        LuauFieldType::Buffer(n) => n <= isize::MAX,
        _ => true,
    }
}

/// An alignment that divides a small size is one of 1, 2, 4, 8, 16: a power of two.
proof fn lemma_small_align(a: nat, s: nat)
    requires
        a > 0,
        s % a == 0,
        s == 1 || s == 4 || s == 8,
    ensures
        a <= s,
        a == 1 || a == 2 || a == 4 || a == 8,
        is_power_of_two(a as usize),
{
    vstd::arithmetic::div_mod::lemma_mod_is_zero(s, a);
    if a == 1 {
        assert(1usize & 0usize == 0) by (bit_vector);
    } else if a == 2 {
        assert(2usize & 1usize == 0) by (bit_vector);
    } else if a == 4 {
        assert(4usize & 3usize == 0) by (bit_vector);
    } else if a == 8 {
        assert(8usize & 7usize == 0) by (bit_vector);
    } else {
        assert(s % a != 0) by {
            if a == 3 {
                assert(s % 3 != 0);
            } else if a == 5 {
                assert(s % 5 != 0);
            } else if a == 6 {
                assert(s % 6 != 0);
            } else {
                assert(a == 7);
                assert(s % 7 != 0);
            }
        }
    }
}

/// The alignment of every field type is a power of two that fits its size.
pub proof fn lemma_field_align(t: LuauFieldType)
    ensures
        is_power_of_two(field_align(t)),
        field_align(t) > 0,
        field_align(t) <= 8,
        field_size(t) % (field_align(t) as nat) == 0,
{
    match t {
        LuauFieldType::Bool => {
            lemma_small_align(vstd::layout::align_of::<bool>(), 1);
        },
        LuauFieldType::Integer => {
            lemma_small_align(vstd::layout::align_of::<i64>(), 8);
        },
        LuauFieldType::Number => {
            lemma_small_align(vstd::layout::align_of::<u64>(), 8);
        },
        LuauFieldType::Vector4 => {
            lemma_small_align(vstd::layout::align_of::<u32>(), 4);
            let a = vstd::layout::align_of::<u32>();
            assert(16nat % a == 0) by {
                if a == 1 {
                    assert(16nat % 1 == 0);
                } else if a == 2 {
                    assert(16nat % 2 == 0);
                } else {
                    assert(16nat % 4 == 0);
                }
            }
        },
        LuauFieldType::String => {
            lemma_small_align(vstd::layout::align_of::<u32>(), 4);
        },
        LuauFieldType::Buffer(_) => {
            assert(1usize & 0usize == 0) by (bit_vector);
        },
    }
}

impl LuauFieldType {
    /// The memory layout of a field of this type.
    pub fn layout(self) -> (r: FieldLayout)
        requires
            field_type_fits(self),
        ensures
            r.size_spec() == field_size(self),
            r.align_spec() == field_align(self),
            r.wf(),
    {
        match self {
            LuauFieldType::Bool => {
                let align = core::mem::align_of::<bool>();
                proof { lemma_small_align(align as nat, 1); }
                FieldLayout::from_valid(core::mem::size_of::<bool>(), align)
            },
            LuauFieldType::Integer => {
                let align = core::mem::align_of::<i64>();
                proof { lemma_small_align(align as nat, 8); }
                FieldLayout::from_valid(core::mem::size_of::<i64>(), align)
            },
            LuauFieldType::Number => {
                let align = core::mem::align_of::<u64>();
                proof { lemma_small_align(align as nat, 8); }
                FieldLayout::from_valid(core::mem::size_of::<u64>(), align)
            },
            LuauFieldType::Vector4 => {
                let align = core::mem::align_of::<u32>();
                proof { lemma_small_align(align as nat, 4); }
                FieldLayout::from_valid(4 * core::mem::size_of::<u32>(), align)
            },
            LuauFieldType::String => {
                let align = core::mem::align_of::<u32>();
                proof { lemma_small_align(align as nat, 4); }
                FieldLayout::from_valid(core::mem::size_of::<u32>(), align)
            },
            LuauFieldType::Buffer(n) => {
                assert(1usize & 0usize == 0) by (bit_vector);
                FieldLayout::from_valid(n, 1)
            },
        }
    }
}

/// The kind of a script value, as the scripting runtime tells them apart.
#[derive(Clone, Copy, Debug, PartialEq, Eq, Structural)]
pub enum ValueKind {
    Nil,
    Boolean,
    Integer,
    Number,
    Vector,
    String,
    Buffer,
    LightUserData,
    Table,
    Function,
    Thread,
    UserData,
    Error,
    Other,
}

/// What the library reads of a value handed over by a script. Numbers and vector
/// components are floating point in the script; they are carried here as their
/// IEEE-754 bit patterns. Values the library never looks inside keep only their kind.
#[derive(Debug, PartialEq, Eq)]
pub enum ScriptValue {
    Nil,
    Boolean(bool),
    Integer(i64),
    Number(u64),
    Vector(u32, u32, u32, u32),
    String(String),
    Buffer(Vec<u8>),
    Opaque(ValueKind),
}

impl ScriptValue {
    pub open spec fn kind_spec(&self) -> ValueKind {
        match self {
            ScriptValue::Nil => ValueKind::Nil,
            ScriptValue::Boolean(_) => ValueKind::Boolean,
            ScriptValue::Integer(_) => ValueKind::Integer,
            ScriptValue::Number(_) => ValueKind::Number,
            ScriptValue::Vector(..) => ValueKind::Vector,
            ScriptValue::String(_) => ValueKind::String,
            ScriptValue::Buffer(_) => ValueKind::Buffer,
            ScriptValue::Opaque(k) => *k,
        }
    }

    /// The kind of this value.
    pub fn kind(&self) -> (r: ValueKind)
        ensures
            r == self.kind_spec(),
    {
        match self {
            ScriptValue::Nil => ValueKind::Nil,
            ScriptValue::Boolean(_) => ValueKind::Boolean,
            ScriptValue::Integer(_) => ValueKind::Integer,
            ScriptValue::Number(_) => ValueKind::Number,
            ScriptValue::Vector(..) => ValueKind::Vector,
            ScriptValue::String(_) => ValueKind::String,
            ScriptValue::Buffer(_) => ValueKind::Buffer,
            ScriptValue::Opaque(k) => *k,
        }
    }
}

/// Why a script value could not become, or be stored in, a field.
#[derive(Clone, Copy, Debug, PartialEq, Eq, Structural)]
pub enum FieldError {
    /// No field type stands for a value of this kind.
    CannotInfer(ValueKind),
    /// The value does not fit the field's declared type.
    Mismatch { expected: LuauFieldType, got: ValueKind },
}

/// The field type that a value declares when a component is registered with it.
pub open spec fn inferred_type(v: ScriptValue) -> Option<LuauFieldType> {
    match v {
        ScriptValue::Boolean(_) => Some(LuauFieldType::Bool),
        ScriptValue::Integer(_) => Some(LuauFieldType::Integer),
        ScriptValue::Number(_) => Some(LuauFieldType::Number),
        ScriptValue::Vector(..) => Some(LuauFieldType::Vector4),
        ScriptValue::String(_) => Some(LuauFieldType::String),
        ScriptValue::Buffer(b) => Some(LuauFieldType::Buffer(b.len())),
        _ => None,
    }
}

/// Infers a field's type from the value a script gave for it.
pub fn infer_field_type(value: &ScriptValue) -> (r: Result<LuauFieldType, FieldError>)
    ensures
        match inferred_type(*value) {
            Some(t) => r == Ok::<LuauFieldType, FieldError>(t),
            None => r == Err::<LuauFieldType, FieldError>(FieldError::CannotInfer(value.kind_spec())),
        },
{
    match value {
        ScriptValue::Boolean(_) => Ok(LuauFieldType::Bool),
        ScriptValue::Integer(_) => Ok(LuauFieldType::Integer),
        ScriptValue::Number(_) => Ok(LuauFieldType::Number),
        ScriptValue::Vector(..) => Ok(LuauFieldType::Vector4),
        ScriptValue::String(_) => Ok(LuauFieldType::String),
        ScriptValue::Buffer(b) => Ok(LuauFieldType::Buffer(b.len())),
        _ => Err(FieldError::CannotInfer(value.kind())),
    }
}

/// The schedule a script system runs in.
#[derive(Clone, Copy, Debug, PartialEq, Eq, Structural)]
pub enum LuaSchedule {
    Startup,
    Update,
}

}
