use bevy_luau::fields::{decode_field, encode_field, read_field, write_bytes, write_field, FieldValue};
use bevy_luau::pool::EngineStringPool;
use bevy_luau::types::{infer_field_type, FieldError, LuauFieldType, ScriptValue, ValueKind};

#[test]
fn infer_each_kind() {
    assert_eq!(infer_field_type(&ScriptValue::Boolean(true)), Ok(LuauFieldType::Bool));
    assert_eq!(infer_field_type(&ScriptValue::Integer(3)), Ok(LuauFieldType::Integer));
    assert_eq!(infer_field_type(&ScriptValue::Number(1.5f64.to_bits())), Ok(LuauFieldType::Number));
    assert_eq!(infer_field_type(&ScriptValue::Vector(0, 0, 0, 0)), Ok(LuauFieldType::Vector4));
    assert_eq!(infer_field_type(&ScriptValue::String("x".to_string())), Ok(LuauFieldType::String));
    assert_eq!(infer_field_type(&ScriptValue::Buffer(vec![1, 2, 3])), Ok(LuauFieldType::Buffer(3)));
}

#[test]
fn infer_refuses_other_kinds() {
    assert_eq!(infer_field_type(&ScriptValue::Nil), Err(FieldError::CannotInfer(ValueKind::Nil)));
    assert_eq!(
        infer_field_type(&ScriptValue::Opaque(ValueKind::Table)),
        Err(FieldError::CannotInfer(ValueKind::Table))
    );
    assert_eq!(
        infer_field_type(&ScriptValue::Opaque(ValueKind::Function)),
        Err(FieldError::CannotInfer(ValueKind::Function))
    );
}

#[test]
fn value_kinds() {
    assert_eq!(ScriptValue::Nil.kind(), ValueKind::Nil);
    assert_eq!(ScriptValue::Integer(1).kind(), ValueKind::Integer);
    assert_eq!(ScriptValue::Opaque(ValueKind::UserData).kind(), ValueKind::UserData);
}

#[test]
fn pool_interns_once() {
    let mut pool = EngineStringPool::new();
    assert_eq!(pool.len(), 0);
    let a = pool.intern("hp");
    let b = pool.intern("speed");
    let c = pool.intern("hp");
    assert_eq!(a, 0);
    assert_eq!(b, 1);
    assert_eq!(c, a);
    assert_ne!(a, b);
    assert_eq!(pool.len(), 2);
}

#[test]
fn encode_exact_bytes() {
    assert_eq!(encode_field(&FieldValue::Bool(true)), vec![1]);
    assert_eq!(encode_field(&FieldValue::Bool(false)), vec![0]);
    assert_eq!(encode_field(&FieldValue::Integer(1)), vec![1, 0, 0, 0, 0, 0, 0, 0]);
    assert_eq!(encode_field(&FieldValue::Integer(-1)), vec![255; 8]);
    assert_eq!(encode_field(&FieldValue::Number(1.5f64.to_bits())), 1.5f64.to_bits().to_le_bytes().to_vec());
    assert_eq!(encode_field(&FieldValue::String(0x0102_0304)), vec![4, 3, 2, 1]);
    assert_eq!(
        encode_field(&FieldValue::Vector4(1, 2, 3, 4)),
        vec![1, 0, 0, 0, 2, 0, 0, 0, 3, 0, 0, 0, 4, 0, 0, 0]
    );
    assert_eq!(encode_field(&FieldValue::Buffer(vec![9, 8])), vec![9, 8]);
}

#[test]
fn decode_inverts_encode() {
    let values = vec![
        (LuauFieldType::Bool, FieldValue::Bool(true)),
        (LuauFieldType::Integer, FieldValue::Integer(-42)),
        (LuauFieldType::Number, FieldValue::Number((-2.25f64).to_bits())),
        (LuauFieldType::Vector4, FieldValue::Vector4(1.0f32.to_bits(), 2, 3, u32::MAX)),
        (LuauFieldType::String, FieldValue::String(7)),
        (LuauFieldType::Buffer(2), FieldValue::Buffer(vec![5, 6])),
    ];
    for (t, v) in values {
        let bytes = encode_field(&v);
        assert_eq!(bytes.len(), t.size());
        assert_eq!(decode_field(t, &bytes), v);
    }
}

#[test]
fn write_then_read_each_type() {
    let mut pool = EngineStringPool::new();
    let mut data = vec![0u8; 32];
    write_field(&mut data, 0, LuauFieldType::Integer, &ScriptValue::Integer(-7), &mut pool).unwrap();
    assert_eq!(read_field(&data, 0, LuauFieldType::Integer), FieldValue::Integer(-7));
    write_field(&mut data, 8, LuauFieldType::Bool, &ScriptValue::Boolean(true), &mut pool).unwrap();
    assert_eq!(read_field(&data, 8, LuauFieldType::Bool), FieldValue::Bool(true));
    write_field(&mut data, 12, LuauFieldType::String, &ScriptValue::String("name".to_string()), &mut pool)
        .unwrap();
    assert_eq!(read_field(&data, 12, LuauFieldType::String), FieldValue::String(0));
    write_field(&mut data, 16, LuauFieldType::Vector4, &ScriptValue::Vector(1, 2, 3, 4), &mut pool).unwrap();
    assert_eq!(read_field(&data, 16, LuauFieldType::Vector4), FieldValue::Vector4(1, 2, 3, 4));
    // the earlier fields are untouched
    assert_eq!(read_field(&data, 0, LuauFieldType::Integer), FieldValue::Integer(-7));
    assert_eq!(read_field(&data, 8, LuauFieldType::Bool), FieldValue::Bool(true));
    assert_eq!(pool.len(), 1);
}

#[test]
fn write_number_and_buffer() {
    let mut pool = EngineStringPool::new();
    let mut data = vec![0u8; 12];
    let bits = 3.25f64.to_bits();
    write_field(&mut data, 0, LuauFieldType::Number, &ScriptValue::Number(bits), &mut pool).unwrap();
    assert_eq!(read_field(&data, 0, LuauFieldType::Number), FieldValue::Number(bits));
    write_field(&mut data, 8, LuauFieldType::Buffer(4), &ScriptValue::Buffer(vec![1, 2, 3, 4]), &mut pool)
        .unwrap();
    assert_eq!(&data[8..12], &[1, 2, 3, 4]);
}

#[test]
fn write_nil_leaves_field() {
    let mut pool = EngineStringPool::new();
    let mut data = vec![7u8; 8];
    assert!(write_field(&mut data, 0, LuauFieldType::Integer, &ScriptValue::Nil, &mut pool).is_ok());
    assert_eq!(data, vec![7u8; 8]);
}

#[test]
fn write_mismatch_refused() {
    let mut pool = EngineStringPool::new();
    let mut data = vec![0u8; 8];
    let r = write_field(&mut data, 0, LuauFieldType::Integer, &ScriptValue::Boolean(true), &mut pool);
    assert_eq!(r, Err(FieldError::Mismatch { expected: LuauFieldType::Integer, got: ValueKind::Boolean }));
    assert_eq!(data, vec![0u8; 8]);
    let r = write_field(&mut data, 0, LuauFieldType::String, &ScriptValue::Opaque(ValueKind::Table), &mut pool);
    assert_eq!(r, Err(FieldError::Mismatch { expected: LuauFieldType::String, got: ValueKind::Table }));
    assert_eq!(pool.len(), 0);
}

#[test]
fn write_buffer_length_mismatch_refused() {
    let mut pool = EngineStringPool::new();
    let mut data = vec![0u8; 8];
    let r = write_field(&mut data, 0, LuauFieldType::Buffer(4), &ScriptValue::Buffer(vec![1, 2]), &mut pool);
    assert_eq!(r, Err(FieldError::Mismatch { expected: LuauFieldType::Buffer(4), got: ValueKind::Buffer }));
}

#[test]
fn write_bytes_overwrites_range() {
    let mut data = vec![0u8; 6];
    write_bytes(&mut data, 2, &[9, 9]);
    assert_eq!(data, vec![0, 0, 9, 9, 0, 0]);
}

#[test]
fn write_field_nil_at_any_offset() {
    let mut pool = EngineStringPool::new();
    let mut data: Vec<u8> = Vec::new();
    assert_eq!(write_field(&mut data, 100, LuauFieldType::Vector4, &ScriptValue::Nil, &mut pool), Ok(()));
    assert!(data.is_empty());
    assert_eq!(pool.len(), 0);
}

#[test]
fn pool_resolves_keys() {
    let mut pool = EngineStringPool::new();
    let a = pool.intern("alpha");
    let b = pool.intern("beta");
    assert_eq!(pool.resolve(a), "alpha");
    assert_eq!(pool.resolve(b), "beta");
    assert_eq!(pool.intern("alpha"), a);
    assert_eq!(pool.len(), 2);
}
