use bevy_luau::bridge::DynamicComponentBridge;
use bevy_luau::fields::{read_field, FieldValue};
use bevy_luau::layout::LayoutError;
use bevy_luau::pool::EngineStringPool;
use bevy_luau::schema::{
    compute_layout, declared_field_type, write_values, ComponentSchema, FieldSlot, SchemaError, SchemaRegistry,
};
use bevy_luau::types::{FieldError, LuauFieldType, ScriptValue, ValueKind};

fn names(list: &[&str]) -> Vec<String> {
    list.iter().map(|s| s.to_string()).collect()
}

#[test]
fn compute_layout_offsets_and_padding() {
    let fields = [(0, LuauFieldType::Bool), (1, LuauFieldType::Integer), (2, LuauFieldType::String)];
    let (layout, slots) = compute_layout(&fields).unwrap();
    let a = std::mem::align_of::<i64>();
    let expected_int = if a == 8 { 8 } else { 4 };
    let items = slots.items();
    assert_eq!(items.len(), 3);
    assert_eq!(items[0], FieldSlot { key: 0, offset: 0, ty: LuauFieldType::Bool });
    assert_eq!(items[1], FieldSlot { key: 1, offset: expected_int, ty: LuauFieldType::Integer });
    assert_eq!(items[2].offset, expected_int + 8);
    assert_eq!(layout.align(), a);
    assert_eq!(layout.size() % layout.align(), 0);
    assert!(layout.size() >= expected_int + 12);
}

#[test]
fn compute_layout_empty() {
    let (layout, slots) = compute_layout(&[]).unwrap();
    assert_eq!(layout.size(), 0);
    assert_eq!(layout.align(), 1);
    assert_eq!(slots.items().len(), 0);
}

#[test]
fn compute_layout_too_large() {
    let fields = [(0, LuauFieldType::Buffer(isize::MAX as usize)), (1, LuauFieldType::Bool)];
    assert_eq!(compute_layout(&fields).err(), Some(LayoutError));
    let fields = [(0, LuauFieldType::Buffer(usize::MAX))];
    assert_eq!(compute_layout(&fields).err(), Some(LayoutError));
}

#[test]
fn from_defaults_builds_template() {
    let mut pool = EngineStringPool::new();
    let defaults = vec![ScriptValue::Integer(100), ScriptValue::Boolean(true), ScriptValue::String("hero".to_string())];
    let schema = ComponentSchema::from_defaults(&names(&["hp", "alive", "name"]), &defaults, &mut pool).unwrap();
    let fields = schema.fields();
    assert_eq!(fields.len(), 3);
    assert_eq!(fields[0].key, 0);
    assert_eq!(fields[1].key, 1);
    assert_eq!(fields[2].key, 2);
    // "hero" is interned after the three names
    assert_eq!(pool.len(), 4);
    let t = schema.default_template();
    assert_eq!(t.len(), schema.layout().size());
    assert_eq!(read_field(t, fields[0].offset, fields[0].ty), FieldValue::Integer(100));
    assert_eq!(read_field(t, fields[1].offset, fields[1].ty), FieldValue::Bool(true));
    assert_eq!(read_field(t, fields[2].offset, fields[2].ty), FieldValue::String(3));
}

#[test]
fn from_defaults_cannot_infer() {
    let mut pool = EngineStringPool::new();
    let defaults = vec![ScriptValue::Integer(1), ScriptValue::Opaque(ValueKind::Table)];
    let r = ComponentSchema::from_defaults(&names(&["a", "b"]), &defaults, &mut pool);
    assert_eq!(r.err(), Some(SchemaError::Field(FieldError::CannotInfer(ValueKind::Table))));
}

#[test]
fn from_defaults_layout_error() {
    let mut pool = EngineStringPool::new();
    // A buffer that fits in an isize, followed by one more byte, does not fit.
    let huge = isize::MAX as usize;
    let r = compute_layout(&[(0, LuauFieldType::Buffer(huge)), (1, LuauFieldType::Integer)]);
    assert!(r.is_err());
    let defaults = vec![ScriptValue::Nil];
    let r = ComponentSchema::from_defaults(&names(&["x"]), &defaults, &mut pool);
    assert_eq!(r.err(), Some(SchemaError::Field(FieldError::CannotInfer(ValueKind::Nil))));
}

#[test]
fn instantiate_then_extract_reads_back() {
    let mut pool = EngineStringPool::new();
    let defaults = vec![ScriptValue::Integer(100), ScriptValue::Number(0), ScriptValue::String("a".to_string())];
    let schema = ComponentSchema::from_defaults(&names(&["hp", "speed", "tag"]), &defaults, &mut pool).unwrap();
    let values = vec![ScriptValue::Integer(5), ScriptValue::Nil, ScriptValue::String("b".to_string())];
    let data = schema.instantiate(&values, &mut pool).unwrap();
    let out = schema.extract(&data);
    assert_eq!(out.len(), 3);
    assert_eq!(out[0], (0, FieldValue::Integer(5)));
    assert_eq!(out[1], (1, FieldValue::Number(0)));
    // "a" has key 3, "b" key 4
    assert_eq!(out[2], (2, FieldValue::String(4)));
}

#[test]
fn instantiate_mismatch() {
    let mut pool = EngineStringPool::new();
    let defaults = vec![ScriptValue::Integer(1), ScriptValue::Boolean(false)];
    let schema = ComponentSchema::from_defaults(&names(&["a", "b"]), &defaults, &mut pool).unwrap();
    let values = vec![ScriptValue::Integer(2), ScriptValue::Integer(3)];
    assert_eq!(
        schema.instantiate(&values, &mut pool).err(),
        Some(FieldError::Mismatch { expected: LuauFieldType::Bool, got: ValueKind::Integer })
    );
}

#[test]
fn registry_insert_and_get() {
    let mut pool = EngineStringPool::new();
    let mut registry = SchemaRegistry::new();
    assert_eq!(registry.get(3).len(), 0);
    assert!(registry.schema(3).is_none());
    let defaults = vec![ScriptValue::Boolean(true)];
    let schema = ComponentSchema::from_defaults(&names(&["on"]), &defaults, &mut pool).unwrap();
    registry.insert(3, schema);
    assert_eq!(registry.get(3).len(), 1);
    assert_eq!(registry.get(3)[0].ty, LuauFieldType::Bool);
    assert_eq!(registry.get(4).len(), 0);
}

#[test]
fn bridge_insert_and_extract() {
    let mut pool = EngineStringPool::new();
    let mut registry = SchemaRegistry::new();
    let defaults = vec![ScriptValue::Integer(10), ScriptValue::Boolean(false)];
    let schema = ComponentSchema::from_defaults(&names(&["n", "flag"]), &defaults, &mut pool).unwrap();
    registry.insert(7, schema);
    let values = vec![ScriptValue::Nil, ScriptValue::Boolean(true)];
    let bytes = DynamicComponentBridge::insert_from_table(&registry, 7, &values, &mut pool).unwrap();
    let out = DynamicComponentBridge::extract_to_table(&registry, 7, Some(&bytes)).unwrap();
    assert_eq!(out[0], (0, FieldValue::Integer(10)));
    assert_eq!(out[1], (1, FieldValue::Bool(true)));
    let default = DynamicComponentBridge::insert_default(&registry, 7);
    let out = DynamicComponentBridge::extract_to_table(&registry, 7, Some(&default)).unwrap();
    assert_eq!(out[1], (1, FieldValue::Bool(false)));
    assert!(DynamicComponentBridge::extract_to_table(&registry, 8, Some(&default)).is_none());
    assert!(DynamicComponentBridge::extract_to_table(&registry, 7, None).is_none());
}

#[test]
fn from_defaults_refuses_buffer_default() {
    let mut pool = EngineStringPool::new();
    let defaults = vec![ScriptValue::Integer(1), ScriptValue::Buffer(vec![1, 2])];
    let r = ComponentSchema::from_defaults(&names(&["a", "b"]), &defaults, &mut pool);
    assert_eq!(r.err(), Some(SchemaError::Field(FieldError::CannotInfer(ValueKind::Buffer))));
    // the names up to the refused one were interned
    assert_eq!(pool.len(), 2);
    assert_eq!(pool.resolve(1), "b");
}

#[test]
fn declared_type_of_defaults() {
    assert_eq!(declared_field_type(&ScriptValue::Integer(1)), Ok(LuauFieldType::Integer));
    assert_eq!(declared_field_type(&ScriptValue::String("s".to_string())), Ok(LuauFieldType::String));
    assert_eq!(
        declared_field_type(&ScriptValue::Buffer(vec![0; 4])),
        Err(FieldError::CannotInfer(ValueKind::Buffer))
    );
    assert_eq!(declared_field_type(&ScriptValue::Nil), Err(FieldError::CannotInfer(ValueKind::Nil)));
}

#[test]
fn write_back_stops_at_first_refused_value() {
    let mut pool = EngineStringPool::new();
    let defaults = vec![ScriptValue::Integer(1), ScriptValue::Boolean(false), ScriptValue::String("d".to_string())];
    let schema = ComponentSchema::from_defaults(&names(&["a", "b", "c"]), &defaults, &mut pool).unwrap();
    let before = pool.len();
    let mut data = schema.default_template().to_vec();
    let values = vec![ScriptValue::Integer(7), ScriptValue::Integer(3), ScriptValue::String("x".to_string())];
    let r = schema.write_back(&mut data, &[0, 1, 2], &values, &mut pool);
    assert_eq!(r, Err(FieldError::Mismatch { expected: LuauFieldType::Bool, got: ValueKind::Integer }));
    let out = schema.extract(&data);
    // the field written before the refused one keeps its new value
    assert_eq!(out[0], (0, FieldValue::Integer(7)));
    assert_eq!(out[1], (1, FieldValue::Bool(false)));
    assert_eq!(out[2], (2, FieldValue::String(3)));
    // the string after the refused value was not interned
    assert_eq!(pool.len(), before);
}

#[test]
fn write_back_selected_fields() {
    let mut pool = EngineStringPool::new();
    let defaults = vec![ScriptValue::Integer(1), ScriptValue::Boolean(false), ScriptValue::String("d".to_string())];
    let schema = ComponentSchema::from_defaults(&names(&["a", "b", "c"]), &defaults, &mut pool).unwrap();
    let mut data = schema.default_template().to_vec();
    let values = vec![ScriptValue::String("z".to_string()), ScriptValue::Nil, ScriptValue::Boolean(true)];
    assert_eq!(schema.write_back(&mut data, &[2, 0, 1], &values, &mut pool), Ok(()));
    let out = schema.extract(&data);
    assert_eq!(out[0], (0, FieldValue::Integer(1)));
    assert_eq!(out[1], (1, FieldValue::Bool(true)));
    assert_eq!(out[2], (2, FieldValue::String(4)));
    assert_eq!(pool.resolve(4), "z");
}

#[test]
fn write_values_in_order() {
    let mut pool = EngineStringPool::new();
    let slots = [
        FieldSlot { key: 0, offset: 0, ty: LuauFieldType::Integer },
        FieldSlot { key: 1, offset: 8, ty: LuauFieldType::String },
    ];
    let mut data = vec![0u8; 12];
    let values = vec![ScriptValue::Integer(-2), ScriptValue::String("k".to_string())];
    assert_eq!(write_values(&mut data, &slots, &values, &mut pool), Ok(()));
    assert_eq!(read_field(&data, 0, LuauFieldType::Integer), FieldValue::Integer(-2));
    assert_eq!(read_field(&data, 8, LuauFieldType::String), FieldValue::String(0));
    let bad = vec![ScriptValue::Boolean(true), ScriptValue::String("m".to_string())];
    assert_eq!(
        write_values(&mut data, &slots, &bad, &mut pool),
        Err(FieldError::Mismatch { expected: LuauFieldType::Integer, got: ValueKind::Boolean })
    );
    assert_eq!(read_field(&data, 0, LuauFieldType::Integer), FieldValue::Integer(-2));
    assert_eq!(pool.len(), 1);
}

#[test]
fn write_back_of_extracted_values_keeps_bytes() {
    let mut pool = EngineStringPool::new();
    let defaults = vec![
        ScriptValue::Integer(-5),
        ScriptValue::Boolean(true),
        ScriptValue::String("w".to_string()),
        ScriptValue::Number(2.5f64.to_bits()),
        ScriptValue::Vector(1, 2, 3, 4),
    ];
    let schema = ComponentSchema::from_defaults(&names(&["i", "b", "s", "n", "v"]), &defaults, &mut pool).unwrap();
    let data = schema.default_template().to_vec();
    let before = pool.len();
    let values: Vec<ScriptValue> = schema
        .extract(&data)
        .into_iter()
        .map(|(_, v)| match v {
            FieldValue::Bool(b) => ScriptValue::Boolean(b),
            FieldValue::Integer(i) => ScriptValue::Integer(i),
            FieldValue::Number(n) => ScriptValue::Number(n),
            FieldValue::Vector4(x, y, z, w) => ScriptValue::Vector(x, y, z, w),
            FieldValue::String(k) => ScriptValue::String(pool.resolve(k as usize).to_string()),
            FieldValue::Buffer(b) => ScriptValue::Buffer(b),
        })
        .collect();
    let mut again = data.clone();
    assert_eq!(schema.write_back(&mut again, &[0, 1, 2, 3, 4], &values, &mut pool), Ok(()));
    assert_eq!(again, data);
    assert_eq!(pool.len(), before);
}
