use fixedbitset::FixedBitSet;
use bevy_luau::commands::{check_valid, spawn_entry, trigger_event, CommandError, SpawnData, SpawnKey, SpawnValue};
use bevy_luau::loading::{signals_ready, AssetEventKind};
use bevy_luau::native::{register_native_resource, register_time, NativeFields, TimeBinding};
use bevy_luau::fields::{read_field, FieldValue};
use bevy_luau::pool::EngineStringPool;
use bevy_luau::query::{dirty_plan, field_counts, total_fields, QueryError, QueryPlan, QueryTerm};
use bevy_luau::runtime::{storage_from_config, MarkerError, RuntimeState, StorageKind};
use bevy_luau::schema::{ComponentSchema, SchemaError, SchemaRegistry};
use bevy_luau::systems::{argument_kind, observers_for_event, systems_for_schedule, writes_back, ArgKind, ParamKind};
use bevy_luau::types::{FieldError, LuaSchedule, LuauFieldType, ScriptValue, ValueKind};

fn schema(pool: &mut EngineStringPool, names: &[&str], defaults: Vec<ScriptValue>) -> ComponentSchema {
    let names: Vec<String> = names.iter().map(|s| s.to_string()).collect();
    ComponentSchema::from_defaults(&names, &defaults, pool).unwrap()
}

#[test]
fn storage_config() {
    assert_eq!(storage_from_config(Some("Table")), StorageKind::Table);
    assert_eq!(storage_from_config(Some("table")), StorageKind::SparseSet);
    assert_eq!(storage_from_config(Some("SparseSet")), StorageKind::SparseSet);
    assert_eq!(storage_from_config(None), StorageKind::SparseSet);
}

#[test]
fn query_plan_order() {
    let plan = QueryPlan::build(
        &[QueryTerm::Component(1)],
        &[QueryTerm::Component(2)],
        &[QueryTerm::Component(3), QueryTerm::Component(4)],
        &[QueryTerm::Component(5)],
    )
    .unwrap();
    assert_eq!(plan.with(), &[1]);
    assert_eq!(plan.without(), &[2]);
    assert_eq!(plan.writes(), &[3, 4]);
    assert_eq!(plan.reads(), &[5]);
    assert_eq!(plan.order(), &[3, 4, 5]);
}

#[test]
fn query_plan_invalid_entry() {
    let r = QueryPlan::build(&[], &[QueryTerm::Invalid], &[], &[]);
    assert_eq!(r.err(), Some(QueryError));
    let r = QueryPlan::build(&[], &[], &[], &[QueryTerm::Component(0), QueryTerm::Invalid]);
    assert_eq!(r.err(), Some(QueryError));
}

#[test]
fn counts_and_totals() {
    let mut pool = EngineStringPool::new();
    let mut registry = SchemaRegistry::new();
    registry.insert(0, schema(&mut pool, &["a", "b"], vec![ScriptValue::Integer(0), ScriptValue::Integer(0)]));
    registry.insert(1, schema(&mut pool, &["c"], vec![ScriptValue::Boolean(false)]));
    let counts = field_counts(&registry, &[1, 0, 9]);
    assert_eq!(counts, vec![1, 2, 0]);
    assert_eq!(total_fields(&counts), 3);
}

#[test]
fn dirty_plan_picks_changed_fields() {
    let counts = [2, 3, 1];
    let mut dirty = FixedBitSet::with_capacity(6);
    dirty.insert(2);
    dirty.insert(4);
    let plan = dirty_plan(&counts, &dirty);
    assert_eq!(plan, vec![(1, vec![0, 2])]);
    let none = dirty_plan(&counts, &FixedBitSet::with_capacity(6));
    assert!(none.is_empty());
    // marks past the end read as unchanged
    let mut short = FixedBitSet::with_capacity(1);
    short.insert(0);
    assert_eq!(dirty_plan(&counts, &short), vec![(0, vec![0])]);
}

#[test]
fn runtime_components_build() {
    let mut pool = EngineStringPool::new();
    let mut runtime = RuntimeState::new();
    let mut registry = SchemaRegistry::new();
    let m0 = runtime.register_component(schema(&mut pool, &["x"], vec![ScriptValue::Integer(1)]), StorageKind::Table);
    let m1 = runtime.register_component(schema(&mut pool, &["y"], vec![ScriptValue::Boolean(true)]), StorageKind::SparseSet);
    assert_eq!((m0, m1), (0, 1));
    assert_eq!(runtime.component_id(0), Err(MarkerError::NotBuilt));
    assert_eq!(runtime.component_id(5), Err(MarkerError::Unknown));
    let (i, layout, storage) = runtime.next_pending_component().unwrap();
    assert_eq!(i, 0);
    assert_eq!(layout.size(), 8);
    assert_eq!(storage, StorageKind::Table);
    runtime.complete_component(0, 42, &mut registry);
    assert_eq!(runtime.component_id(0), Ok(42));
    assert_eq!(registry.get(42).len(), 1);
    let (i, _, storage) = runtime.next_pending_component().unwrap();
    assert_eq!((i, storage), (1, StorageKind::SparseSet));
    runtime.complete_component(1, 43, &mut registry);
    assert!(runtime.next_pending_component().is_none());
    assert_eq!(runtime.component_id(1), Ok(43));
}

#[test]
fn runtime_queries_build() {
    let mut runtime = RuntimeState::new();
    let plan = QueryPlan::build(&[], &[], &[QueryTerm::Component(0)], &[]).unwrap();
    let q = runtime.register_query(plan);
    assert_eq!(q, 0);
    assert_eq!(runtime.query_entity(0), Err(MarkerError::NotBuilt));
    assert_eq!(runtime.next_pending_query(), Some(0));
    let taken = runtime.complete_query(0, 77).unwrap();
    assert_eq!(taken.order(), &[0]);
    assert_eq!(runtime.query_entity(0), Ok(77));
    assert_eq!(runtime.next_pending_query(), None);
    assert_eq!(runtime.query_entity(1), Err(MarkerError::Unknown));
}

#[test]
fn schedules_pick_systems() {
    let s = [LuaSchedule::Startup, LuaSchedule::Update, LuaSchedule::Update, LuaSchedule::Startup];
    assert_eq!(systems_for_schedule(&s, LuaSchedule::Startup), vec![0, 3]);
    assert_eq!(systems_for_schedule(&s, LuaSchedule::Update), vec![1, 2]);
    assert!(systems_for_schedule(&[], LuaSchedule::Update).is_empty());
}

#[test]
fn observers_pick_event() {
    assert_eq!(observers_for_event(&[4, 5, 4], 4), vec![0, 2]);
    assert!(observers_for_event(&[4, 5, 4], 6).is_empty());
}

#[test]
fn commands_scope_and_spawn() {
    assert_eq!(check_valid(true), Ok(()));
    assert_eq!(check_valid(false), Err(CommandError::OutsideScope));
    let mut pool = EngineStringPool::new();
    let mut runtime = RuntimeState::new();
    let mut registry = SchemaRegistry::new();
    runtime.register_component(schema(&mut pool, &["x"], vec![ScriptValue::Integer(1)]), StorageKind::Table);
    assert_eq!(
        spawn_entry(&runtime, SpawnKey::Marker(0), SpawnValue::Table),
        Err(CommandError::Marker(MarkerError::NotBuilt))
    );
    runtime.complete_component(0, 9, &mut registry);
    assert_eq!(spawn_entry(&runtime, SpawnKey::Marker(0), SpawnValue::Table), Ok((9, SpawnData::Table)));
    assert_eq!(spawn_entry(&runtime, SpawnKey::Marker(0), SpawnValue::DefaultMarker), Ok((9, SpawnData::Default)));
    assert_eq!(spawn_entry(&runtime, SpawnKey::Marker(0), SpawnValue::Other), Err(CommandError::SpawnDataInvalid));
    assert_eq!(spawn_entry(&runtime, SpawnKey::NotUserData, SpawnValue::Table), Err(CommandError::SpawnKeyNotUserData));
    assert_eq!(spawn_entry(&runtime, SpawnKey::OtherUserData, SpawnValue::Table), Err(CommandError::SpawnKeyNotMarker));
    assert_eq!(spawn_entry(&runtime, SpawnKey::Marker(3), SpawnValue::Table), Err(CommandError::Marker(MarkerError::Unknown)));
    assert_eq!(trigger_event(&runtime, 0), Ok(9));
    assert_eq!(trigger_event(&runtime, 1), Err(CommandError::Marker(MarkerError::Unknown)));
}

#[test]
fn native_fields_offsets() {
    let mut pool = EngineStringPool::new();
    let names: Vec<String> = vec!["a".to_string(), "b".to_string()];
    let defaults = vec![ScriptValue::Boolean(false), ScriptValue::Integer(3)];
    let (key, schema, fields) = register_native_resource("Res", &names, &defaults, &mut pool).unwrap();
    assert_eq!(key, 0);
    let a = pool.intern("a");
    let b = pool.intern("b");
    assert_eq!(fields.offset_of(a), 0);
    assert_eq!(fields.offset_of(b), schema.fields()[1].offset);
    let again = NativeFields::from_schema(&schema);
    assert_eq!(again.offset_of(b), fields.offset_of(b));
}

#[test]
fn time_registration_and_sync() {
    let mut pool = EngineStringPool::new();
    let (key, schema, delta, elapsed) = register_time(&mut pool);
    assert_eq!(key, 0);
    assert_eq!(delta, 0);
    assert_eq!(elapsed, 8);
    assert_eq!(schema.layout().size(), 16);
    let binding = TimeBinding::new(5, delta, elapsed);
    assert_eq!(binding.component_id(), 5);
    let bytes = binding.component_bytes(schema.default_template(), 0.016f64.to_bits(), 2.5f64.to_bits());
    assert_eq!(read_field(&bytes, delta, LuauFieldType::Number), FieldValue::Number(0.016f64.to_bits()));
    assert_eq!(read_field(&bytes, elapsed, LuauFieldType::Number), FieldValue::Number(2.5f64.to_bits()));
    assert_eq!(read_field(schema.default_template(), delta, LuauFieldType::Number), FieldValue::Number(0));
}

#[test]
fn entry_script_ready_events() {
    assert!(signals_ready(AssetEventKind::Added, true));
    assert!(signals_ready(AssetEventKind::Modified, true));
    assert!(signals_ready(AssetEventKind::LoadedWithDependencies, true));
    assert!(!signals_ready(AssetEventKind::Removed, true));
    assert!(!signals_ready(AssetEventKind::Unused, true));
    assert!(!signals_ready(AssetEventKind::Added, false));
}

#[test]
fn system_and_observer_arguments() {
    assert_eq!(argument_kind(ParamKind::Time, false), ArgKind::Time);
    assert_eq!(argument_kind(ParamKind::Resource, false), ArgKind::Resource);
    assert_eq!(argument_kind(ParamKind::Commands, false), ArgKind::Commands);
    assert_eq!(argument_kind(ParamKind::Query, false), ArgKind::Query);
    assert_eq!(argument_kind(ParamKind::Time, true), ArgKind::Nil);
    assert_eq!(argument_kind(ParamKind::Resource, true), ArgKind::Nil);
    assert_eq!(argument_kind(ParamKind::Commands, true), ArgKind::Commands);
    assert_eq!(argument_kind(ParamKind::Query, true), ArgKind::Query);
    assert!(writes_back(ArgKind::Query));
    assert!(writes_back(ArgKind::Resource));
    assert!(!writes_back(ArgKind::Commands));
    assert!(!writes_back(ArgKind::Time));
    assert!(!writes_back(ArgKind::Nil));
}

#[test]
fn native_resource_interns_every_field_name_first() {
    let mut pool = EngineStringPool::new();
    let names: Vec<String> = vec!["a".to_string(), "b".to_string(), "c".to_string()];
    let defaults = vec![ScriptValue::Integer(1), ScriptValue::Opaque(ValueKind::Table), ScriptValue::Boolean(true)];
    let r = register_native_resource("Res", &names, &defaults, &mut pool);
    assert_eq!(r.err(), Some(SchemaError::Field(FieldError::CannotInfer(ValueKind::Table))));
    // the resource name and all three field names were interned, the last one too
    assert_eq!(pool.len(), 4);
    assert_eq!(pool.resolve(0), "Res");
    assert_eq!(pool.resolve(3), "c");
}
