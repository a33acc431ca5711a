use vstd::prelude::*;
use smallvec::SmallVec;
use crate::fields::{encode, field_bytes, splice, write_bytes, FieldModel};
use crate::pool::EngineStringPool;
use crate::schema::{
    built_from, fold_layout, inferred_types, lemma_names_interned_held, lemma_names_interned_holds,
    names_interned, schema_error, strings_after_all, ComponentSchema, FieldSlot, SchemaError,
};
use crate::types::{field_align, LuauFieldType, ScriptValue};

verus! {

/// The (name key, offset) pairs of a native resource's fields, held in a `SmallVec` as the
/// engine keeps them. Verus does not take a declaration of `SmallVec` itself, so the
/// vector sits in a field that Verus does not read; `offset_items` names its contents.
#[verifier::external_body]
pub struct OffsetList {
    items: SmallVec<[(usize, usize); 4]>,
}

/// The items of the `SmallVec` of an offset list, in order.
pub uninterp spec fn offset_items(v: OffsetList) -> Seq<(usize, usize)>;

/// Calls `SmallVec::new`, which holds no item.
#[verifier::external_body]
fn offsets_new() -> (r: OffsetList)
    ensures
        offset_items(r) == Seq::<(usize, usize)>::empty(),
{
    OffsetList { items: SmallVec::new() }
}

/// Calls `SmallVec::push`, which appends the item. Like `Vec::push`, it panics when the
/// capacity cannot grow (capacity overflow or a failed allocation); that is not stated.
#[verifier::external_body]
fn offsets_push(v: &mut OffsetList, entry: (usize, usize))
    ensures
        offset_items(*final(v)) == offset_items(*old(v)).push(entry),
{
    v.items.push(entry)
}

/// Calls `SmallVec::as_slice`, whose items are those of the vector.
#[verifier::external_body]
fn offsets_as_slice(v: &OffsetList) -> (r: &[(usize, usize)])
    ensures
        r@ == offset_items(*v),
{
    v.items.as_slice()
}

/// Where each field of a native resource starts, by the key of its name.
pub struct NativeFields(OffsetList);

/// The (key, offset) pairs of a schema's slots.
pub open spec fn slot_offsets(slots: Seq<FieldSlot>) -> Seq<(usize, usize)> {
    slots.map_values(|s: FieldSlot| (s.key, s.offset))
}

/// Each entry of a native resource's fields pairs a slot's key with that same slot's
/// offset, one entry per slot, in the slots' order.
pub proof fn lemma_slot_offsets(slots: Seq<FieldSlot>)
    ensures
        slot_offsets(slots).len() == slots.len(),
        forall|i: int|
            0 <= i < slots.len() ==> #[trigger] slot_offsets(slots)[i] == (slots[i].key, slots[i].offset),
{
}

impl NativeFields {
    pub closed spec fn entries(&self) -> Seq<(usize, usize)> {
        offset_items(self.0)
    }

    /// The fields of a schema, in order.
    pub fn from_schema(schema: &ComponentSchema) -> (r: NativeFields)
        requires
            schema.wf(),
        ensures
            r.entries() == slot_offsets(schema.slots_spec()),
    {
        let slots = schema.fields();
        let mut list = offsets_new();
        let n = slots.len();
        let mut i: usize = 0;
        while i < n
            invariant
                n == slots@.len(),
                i <= n,
                offset_items(list) == slot_offsets(slots@.subrange(0, i as int)),
            decreases n - i,
        {
            offsets_push(&mut list, (slots[i].key, slots[i].offset));
            i = i + 1;
            assert(offset_items(list) =~= slot_offsets(slots@.subrange(0, i as int)));
        }
        assert(slots@.subrange(0, n as int) =~= slots@);
        NativeFields(list)
    }

    /// The offset of the first field whose name has key `key`. The field must exist.
    pub fn offset_of(&self, key: usize) -> (r: usize)
        requires
            exists|i: int| 0 <= i < self.entries().len() && #[trigger] self.entries()[i].0 == key,
        ensures
            exists|i: int|
                0 <= i < self.entries().len() && #[trigger] self.entries()[i].0 == key && r
                    == self.entries()[i].1 && forall|j: int| 0 <= j < i ==> self.entries()[j].0 != key,
    {
        let entries = offsets_as_slice(&self.0);
        let n = entries.len();
        let mut i: usize = 0;
        while i < n
            invariant
                n == entries@.len(),
                entries@ == self.entries(),
                i <= n,
                forall|j: int| 0 <= j < i ==> entries@[j].0 != key,
                exists|k: int| 0 <= k < entries@.len() && #[trigger] entries@[k].0 == key,
            decreases n - i,
        {
            if entries[i].0 == key {
                return entries[i].1;
            }
            i = i + 1;
        }
        proof {
            let k = choose|k: int| 0 <= k < entries@.len() && #[trigger] entries@[k].0 == key;
            assert(entries@[k].0 != key);
        }
        0
    }
}

/// The interned strings once `name` is interned.
pub open spec fn with_name(strings: Seq<Seq<char>>, name: Seq<char>) -> Seq<Seq<char>> {
    if strings.contains(name) {
        strings
    } else {
        strings.push(name)
    }
}

/// Declares a native resource: its name is interned, then every field name, and then
/// its fields are declared from their names and default values as a script component's
/// are. The engine registers the schema and records the name's key.
pub fn register_native_resource(
    name: &str,
    names: &[String],
    defaults: &[ScriptValue],
    pool: &mut EngineStringPool,
) -> (r: Result<(usize, ComponentSchema, NativeFields), SchemaError>)
    requires
        names@.len() == defaults@.len(),
        old(pool).wf(),
        old(pool)@.len() + 3 * defaults@.len() < u32::MAX,
    ensures
        final(pool).wf(),
        old(pool)@.is_prefix_of(final(pool)@),
        match schema_error(defaults@) {
            Some(e) => {
                &&& r == Err::<(usize, ComponentSchema, NativeFields), SchemaError>(e)
                &&& final(pool)@ == names_interned(
                    with_name(old(pool)@, name@),
                    names@,
                    defaults@.len() as int,
                )
            },
            None => r matches Ok((key, schema, fields)) && {
                &&& key < final(pool)@.len()
                &&& final(pool)@[key as int] == name@
                &&& built_from(schema, names@, defaults@, final(pool)@)
                &&& fields.entries() == slot_offsets(schema.slots_spec())
                &&& final(pool)@ == strings_after_all(
                    defaults@,
                    names_interned(with_name(old(pool)@, name@), names@, defaults@.len() as int),
                    defaults@.len() as int,
                )
            },
        },
{
    let key = pool.intern(name);
    let ghost after_name = pool@;
    let n = names.len();
    let mut i: usize = 0;
    while i < n
        invariant
            n == names@.len(),
            i <= n,
            pool.wf(),
            after_name.len() <= old(pool)@.len() + 1,
            after_name.no_duplicates(),
            pool@ == names_interned(after_name, names@, i as int),
            pool@.len() <= after_name.len() + i,
            old(pool)@.len() + 3 * n < u32::MAX,
        decreases n - i,
    {
        proof {
            lemma_names_interned_holds(after_name, names@, i as int);
        }
        pool.intern(names[i].as_str());
        i = i + 1;
    }
    let ghost after_names = pool@;
    proof {
        lemma_names_interned_holds(after_name, names@, n as int);
        lemma_names_interned_held(after_names, names@, n as int);
        assert forall|k: int| 0 <= k <= n implies names_interned(after_names, names@, k)
            == after_names by {
            lemma_names_interned_held(after_names, names@, k);
        }
    }
    let schema = match ComponentSchema::from_defaults(names, defaults, pool) {
        Ok(schema) => schema,
        Err(e) => {
            proof {
                match crate::schema::first_uninferable(defaults@, n as int) {
                    Some(j) => {
                        crate::schema::lemma_first_uninferable_range(defaults@, n as int);
                        assert(names_interned(after_names, names@, j + 1) == after_names);
                    },
                    None => {
                        assert(names_interned(after_names, names@, n as int) == after_names);
                    },
                }
            }
            return Err(e);
        },
    };
    proof {
        assert(after_name.is_prefix_of(after_names));
        assert(pool@[key as int] == after_name[key as int]);
    }
    let fields = NativeFields::from_schema(&schema);
    Ok((key, schema, fields))
}

/// Where the engine's time resource keeps its two values.
#[derive(Clone, Copy, Debug)]
pub struct TimeBinding {
    component_id: usize,
    delta_offset: usize,
    elapsed_offset: usize,
}

/// The schema of the time resource: two numbers, the seconds since the last frame and
/// since start, laid out one after the other.
pub open spec fn time_names() -> Seq<Seq<char>> {
    seq!["delta_secs"@, "elapsed_secs"@]
}

impl TimeBinding {
    pub closed spec fn component_id_spec(&self) -> usize {
        self.component_id
    }

    /// The component id of the time resource.
    pub fn component_id(&self) -> (r: usize)
        ensures
            r == self.component_id_spec(),
    {
        self.component_id
    }

    pub closed spec fn delta_offset_spec(&self) -> usize {
        self.delta_offset
    }

    pub closed spec fn elapsed_offset_spec(&self) -> usize {
        self.elapsed_offset
    }

    /// A binding of the time resource's component to its two field offsets.
    pub fn new(component_id: usize, delta_offset: usize, elapsed_offset: usize) -> (r: TimeBinding)
        ensures
            r.component_id_spec() == component_id,
            r.delta_offset_spec() == delta_offset,
            r.elapsed_offset_spec() == elapsed_offset,
    {
        TimeBinding { component_id, delta_offset, elapsed_offset }
    }

    /// Where the seconds since the last frame are kept.
    pub fn delta_offset(&self) -> (r: usize)
        ensures
            r == self.delta_offset_spec(),
    {
        self.delta_offset
    }

    /// Where the seconds since start are kept.
    pub fn elapsed_offset(&self) -> (r: usize)
        ensures
            r == self.elapsed_offset_spec(),
    {
        self.elapsed_offset
    }

    /// The bytes of the time resource for this frame: the template with both numbers
    /// (given as the bit patterns of the seconds) written at their offsets, the elapsed
    /// time last.
    pub fn component_bytes(&self, template: &[u8], delta_bits: u64, elapsed_bits: u64) -> (r: Vec<u8>)
        requires
            self.delta_offset_spec() + 8 <= template@.len(),
            self.elapsed_offset_spec() + 8 <= template@.len(),
        ensures
            r@ == splice(
                splice(
                    template@,
                    self.delta_offset_spec() as int,
                    encode(FieldModel::Number(delta_bits)),
                ),
                self.elapsed_offset_spec() as int,
                encode(FieldModel::Number(elapsed_bits)),
            ),
    {
        let mut data = vstd::slice::slice_to_vec(template);
        let delta = vstd::bytes::u64_to_le_bytes(delta_bits);
        write_bytes(&mut data, self.delta_offset, delta.as_slice());
        let elapsed = vstd::bytes::u64_to_le_bytes(elapsed_bits);
        write_bytes(&mut data, self.elapsed_offset, elapsed.as_slice());
        data
    }
}

/// Reading the time resource's bytes gives back the numbers written: the elapsed time
/// always, the time since the last frame when the two fields do not overlap.
pub proof fn lemma_time_read_back(
    template: Seq<u8>,
    delta_offset: int,
    elapsed_offset: int,
    delta_bits: u64,
    elapsed_bits: u64,
)
    requires
        0 <= delta_offset,
        0 <= elapsed_offset,
        delta_offset + 8 <= template.len(),
        elapsed_offset + 8 <= template.len(),
    ensures
        ({
            let bytes = splice(
                splice(template, delta_offset, encode(FieldModel::Number(delta_bits))),
                elapsed_offset,
                encode(FieldModel::Number(elapsed_bits)),
            );
            &&& crate::fields::decode(LuauFieldType::Number, field_bytes(bytes, elapsed_offset, LuauFieldType::Number))
                == FieldModel::Number(elapsed_bits)
            &&& (delta_offset + 8 <= elapsed_offset || elapsed_offset + 8 <= delta_offset) ==> crate::fields::decode(
                LuauFieldType::Number,
                field_bytes(bytes, delta_offset, LuauFieldType::Number),
            ) == FieldModel::Number(delta_bits)
        }),
{
    crate::fields::lemma_decode_encode(FieldModel::Number(delta_bits));
    crate::fields::lemma_decode_encode(FieldModel::Number(elapsed_bits));
    let first = splice(template, delta_offset, encode(FieldModel::Number(delta_bits)));
    crate::fields::lemma_splice(template, delta_offset, encode(FieldModel::Number(delta_bits)), elapsed_offset, 8);
    crate::fields::lemma_splice(first, elapsed_offset, encode(FieldModel::Number(elapsed_bits)), delta_offset, 8);
}

/// The time resource's defaults lay out: two numbers, one after the other.
proof fn lemma_time_layout(defaults: Seq<ScriptValue>)
    requires
        defaults =~= seq![ScriptValue::Number(0), ScriptValue::Number(0)],
    ensures
        schema_error(defaults) is None,
        fold_layout(inferred_types(defaults)) matches Some((size, align, offsets)) && offsets[0] + 8
            <= offsets[1],
{
    let n = LuauFieldType::Number;
    let a = field_align(n);
    crate::types::lemma_field_align(n);
    assert(crate::schema::first_uninferable(defaults, 0) is None);
    assert(crate::schema::first_uninferable(defaults, 1) is None);
    assert(crate::schema::first_uninferable(defaults, 2) is None);
    let types = inferred_types(defaults);
    assert(types =~= seq![n, n]);
    assert(types.drop_last() =~= seq![n]);
    assert(seq![n].drop_last() =~= Seq::<LuauFieldType>::empty());
    crate::layout::lemma_round_up(0, a as int);
    crate::layout::lemma_round_up(8, a as int);
    assert(crate::layout::max_usize(1, a) == a);
    assert(crate::layout::max_usize(a, a) == a);
    assert(fold_layout(seq![n].drop_last()) == Some((0int, 1usize, Seq::<int>::empty())));
    assert(fold_layout(seq![n]) == Some((8int, a, seq![0int])));
    assert(fold_layout(types) == Some((16int, a, seq![0int, 8int])));
}

/// Declares the engine's time resource, named `"Time"`, with two numbers, `delta_secs`
/// and `elapsed_secs`, both zero by default: the key of its name, its schema, and where
/// each of the two numbers starts (found by the keys of their names, as a binding looks
/// them up). It cannot fail.
pub fn register_time(pool: &mut EngineStringPool) -> (r: (usize, ComponentSchema, usize, usize))
    requires
        old(pool).wf(),
        old(pool)@.len() + 8 < u32::MAX,
    ensures
        final(pool).wf(),
        old(pool)@.is_prefix_of(final(pool)@),
        r.0 < final(pool)@.len(),
        final(pool)@[r.0 as int] == "Time"@,
        r.1.wf(),
        r.1.slots_spec().len() == 2,
        r.1.slots_spec()[0].ty == LuauFieldType::Number,
        r.1.slots_spec()[1].ty == LuauFieldType::Number,
        final(pool)@[r.1.slots_spec()[0].key as int] == "delta_secs"@,
        final(pool)@[r.1.slots_spec()[1].key as int] == "elapsed_secs"@,
        r.2 == r.1.slots_spec()[0].offset,
        r.3 == r.1.slots_spec()[1].offset,
        r.2 + 8 <= r.3,
{
    let mut names: Vec<String> = Vec::new();
    names.push("delta_secs".to_owned());
    names.push("elapsed_secs".to_owned());
    let mut defaults: Vec<ScriptValue> = Vec::new();
    defaults.push(ScriptValue::Number(0));
    defaults.push(ScriptValue::Number(0));
    proof {
        lemma_time_layout(defaults@);
    }
    let ghost before = pool@;
    let (key, schema, fields) = register_native_resource(
        "Time",
        names.as_slice(),
        defaults.as_slice(),
        pool,
    ).unwrap();
    let ghost strings = pool@;
    proof {
        reveal_strlit("delta_secs");
        reveal_strlit("elapsed_secs");
        assert("delta_secs"@ != "elapsed_secs"@) by {
            assert("delta_secs"@.len() != "elapsed_secs"@.len());
        }
        let s = schema.slots_spec();
        assert(s[0].key < strings.len() && strings[s[0].key as int] == names@[0]@);
        assert(s[1].key < strings.len() && strings[s[1].key as int] == names@[1]@);
        assert(fields.entries()[0] == (s[0].key, s[0].offset));
        assert(fields.entries()[1] == (s[1].key, s[1].offset));
        crate::schema::lemma_fold_layout_sound(inferred_types(defaults@));
    }
    let delta_key = pool.intern("delta_secs");
    let elapsed_key = pool.intern("elapsed_secs");
    proof {
        let s = schema.slots_spec();
        crate::fields::lemma_index_of_unique(pool@, "delta_secs"@, s[0].key as int);
        crate::fields::lemma_index_of_unique(pool@, "elapsed_secs"@, s[1].key as int);
        crate::fields::lemma_index_of_unique(pool@, "delta_secs"@, delta_key as int);
        crate::fields::lemma_index_of_unique(pool@, "elapsed_secs"@, elapsed_key as int);
        assert(fields.entries()[0].0 == delta_key);
        assert(fields.entries()[1].0 == elapsed_key);
        assert(fields.entries()[0].0 != elapsed_key);
    }
    let delta_offset = fields.offset_of(delta_key);
    let elapsed_offset = fields.offset_of(elapsed_key);
    proof {
        assert(strings.is_prefix_of(pool@));
        let s = schema.slots_spec();
        assert(pool@[s[0].key as int] == strings[s[0].key as int]);
        assert(pool@[s[1].key as int] == strings[s[1].key as int]);
        assert(pool@[key as int] == strings[key as int]);
    }
    (key, schema, delta_offset, elapsed_offset)
}

}
