use vstd::prelude::*;
use crate::fields::{decode, field_bytes, represents, FieldModel, FieldValue};
use crate::pool::EngineStringPool;
use crate::schema::{
    first_rejected, lemma_read_back_instantiated, strings_after_all, strings_held, write_slots,
    ComponentSchema, SchemaRegistry,
};
use crate::types::{FieldError, ScriptValue};

verus! {

/// Builds and reads the bytes of components declared from scripts.
pub struct DynamicComponentBridge;

impl DynamicComponentBridge {
    /// The bytes of a component to insert from the values a script gave for its fields
    /// (one per slot, in slot order; nil where the script gave none): the default with
    /// each value written over it. The component must have a schema.
    pub fn insert_from_table(
        registry: &SchemaRegistry,
        component_id: usize,
        values: &[ScriptValue],
        pool: &mut EngineStringPool,
    ) -> (r: Result<Vec<u8>, FieldError>)
        requires
            registry.wf(),
            registry@.contains_key(component_id),
            values@.len() == registry@[component_id].slots_spec().len(),
            old(pool).wf(),
            old(pool)@.len() + values@.len() <= u32::MAX,
        ensures
            final(pool).wf(),
            old(pool)@.is_prefix_of(final(pool)@),
            ({
                let schema = registry@[component_id];
                match first_rejected(schema.slots_spec(), values@, values@.len() as int) {
                    Some(i) => r == Err::<Vec<u8>, FieldError>(
                        FieldError::Mismatch {
                            expected: schema.slots_spec()[i].ty,
                            got: values@[i].kind_spec(),
                        },
                    ),
                    None => r matches Ok(data) && {
                        &&& final(pool)@ == strings_after_all(values@, old(pool)@, values@.len() as int)
                        &&& strings_held(values@, final(pool)@, values@.len() as int)
                        &&& data@ == write_slots(
                            schema.template_spec(),
                            schema.slots_spec(),
                            values@,
                            final(pool)@,
                            values@.len() as int,
                        )
                    },
                }
            }),
    {
        let schema = registry.schema(component_id).unwrap();
        schema.instantiate(values, pool)
    }

    /// The bytes of a component to insert with its default value. The component must
    /// have a schema.
    pub fn insert_default(registry: &SchemaRegistry, component_id: usize) -> (r: Vec<u8>)
        requires
            registry.wf(),
            registry@.contains_key(component_id),
        ensures
            r@ == registry@[component_id].template_spec(),
    {
        let schema = registry.schema(component_id).unwrap();
        vstd::slice::slice_to_vec(schema.default_template())
    }

    /// The fields of a component, each key with its value; nothing for a component
    /// without a schema or an entity without the component.
    pub fn extract_to_table(
        registry: &SchemaRegistry,
        component_id: usize,
        data: Option<&[u8]>,
    ) -> (r: Option<Vec<(usize, FieldValue)>>)
        requires
            registry.wf(),
            registry@.contains_key(component_id) && data is Some ==> data->Some_0@.len()
                == registry@[component_id].layout_spec().size_spec(),
        ensures
            r is Some <==> registry@.contains_key(component_id) && data is Some,
            r matches Some(fields) ==> {
                let schema = registry@[component_id];
                let bytes = data->Some_0@;
                &&& fields@.len() == schema.slots_spec().len()
                &&& forall|i: int|
                    0 <= i < fields@.len() ==> (#[trigger] fields@[i]).0 == schema.slots_spec()[i].key
                        && fields@[i].1@ == decode(
                        schema.slots_spec()[i].ty,
                        field_bytes(bytes, schema.slots_spec()[i].offset as int, schema.slots_spec()[i].ty),
                    )
            },
    {
        let schema = match registry.schema(component_id) {
            Some(s) => s,
            None => {
                return None;
            },
        };
        match data {
            Some(bytes) => Some(schema.extract(bytes)),
            None => None,
        }
    }
}

/// Extracting a component right after inserting it from a table gives back, field by
/// field under the schema's keys, each value the table gave (a string by its key among
/// the interned strings), and the default where the table gave nil.
pub proof fn lemma_insert_then_extract(
    schema: ComponentSchema,
    values: Seq<ScriptValue>,
    strings: Seq<Seq<char>>,
    data: Seq<u8>,
    read: Seq<(usize, FieldModel)>,
)
    requires
        schema.wf(),
        values.len() == schema.slots_spec().len(),
        first_rejected(schema.slots_spec(), values, values.len() as int) is None,
        strings.no_duplicates(),
        strings.len() <= u32::MAX,
        strings_held(values, strings, values.len() as int),
        data == write_slots(
            schema.template_spec(),
            schema.slots_spec(),
            values,
            strings,
            values.len() as int,
        ),
        read.len() == schema.slots_spec().len(),
        forall|i: int|
            0 <= i < read.len() ==> (#[trigger] read[i]).0 == schema.slots_spec()[i].key && read[i].1
                == decode(
                schema.slots_spec()[i].ty,
                field_bytes(data, schema.slots_spec()[i].offset as int, schema.slots_spec()[i].ty),
            ),
    ensures
        forall|i: int|
            0 <= i < read.len() ==> {
                &&& (#[trigger] read[i]).0 == schema.slots_spec()[i].key
                &&& values[i] is Nil ==> read[i].1 == decode(
                    schema.slots_spec()[i].ty,
                    field_bytes(
                        schema.template_spec(),
                        schema.slots_spec()[i].offset as int,
                        schema.slots_spec()[i].ty,
                    ),
                )
                &&& !(values[i] is Nil) ==> represents(read[i].1, values[i], strings)
            },
{
    assert forall|i: int| 0 <= i < read.len() implies {
        &&& (#[trigger] read[i]).0 == schema.slots_spec()[i].key
        &&& values[i] is Nil ==> read[i].1 == decode(
            schema.slots_spec()[i].ty,
            field_bytes(
                schema.template_spec(),
                schema.slots_spec()[i].offset as int,
                schema.slots_spec()[i].ty,
            ),
        )
        &&& !(values[i] is Nil) ==> represents(read[i].1, values[i], strings)
    } by {
        lemma_read_back_instantiated(
            schema.template_spec(),
            schema.slots_spec(),
            values,
            strings,
            i,
        );
    }
}

}
