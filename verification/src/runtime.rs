use vstd::prelude::*;
use smallvec::SmallVec;
use crate::layout::FieldLayout;
use crate::query::QueryPlan;
use crate::schema::{ComponentSchema, SchemaRegistry};

verus! {

/// How the engine stores a component.
#[derive(Clone, Copy, Debug, PartialEq, Eq, Structural)]
pub enum StorageKind {
    Table,
    SparseSet,
}

/// The storage a script asks for in a component's configuration: `"Table"` asks for
/// table storage; anything else, or nothing, gives sparse-set storage.
pub fn storage_from_config(config: Option<&str>) -> (r: StorageKind)
    ensures
        r == (if config matches Some(s) && s@ == "Table"@ {
            StorageKind::Table
        } else {
            StorageKind::SparseSet
        }),
{
    match config {
        Some(s) => {
            let given = s.to_owned();
            let table = "Table".to_owned();
            if given == table {
                StorageKind::Table
            } else {
                StorageKind::SparseSet
            }
        },
        None => StorageKind::SparseSet,
    }
}

/// A component declared by a script: waiting to be registered with the engine, or
/// registered under a component id.
pub enum ComponentSlot {
    Pending { schema: ComponentSchema, storage: StorageKind },
    Built(usize),
}

/// A query declared by a script: waiting to be built, or built and held by an entity
/// (given by its bits).
pub enum QuerySlot {
    Pending(QueryPlan),
    Built(u64),
}

/// The components a script declared, held in a `SmallVec` as the engine keeps them.
/// Verus does not take a declaration of `SmallVec` itself, so the vector sits in a field
/// that Verus does not read; `component_items` names its contents.
#[verifier::external_body]
pub struct ComponentList {
    items: SmallVec<[ComponentSlot; 8]>,
}

/// The items of the `SmallVec` of a component list, in order.
pub uninterp spec fn component_items(v: ComponentList) -> Seq<ComponentSlot>;

/// Calls `SmallVec::new`, which holds no item.
#[verifier::external_body]
fn components_new() -> (r: ComponentList)
    ensures
        component_items(r) == Seq::<ComponentSlot>::empty(),
{
    ComponentList { items: SmallVec::new() }
}

/// Calls `SmallVec::push`, which appends the item. Like `Vec::push`, it panics when the
/// capacity cannot grow (capacity overflow or a failed allocation); that is not stated.
#[verifier::external_body]
fn components_push(v: &mut ComponentList, slot: ComponentSlot)
    ensures
        component_items(*final(v)) == component_items(*old(v)).push(slot),
{
    v.items.push(slot)
}

/// Calls `SmallVec::as_slice`, whose items are those of the vector.
#[verifier::external_body]
fn components_as_slice(v: &ComponentList) -> (r: &[ComponentSlot])
    ensures
        r@ == component_items(*v),
{
    v.items.as_slice()
}

/// Calls `std::mem::replace` on the item at `index` of the `SmallVec`, reached through
/// its `IndexMut`: the item is handed back and `slot` takes its place. Indexing panics
/// for an index out of range, which `requires` leaves out.
#[verifier::external_body]
fn components_replace(v: &mut ComponentList, index: usize, slot: ComponentSlot) -> (r: ComponentSlot)
    requires
        index < component_items(*old(v)).len(),
    ensures
        r == component_items(*old(v))[index as int],
        component_items(*final(v)) == component_items(*old(v)).update(index as int, slot),
{
    std::mem::replace(&mut v.items[index], slot)
}

/// The queries a script declared, held in a `SmallVec` as the engine keeps them, like
/// the components; `query_items` names its contents.
#[verifier::external_body]
pub struct QueryList {
    items: SmallVec<[QuerySlot; 8]>,
}

/// The items of the `SmallVec` of a query list, in order.
pub uninterp spec fn query_items(v: QueryList) -> Seq<QuerySlot>;

/// Calls `SmallVec::new`, which holds no item.
#[verifier::external_body]
fn queries_new() -> (r: QueryList)
    ensures
        query_items(r) == Seq::<QuerySlot>::empty(),
{
    QueryList { items: SmallVec::new() }
}

/// Calls `SmallVec::push`, which appends the item. Like `Vec::push`, it panics when the
/// capacity cannot grow (capacity overflow or a failed allocation); that is not stated.
#[verifier::external_body]
fn queries_push(v: &mut QueryList, slot: QuerySlot)
    ensures
        query_items(*final(v)) == query_items(*old(v)).push(slot),
{
    v.items.push(slot)
}

/// Calls `SmallVec::as_slice`, whose items are those of the vector.
#[verifier::external_body]
fn queries_as_slice(v: &QueryList) -> (r: &[QuerySlot])
    ensures
        r@ == query_items(*v),
{
    v.items.as_slice()
}

/// Calls `std::mem::replace` on the item at `index` of the `SmallVec`, reached through
/// its `IndexMut`: the item is handed back and `slot` takes its place. Indexing panics
/// for an index out of range, which `requires` leaves out.
#[verifier::external_body]
fn queries_replace(v: &mut QueryList, index: usize, slot: QuerySlot) -> (r: QuerySlot)
    requires
        index < query_items(*old(v)).len(),
    ensures
        r == query_items(*old(v))[index as int],
        query_items(*final(v)) == query_items(*old(v)).update(index as int, slot),
{
    std::mem::replace(&mut v.items[index], slot)
}

/// A marker handed to a script does not name a usable slot.
#[derive(Clone, Copy, Debug, PartialEq, Eq, Structural)]
pub enum MarkerError {
    /// No slot has this index.
    Unknown,
    /// The slot has not been registered with the engine yet.
    NotBuilt,
}

/// What a script declared while it ran: its components and queries, each named to the
/// script by its index here.
pub struct RuntimeState {
    components: ComponentList,
    queries: QueryList,
}

impl RuntimeState {
    pub closed spec fn components_spec(&self) -> Seq<ComponentSlot> {
        component_items(self.components)
    }

    pub closed spec fn queries_spec(&self) -> Seq<QuerySlot> {
        query_items(self.queries)
    }

    /// Every pending component has a well-formed schema.
    pub open spec fn wf(&self) -> bool {
        forall|i: int|
            0 <= i < self.components_spec().len() ==> (#[trigger] self.components_spec()[i] matches ComponentSlot::Pending {
                schema,
                ..
            } ==> schema.wf())
    }

    /// Nothing declared yet.
    pub fn new() -> (r: RuntimeState)
        ensures
            r.components_spec().len() == 0,
            r.queries_spec().len() == 0,
            r.wf(),
    {
        RuntimeState { components: components_new(), queries: queries_new() }
    }

    /// The number of components declared.
    pub fn component_count(&self) -> (r: usize)
        ensures
            r == self.components_spec().len(),
    {
        components_as_slice(&self.components).len()
    }

    /// The number of queries declared.
    pub fn query_count(&self) -> (r: usize)
        ensures
            r == self.queries_spec().len(),
    {
        queries_as_slice(&self.queries).len()
    }

    /// Declares a component; its marker is the index returned.
    pub fn register_component(&mut self, schema: ComponentSchema, storage: StorageKind) -> (r: usize)
        requires
            old(self).wf(),
            schema.wf(),
        ensures
            final(self).wf(),
            r == old(self).components_spec().len(),
            final(self).components_spec() == old(self).components_spec().push(
                ComponentSlot::Pending { schema, storage },
            ),
            final(self).queries_spec() == old(self).queries_spec(),
    {
        let r = components_as_slice(&self.components).len();
        components_push(&mut self.components, ComponentSlot::Pending { schema, storage });
        r
    }

    /// Declares a query; its marker is the index returned.
    pub fn register_query(&mut self, plan: QueryPlan) -> (r: usize)
        ensures
            r == old(self).queries_spec().len(),
            final(self).queries_spec() == old(self).queries_spec().push(QuerySlot::Pending(plan)),
            final(self).components_spec() == old(self).components_spec(),
    {
        let r = queries_as_slice(&self.queries).len();
        queries_push(&mut self.queries, QuerySlot::Pending(plan));
        r
    }

    /// The component id behind a component marker: unknown beyond the declared
    /// components, not built while the component waits to be registered.
    pub open spec fn component_id_spec(&self, marker: usize) -> Result<usize, MarkerError> {
        if marker >= self.components_spec().len() {
            Err(MarkerError::Unknown)
        } else {
            match self.components_spec()[marker as int] {
                ComponentSlot::Built(id) => Ok(id),
                ComponentSlot::Pending { .. } => Err(MarkerError::NotBuilt),
            }
        }
    }

    /// The component id behind a component marker.
    pub fn component_id(&self, marker: usize) -> (r: Result<usize, MarkerError>)
        ensures
            r == self.component_id_spec(marker),
    {
        let components = components_as_slice(&self.components);
        if marker >= components.len() {
            return Err(MarkerError::Unknown);
        }
        match &components[marker] {
            ComponentSlot::Built(id) => Ok(*id),
            ComponentSlot::Pending { .. } => Err(MarkerError::NotBuilt),
        }
    }

    /// The entity that holds a built query.
    pub fn query_entity(&self, marker: usize) -> (r: Result<u64, MarkerError>)
        ensures
            marker >= self.queries_spec().len() ==> r == Err::<u64, MarkerError>(MarkerError::Unknown),
            marker < self.queries_spec().len() ==> match self.queries_spec()[marker as int] {
                QuerySlot::Built(e) => r == Ok::<u64, MarkerError>(e),
                QuerySlot::Pending(_) => r == Err::<u64, MarkerError>(MarkerError::NotBuilt),
            },
    {
        let queries = queries_as_slice(&self.queries);
        if marker >= queries.len() {
            return Err(MarkerError::Unknown);
        }
        match &queries[marker] {
            QuerySlot::Built(e) => Ok(*e),
            QuerySlot::Pending(_) => Err(MarkerError::NotBuilt),
        }
    }

    /// The first component still waiting to be registered, with the layout and storage
    /// the engine needs to register it.
    pub fn next_pending_component(&self) -> (r: Option<(usize, FieldLayout, StorageKind)>)
        requires
            self.wf(),
        ensures
            match r {
                Some((i, layout, storage)) => {
                    &&& i < self.components_spec().len()
                    &&& self.components_spec()[i as int] matches ComponentSlot::Pending { schema, storage: s }
                        && layout == schema.layout_spec() && storage == s
                    &&& layout.wf()
                    &&& forall|j: int| 0 <= j < i ==> #[trigger] self.components_spec()[j] is Built
                },
                None => forall|j: int|
                    0 <= j < self.components_spec().len() ==> #[trigger] self.components_spec()[j] is Built,
            },
    {
        let components = components_as_slice(&self.components);
        let n = components.len();
        let mut i: usize = 0;
        while i < n
            invariant
                n == self.components_spec().len(),
                components@ == self.components_spec(),
                self.wf(),
                i <= n,
                forall|j: int| 0 <= j < i ==> #[trigger] self.components_spec()[j] is Built,
            decreases n - i,
        {
            match &components[i] {
                ComponentSlot::Pending { schema, storage } => {
                    proof {
                        assert(self.components_spec()[i as int] matches ComponentSlot::Pending { schema: s, .. } && s.wf());
                    }
                    return Some((i, schema.layout(), *storage));
                },
                ComponentSlot::Built(_) => {},
            }
            i = i + 1;
        }
        None
    }

    /// Records that the pending component at `index` was registered under `id`: its
    /// schema moves into the registry under that id, and the slot is built. Other slots
    /// are unchanged.
    pub fn complete_component(&mut self, index: usize, id: usize, registry: &mut SchemaRegistry)
        requires
            old(self).wf(),
            old(registry).wf(),
            index < old(self).components_spec().len(),
            old(self).components_spec()[index as int] is Pending,
        ensures
            final(self).wf(),
            final(registry).wf(),
            final(self).components_spec() == old(self).components_spec().update(
                index as int,
                ComponentSlot::Built(id),
            ),
            final(self).queries_spec() == old(self).queries_spec(),
            old(self).components_spec()[index as int] matches ComponentSlot::Pending { schema, .. }
                && final(registry)@ == old(registry)@.insert(id, schema),
    {
        let ghost before = self.components_spec();
        let taken = components_replace(&mut self.components, index, ComponentSlot::Built(id));
        proof {
            assert(self.components_spec() =~= before.update(index as int, ComponentSlot::Built(id)));
            assert forall|i: int| 0 <= i < self.components_spec().len() implies (#[trigger] self.components_spec()[i] matches ComponentSlot::Pending {
                schema,
                ..
            } ==> schema.wf()) by {
                if i != index {
                    assert(self.components_spec()[i] == before[i]);
                }
            }
        }
        match taken {
            ComponentSlot::Pending { schema, .. } => {
                registry.insert(id, schema);
            },
            ComponentSlot::Built(_) => {},
        }
    }

    /// The first query still waiting to be built.
    pub fn next_pending_query(&self) -> (r: Option<usize>)
        ensures
            match r {
                Some(i) => i < self.queries_spec().len() && self.queries_spec()[i as int] is Pending
                    && forall|j: int| 0 <= j < i ==> #[trigger] self.queries_spec()[j] is Built,
                None => forall|j: int|
                    0 <= j < self.queries_spec().len() ==> #[trigger] self.queries_spec()[j] is Built,
            },
    {
        let queries = queries_as_slice(&self.queries);
        let n = queries.len();
        let mut i: usize = 0;
        while i < n
            invariant
                n == self.queries_spec().len(),
                queries@ == self.queries_spec(),
                i <= n,
                forall|j: int| 0 <= j < i ==> #[trigger] self.queries_spec()[j] is Built,
            decreases n - i,
        {
            match &queries[i] {
                QuerySlot::Pending(_) => {
                    return Some(i);
                },
                QuerySlot::Built(_) => {},
            }
            i = i + 1;
        }
        None
    }

    /// Records that the pending query at `index` was built and is held by `entity`; its
    /// plan is handed back. Other slots are unchanged.
    pub fn complete_query(&mut self, index: usize, entity: u64) -> (r: Option<QueryPlan>)
        requires
            index < old(self).queries_spec().len(),
        ensures
            final(self).queries_spec() == old(self).queries_spec().update(
                index as int,
                QuerySlot::Built(entity),
            ),
            final(self).components_spec() == old(self).components_spec(),
            match old(self).queries_spec()[index as int] {
                QuerySlot::Pending(plan) => r == Some(plan),
                QuerySlot::Built(_) => r is None,
            },
    {
        let ghost before = self.queries_spec();
        let taken = queries_replace(&mut self.queries, index, QuerySlot::Built(entity));
        proof {
            assert(self.queries_spec() =~= before.update(index as int, QuerySlot::Built(entity)));
        }
        match taken {
            QuerySlot::Pending(plan) => Some(plan),
            QuerySlot::Built(_) => None,
        }
    }
}

/// A marker resolves to its own slot: a built slot gives the id it was built under, a
/// pending one is not built yet, and a marker past the declared components is unknown.
pub proof fn lemma_marker_resolves(state: RuntimeState, marker: usize)
    ensures
        marker >= state.components_spec().len() ==> state.component_id_spec(marker) == Err::<
            usize,
            MarkerError,
        >(MarkerError::Unknown),
        marker < state.components_spec().len() ==> match state.components_spec()[marker as int] {
            ComponentSlot::Built(id) => state.component_id_spec(marker) == Ok::<usize, MarkerError>(id),
            ComponentSlot::Pending { .. } => state.component_id_spec(marker) == Err::<
                usize,
                MarkerError,
            >(MarkerError::NotBuilt),
        },
{
}

/// The marker that declaring a component hands out resolves, once that component is
/// registered under `id`, to `id`; markers handed out before it resolve as they did.
/// `s0` is the state before the declaration, `s1` after it (the slot pushed, as
/// `register_component` does) and `s2` after the slot at `marker` is built (as
/// `complete_component` does).
pub proof fn lemma_registered_marker_resolves(
    s0: RuntimeState,
    s1: RuntimeState,
    s2: RuntimeState,
    marker: usize,
    slot: ComponentSlot,
    id: usize,
)
    requires
        marker == s0.components_spec().len(),
        s1.components_spec() == s0.components_spec().push(slot),
        s2.components_spec() == s1.components_spec().update(marker as int, ComponentSlot::Built(id)),
    ensures
        s2.component_id_spec(marker) == Ok::<usize, MarkerError>(id),
        forall|m: usize| m < marker ==> #[trigger] s2.component_id_spec(m) == s0.component_id_spec(m),
{
    assert forall|m: usize| m < marker implies #[trigger] s2.component_id_spec(m) == s0.component_id_spec(m) by {
        assert(s2.components_spec()[m as int] == s0.components_spec()[m as int]);
    }
}

/// Declaring components hands out markers in order: the new marker is the old number of
/// slots, its slot is the one pushed, and every earlier marker keeps its slot.
pub proof fn lemma_register_keeps_markers(
    before: Seq<ComponentSlot>,
    after: Seq<ComponentSlot>,
    marker: int,
    slot: ComponentSlot,
)
    requires
        marker == before.len(),
        after == before.push(slot),
    ensures
        after.len() == before.len() + 1,
        after[marker] == slot,
        forall|i: int| 0 <= i < before.len() ==> #[trigger] after[i] == before[i],
{
}

}
