use vstd::prelude::*;
use smallvec::SmallVec;
use crate::schema::{ComponentSchema, SchemaRegistry};

verus! {

/// Component ids in the order a query hands them to a script, held in a `SmallVec` as
/// the engine keeps them. Verus does not take a declaration of `SmallVec` itself, so the
/// vector sits in a field that Verus does not read; `id_items` names its contents.
#[verifier::external_body]
pub struct IdList {
    items: SmallVec<[usize; 8]>,
}

/// The items of the `SmallVec` of an id list, in order.
pub uninterp spec fn id_items(v: IdList) -> Seq<usize>;

/// Calls `SmallVec::new`, which holds no item.
#[verifier::external_body]
fn ids_new() -> (r: IdList)
    ensures
        id_items(r) == Seq::<usize>::empty(),
{
    IdList { items: SmallVec::new() }
}

/// Calls `SmallVec::push`, which appends the item. Like `Vec::push`, it panics when the
/// capacity cannot grow (capacity overflow or a failed allocation); that is not stated.
#[verifier::external_body]
fn ids_push(v: &mut IdList, id: usize)
    ensures
        id_items(*final(v)) == id_items(*old(v)).push(id),
{
    v.items.push(id)
}

/// Calls `SmallVec::as_slice`, whose items are those of the vector.
#[verifier::external_body]
fn ids_as_slice(v: &IdList) -> (r: &[usize])
    ensures
        r@ == id_items(*v),
{
    v.items.as_slice()
}

/// An entry of one of a query's lists, as the script gave it.
#[derive(Clone, Copy, Debug, PartialEq, Eq, Structural)]
pub enum QueryTerm {
    /// A component marker, by its index.
    Component(usize),
    /// Anything else.
    Invalid,
}

/// A query's lists held an entry that is not a component marker.
#[derive(Clone, Copy, Debug, PartialEq, Eq, Structural)]
pub struct QueryError;

/// What a script query asks for: the components an entity must have and must not have,
/// those written and those read, and the order in which the data components are handed
/// over (written ones, then read ones).
pub struct QueryPlan {
    with: Vec<usize>,
    without: Vec<usize>,
    writes: Vec<usize>,
    reads: Vec<usize>,
    order: IdList,
}

/// The component ids of a list of terms that are all components.
pub open spec fn term_ids(terms: Seq<QueryTerm>) -> Seq<usize> {
    terms.map_values(|t: QueryTerm| t->Component_0)
}

/// A query keeps every term of a list, in order: the ids are as many as the terms, and
/// the id at each position is the component that term names.
pub proof fn lemma_term_ids(terms: Seq<QueryTerm>)
    ensures
        term_ids(terms).len() == terms.len(),
        forall|i: int| 0 <= i < terms.len() ==> #[trigger] term_ids(terms)[i] == terms[i]->Component_0,
{
}

/// Every term is a component.
pub open spec fn all_components(terms: Seq<QueryTerm>) -> bool {
    forall|i: int| 0 <= i < terms.len() ==> #[trigger] terms[i] is Component
}

/// Collects the ids of a list of terms, stopping at the first that is not a component.
fn collect_ids(terms: &[QueryTerm]) -> (r: Result<Vec<usize>, QueryError>)
    ensures
        r is Ok <==> all_components(terms@),
        r matches Ok(ids) ==> ids@ == term_ids(terms@),
{
    let mut ids: Vec<usize> = Vec::new();
    let n = terms.len();
    let mut i: usize = 0;
    while i < n
        invariant
            n == terms@.len(),
            i <= n,
            all_components(terms@.subrange(0, i as int)),
            ids@ == term_ids(terms@.subrange(0, i as int)),
        decreases n - i,
    {
        match terms[i] {
            QueryTerm::Component(id) => {
                ids.push(id);
            },
            QueryTerm::Invalid => {
                return Err(QueryError);
            },
        }
        i = i + 1;
        proof {
            assert(terms@.subrange(0, i as int).drop_last() =~= terms@.subrange(0, i - 1));
            assert(term_ids(terms@.subrange(0, i as int)) =~= ids@);
            assert forall|j: int| 0 <= j < i implies #[trigger] terms@.subrange(0, i as int)[j] is Component by {
                if j < i - 1 {
                    assert(terms@.subrange(0, i as int)[j] == terms@.subrange(0, i - 1)[j]);
                }
            }
        }
    }
    proof {
        assert(terms@.subrange(0, n as int) =~= terms@);
    }
    Ok(ids)
}

impl QueryPlan {
    pub closed spec fn order_spec(&self) -> Seq<usize> {
        id_items(self.order)
    }

    pub closed spec fn with_spec(&self) -> Seq<usize> {
        self.with@
    }

    pub closed spec fn without_spec(&self) -> Seq<usize> {
        self.without@
    }

    pub closed spec fn writes_spec(&self) -> Seq<usize> {
        self.writes@
    }

    pub closed spec fn reads_spec(&self) -> Seq<usize> {
        self.reads@
    }

    /// The components an entity must have.
    pub fn with(&self) -> (r: &[usize])
        ensures
            r@ == self.with_spec(),
    {
        self.with.as_slice()
    }

    /// The components an entity must not have.
    pub fn without(&self) -> (r: &[usize])
        ensures
            r@ == self.without_spec(),
    {
        self.without.as_slice()
    }

    /// The components the query writes.
    pub fn writes(&self) -> (r: &[usize])
        ensures
            r@ == self.writes_spec(),
    {
        self.writes.as_slice()
    }

    /// The components the query reads.
    pub fn reads(&self) -> (r: &[usize])
        ensures
            r@ == self.reads_spec(),
    {
        self.reads.as_slice()
    }

    /// The data components in the order they are handed to the script.
    pub fn order(&self) -> (r: &[usize])
        ensures
            r@ == self.order_spec(),
    {
        ids_as_slice(&self.order)
    }

    /// Builds a query from its four lists, read in the order with, without, written,
    /// read; the first entry that is not a component marker refuses the query.
    pub fn build(
        with: &[QueryTerm],
        without: &[QueryTerm],
        writes: &[QueryTerm],
        reads: &[QueryTerm],
    ) -> (r: Result<QueryPlan, QueryError>)
        ensures
            r is Ok <==> all_components(with@) && all_components(without@) && all_components(
                writes@,
            ) && all_components(reads@),
            r matches Ok(plan) ==> {
                &&& plan.with_spec() == term_ids(with@)
                &&& plan.without_spec() == term_ids(without@)
                &&& plan.writes_spec() == term_ids(writes@)
                &&& plan.reads_spec() == term_ids(reads@)
                &&& plan.order_spec() == term_ids(writes@) + term_ids(reads@)
            },
    {
        let with_ids = collect_ids(with)?;
        let without_ids = collect_ids(without)?;
        let write_ids = collect_ids(writes)?;
        let read_ids = collect_ids(reads)?;
        let mut order = ids_new();
        let nw = write_ids.len();
        let mut i: usize = 0;
        while i < nw
            invariant
                nw == write_ids@.len(),
                i <= nw,
                id_items(order) == write_ids@.subrange(0, i as int),
            decreases nw - i,
        {
            ids_push(&mut order, write_ids[i]);
            i = i + 1;
            assert(id_items(order) =~= write_ids@.subrange(0, i as int));
        }
        let nr = read_ids.len();
        let mut j: usize = 0;
        while j < nr
            invariant
                nr == read_ids@.len(),
                nw == write_ids@.len(),
                j <= nr,
                id_items(order) == write_ids@ + read_ids@.subrange(0, j as int),
            decreases nr - j,
        {
            ids_push(&mut order, read_ids[j]);
            j = j + 1;
            assert(id_items(order) =~= write_ids@ + read_ids@.subrange(0, j as int));
        }
        proof {
            assert(write_ids@.subrange(0, nw as int) =~= write_ids@);
            assert(read_ids@.subrange(0, nr as int) =~= read_ids@);
        }
        Ok(QueryPlan { with: with_ids, without: without_ids, writes: write_ids, reads: read_ids, order })
    }
}

/// The number of fields a component has in a registry; none without a schema.
pub open spec fn field_count(m: Map<usize, ComponentSchema>, id: usize) -> int {
    if m.contains_key(id) {
        m[id].slots_spec().len() as int
    } else {
        0
    }
}

/// The number of fields of each component of `order`, as the registry records them.
pub fn field_counts(registry: &SchemaRegistry, order: &[usize]) -> (r: Vec<usize>)
    requires
        registry.wf(),
    ensures
        r@.len() == order@.len(),
        forall|i: int| 0 <= i < order@.len() ==> #[trigger] r@[i] == field_count(registry@, order@[i]),
{
    let mut r: Vec<usize> = Vec::new();
    let n = order.len();
    let mut i: usize = 0;
    while i < n
        invariant
            n == order@.len(),
            registry.wf(),
            i <= n,
            r@.len() == i,
            forall|j: int| 0 <= j < i ==> #[trigger] r@[j] == field_count(registry@, order@[j]),
        decreases n - i,
    {
        let fields = registry.get(order[i]);
        r.push(fields.len());
        i = i + 1;
    }
    r
}

/// The sum of the first `n` counts: where the fields of component `n` start in a row's
/// numbering of all its fields.
pub open spec fn sum_counts(counts: Seq<usize>, n: int) -> int
    decreases n,
{
    if n <= 0 {
        0
    } else {
        sum_counts(counts, n - 1) + counts[n - 1]
    }
}

proof fn lemma_sum_counts_monotone(counts: Seq<usize>, k: int, n: int)
    requires
        0 <= k <= n,
    ensures
        sum_counts(counts, k) <= sum_counts(counts, n),
    decreases n - k,
{
    if n > k {
        lemma_sum_counts_monotone(counts, k, n - 1);
    }
}

/// The fields of a row are numbered component after component: no field before the
/// first component, and component `n + 1` starts right after the `counts[n]` fields of
/// component `n`. So component `n` starts at `counts[0] + ... + counts[n - 1]`, the
/// plain sum of the counts before it.
pub proof fn lemma_sum_counts_is_sum(counts: Seq<usize>, n: int)
    requires
        0 <= n <= counts.len(),
    ensures
        sum_counts(counts, 0) == 0,
        n < counts.len() ==> sum_counts(counts, n + 1) == sum_counts(counts, n) + counts[n],
        sum_counts(counts, n) == counts.take(n).fold_left(0int, |acc: int, x: usize| acc + x),
    decreases n,
{
    if n > 0 {
        lemma_sum_counts_is_sum(counts, n - 1);
        assert(counts.take(n).drop_last() =~= counts.take(n - 1));
    } else {
        assert(counts.take(0) =~= Seq::<usize>::empty());
    }
}

/// The number of fields of all the components of a query row.
pub fn total_fields(counts: &[usize]) -> (r: usize)
    requires
        sum_counts(counts@, counts@.len() as int) <= usize::MAX,
    ensures
        r == sum_counts(counts@, counts@.len() as int),
{
    let n = counts.len();
    let mut total: usize = 0;
    let mut i: usize = 0;
    while i < n
        invariant
            n == counts@.len(),
            i <= n,
            total == sum_counts(counts@, i as int),
            sum_counts(counts@, n as int) <= usize::MAX,
        decreases n - i,
    {
        proof {
            lemma_sum_counts_monotone(counts@, i + 1, n as int);
        }
        total = total + counts[i];
        i = i + 1;
    }
    total
}

/// Declares `fixedbitset::FixedBitSet`, the set of a row's changed fields, to Verus as
/// an opaque type.
#[verifier::external_type_specification]
#[verifier::external_body]
pub struct ExFixedBitSet(fixedbitset::FixedBitSet);

/// The bits of a `fixedbitset::FixedBitSet`, in order: bit `i` at index `i`, as many as
/// the set's length.
pub uninterp spec fn bitset_bits(b: fixedbitset::FixedBitSet) -> Seq<bool>;

/// Calls `fixedbitset::FixedBitSet::contains`, which is `false` for a bit at or beyond
/// the set's length and otherwise whether the bit is set.
#[verifier::external_body]
fn bitset_contains(b: &fixedbitset::FixedBitSet, bit: usize) -> (r: bool)
    ensures
        r == (bit < bitset_bits(*b).len() && bitset_bits(*b)[bit as int]),
{
    b.contains(bit)
}

/// Whether field `g` of a row is marked changed; marks beyond the end read as unchanged.
pub open spec fn is_dirty(dirty: Seq<bool>, g: int) -> bool {
    0 <= g < dirty.len() && dirty[g]
}

/// The changed fields among the first `f` fields of a component whose fields start at
/// `base` in the row's numbering.
pub open spec fn dirty_among(dirty: Seq<bool>, base: int, f: int) -> Seq<usize>
    decreases f,
{
    if f <= 0 {
        Seq::empty()
    } else {
        let prev = dirty_among(dirty, base, f - 1);
        if is_dirty(dirty, base + f - 1) {
            prev.push((f - 1) as usize)
        } else {
            prev
        }
    }
}

/// For the first `n` components of a row, those with a changed field, each with its
/// changed fields in order.
pub open spec fn dirty_plan_spec(counts: Seq<usize>, dirty: Seq<bool>, n: int) -> Seq<(usize, Seq<usize>)>
    decreases n,
{
    if n <= 0 {
        Seq::empty()
    } else {
        let prev = dirty_plan_spec(counts, dirty, n - 1);
        let fields = dirty_among(dirty, sum_counts(counts, n - 1), counts[n - 1] as int);
        if fields.len() > 0 {
            prev.push(((n - 1) as usize, fields))
        } else {
            prev
        }
    }
}

/// The view of a write-back plan.
pub open spec fn plan_view(plan: Seq<(usize, Vec<usize>)>) -> Seq<(usize, Seq<usize>)> {
    plan.map_values(|p: (usize, Vec<usize>)| (p.0, p.1@))
}

/// Which fields of a query row to write back: the components (by position in the query's
/// order) that have a changed field, each with the indices of its changed fields.
/// Components without a changed field are left out, so they are not touched.
pub fn dirty_plan(counts: &[usize], dirty: &fixedbitset::FixedBitSet) -> (r: Vec<(usize, Vec<usize>)>)
    requires
        sum_counts(counts@, counts@.len() as int) <= usize::MAX,
    ensures
        plan_view(r@) == dirty_plan_spec(counts@, bitset_bits(*dirty), counts@.len() as int),
{
    let ghost marks = bitset_bits(*dirty);
    let n = counts.len();
    let mut plan: Vec<(usize, Vec<usize>)> = Vec::new();
    let mut base: usize = 0;
    let mut c: usize = 0;
    while c < n
        invariant
            n == counts@.len(),
            c <= n,
            base == sum_counts(counts@, c as int),
            sum_counts(counts@, n as int) <= usize::MAX,
            marks == bitset_bits(*dirty),
            plan_view(plan@) == dirty_plan_spec(counts@, marks, c as int),
        decreases n - c,
    {
        proof {
            lemma_sum_counts_monotone(counts@, c + 1, n as int);
        }
        let count = counts[c];
        let mut fields: Vec<usize> = Vec::new();
        let mut f: usize = 0;
        while f < count
            invariant
                f <= count,
                base + count <= usize::MAX,
                marks == bitset_bits(*dirty),
                fields@ == dirty_among(marks, base as int, f as int),
            decreases count - f,
        {
            let g = base + f;
            if bitset_contains(dirty, g) {
                fields.push(f);
            }
            f = f + 1;
        }
        let ghost before = plan@;
        if fields.len() > 0 {
            plan.push((c, fields));
            proof {
                assert(plan_view(plan@) =~= plan_view(before).push((c, dirty_among(marks, base as int, count as int))));
            }
        }
        base = base + count;
        c = c + 1;
    }
    plan
}

/// A component's changed fields are exactly the indices, below its field count, whose
/// mark is set.
pub proof fn lemma_dirty_among(dirty: Seq<bool>, base: int, m: int, x: usize)
    requires
        m <= usize::MAX,
    ensures
        dirty_among(dirty, base, m).contains(x) <==> x < m && is_dirty(dirty, base + x),
    decreases m,
{
    if m > 0 {
        lemma_dirty_among(dirty, base, m - 1, x);
        let prev = dirty_among(dirty, base, m - 1);
        if is_dirty(dirty, base + m - 1) {
            let next = prev.push((m - 1) as usize);
            if x == m - 1 {
                assert(next[prev.len() as int] == x);
            }
            if next.contains(x) {
                let k = choose|k: int| 0 <= k < next.len() && next[k] == x;
                if k < prev.len() {
                    assert(prev[k] == x);
                }
            }
            if prev.contains(x) {
                let k = choose|k: int| 0 <= k < prev.len() && prev[k] == x;
                assert(next[k] == x);
            }
        }
    }
}

/// A write-back plan is read off the plain numbering of a row's fields: field `f` of the
/// component at position `c` is written back if and only if `f` is below that
/// component's count and the mark at `counts[0] + ... + counts[c - 1] + f` is set.
pub proof fn lemma_dirty_plan_numbering(counts: Seq<usize>, dirty: Seq<bool>, c: usize, f: usize)
    requires
        counts.len() <= usize::MAX,
    ensures
        (exists|k: int|
            0 <= k < dirty_plan_spec(counts, dirty, counts.len() as int).len()
                && #[trigger] dirty_plan_spec(counts, dirty, counts.len() as int)[k].0 == c
                && dirty_plan_spec(counts, dirty, counts.len() as int)[k].1.contains(f)) <==> (c
            < counts.len() && f < counts[c as int] && is_dirty(
            dirty,
            counts.take(c as int).fold_left(0int, |acc: int, x: usize| acc + x) + f,
        )),
{
    lemma_dirty_plan_exact(counts, dirty, counts.len() as int, c, f);
    if c < counts.len() {
        lemma_sum_counts_is_sum(counts, c as int);
    }
}

/// A write-back plan names exactly the changed fields: field `f` of the component at
/// position `c` is written back if and only if it exists and its mark is set; each
/// component appears at most once.
pub proof fn lemma_dirty_plan_exact(counts: Seq<usize>, dirty: Seq<bool>, n: int, c: usize, f: usize)
    requires
        0 <= n <= counts.len(),
        counts.len() <= usize::MAX,
    ensures
        (exists|k: int|
            0 <= k < dirty_plan_spec(counts, dirty, n).len() && #[trigger] dirty_plan_spec(counts, dirty, n)[k].0
                == c && dirty_plan_spec(counts, dirty, n)[k].1.contains(f)) <==> (c < n && f
            < counts[c as int] && is_dirty(dirty, sum_counts(counts, c as int) + f)),
        forall|k: int|
            0 <= k < dirty_plan_spec(counts, dirty, n).len() ==> #[trigger] dirty_plan_spec(counts, dirty, n)[k].0 < n,
        forall|k1: int, k2: int|
            0 <= k1 < k2 < dirty_plan_spec(counts, dirty, n).len() ==> #[trigger] dirty_plan_spec(counts, dirty, n)[k1].0
                < #[trigger] dirty_plan_spec(counts, dirty, n)[k2].0,
    decreases n,
{
    if n > 0 {
        lemma_dirty_plan_exact(counts, dirty, n - 1, c, f);
        let prev = dirty_plan_spec(counts, dirty, n - 1);
        let cur = dirty_plan_spec(counts, dirty, n);
        let base = sum_counts(counts, n - 1);
        let fields = dirty_among(dirty, base, counts[n - 1] as int);
        lemma_dirty_among(dirty, base, counts[n - 1] as int, f);
        let lhs_prev = exists|k: int| 0 <= k < prev.len() && #[trigger] prev[k].0 == c && prev[k].1.contains(f);
        let lhs_cur = exists|k: int| 0 <= k < cur.len() && #[trigger] cur[k].0 == c && cur[k].1.contains(f);
        if fields.len() > 0 {
            let last = ((n - 1) as usize, fields);
            assert(cur == prev.push(last));
            assert(cur[prev.len() as int] == last);
            assert forall|k: int| 0 <= k < prev.len() implies cur[k] == #[trigger] prev[k] by {}
            assert forall|k1: int, k2: int|
                0 <= k1 < k2 < cur.len() implies #[trigger] cur[k1].0 < #[trigger] cur[k2].0 by {
                assert(cur[k1] == prev[k1]);
                if k2 < prev.len() {
                    assert(cur[k2] == prev[k2]);
                }
            }
            assert forall|k: int| 0 <= k < cur.len() implies #[trigger] cur[k].0 < n by {
                if k < prev.len() {
                    assert(cur[k] == prev[k]);
                }
            }
            if lhs_cur {
                let k = choose|k: int| 0 <= k < cur.len() && #[trigger] cur[k].0 == c && cur[k].1.contains(f);
                if k < prev.len() {
                    assert(prev[k] == cur[k]);
                    assert(lhs_prev);
                }
            }
            if c < n && f < counts[c as int] && is_dirty(dirty, sum_counts(counts, c as int) + f) {
                if c == n - 1 {
                    assert(cur[prev.len() as int].0 == c && cur[prev.len() as int].1.contains(f));
                } else {
                    assert(lhs_prev);
                    let k = choose|k: int| 0 <= k < prev.len() && #[trigger] prev[k].0 == c && prev[k].1.contains(f);
                    assert(cur[k] == prev[k]);
                }
            }
        } else {
            assert(cur == prev);
            if c == n - 1 {
                assert(!lhs_prev);
                assert(!(f < counts[c as int] && is_dirty(dirty, sum_counts(counts, c as int) + f)));
            }
        }
    }
}

}
