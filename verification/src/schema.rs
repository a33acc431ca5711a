use vstd::prelude::*;
use smallvec::SmallVec;
use crate::layout::{
    lemma_round_up, max_usize, round_up, valid_layout, FieldLayout, LayoutError,
};
use crate::types::{
    field_align, field_size, field_type_fits, inferred_type, infer_field_type, FieldError,
    LuauFieldType, ScriptValue,
};
use crate::fields::{
    accepts, decode, encode, field_bytes, lemma_decode_encode, lemma_splice, model_type, read_field,
    splice, stored_model, strings_after, write_field, FieldValue,
};
use crate::pool::EngineStringPool;

verus! {

/// The slots of a component, held in a `SmallVec` as the engine keeps them. Verus does
/// not take a declaration of `SmallVec` itself (its `Array` bound is refused), so the
/// vector sits in a field that Verus does not read; `slot_items` names its contents.
#[verifier::external_body]
pub struct SlotList {
    items: SmallVec<[FieldSlot; 6]>,
}

/// One field of a component: the key of its name in the string pool, where it starts in
/// the component's bytes, and its type.
#[derive(Clone, Copy, Debug, PartialEq, Eq, Structural)]
pub struct FieldSlot {
    pub key: usize,
    pub offset: usize,
    pub ty: LuauFieldType,
}

/// The items of the `SmallVec` of a slot list, in order.
pub uninterp spec fn slot_items(v: SlotList) -> Seq<FieldSlot>;

/// Calls `SmallVec::new`, which holds no item.
#[verifier::external_body]
fn slots_new() -> (r: SlotList)
    ensures
        slot_items(r) == Seq::<FieldSlot>::empty(),
{
    SlotList { items: SmallVec::new() }
}

/// Calls `SmallVec::push`, which appends the item. Like `Vec::push`, it panics when the
/// capacity cannot grow (capacity overflow or a failed allocation); that is not stated.
#[verifier::external_body]
fn slots_push(v: &mut SlotList, slot: FieldSlot)
    ensures
        slot_items(*final(v)) == slot_items(*old(v)).push(slot),
{
    v.items.push(slot)
}

/// Calls `SmallVec::as_slice`, whose items are those of the vector.
#[verifier::external_body]
fn slots_as_slice(v: &SlotList) -> (r: &[FieldSlot])
    ensures
        r@ == slot_items(*v),
{
    v.items.as_slice()
}

impl SlotList {
    /// The slots, in order.
    pub fn items(&self) -> (r: &[FieldSlot])
        ensures
            r@ == slot_items(*self),
    {
        slots_as_slice(self)
    }
}

/// The types of a list of (key, type) pairs.
pub open spec fn types_of(fields: Seq<(usize, LuauFieldType)>) -> Seq<LuauFieldType> {
    fields.map_values(|f: (usize, LuauFieldType)| f.1)
}

/// Lays fields out one after the other, each at the first offset that is a multiple of
/// its alignment, as `Layout::extend` does from an empty layout: the size and alignment
/// before trailing padding, and the offsets. `None` when a layout would be invalid.
pub open spec fn fold_layout(types: Seq<LuauFieldType>) -> Option<(int, usize, Seq<int>)>
    decreases types.len(),
{
    if types.len() == 0 {
        Some((0, 1, Seq::empty()))
    } else {
        match fold_layout(types.drop_last()) {
            None => None,
            Some((size, align, offsets)) => {
                let t = types.last();
                let offset = round_up(size, field_align(t) as int);
                let new_size = offset + field_size(t);
                let new_align = max_usize(align, field_align(t));
                if field_type_fits(t) && valid_layout(new_size, new_align) {
                    Some((new_size, new_align, offsets.push(offset)))
                } else {
                    None
                }
            },
        }
    }
}

/// The slots laid out for `fields` at `offsets`.
pub open spec fn slots_at(fields: Seq<(usize, LuauFieldType)>, offsets: Seq<int>) -> Seq<FieldSlot> {
    Seq::new(
        fields.len(),
        |i: int| FieldSlot { key: fields[i].0, offset: offsets[i] as usize, ty: fields[i].1 },
    )
}

/// Computes the layout of a component from its fields, in order: the padded layout and
/// one slot per field. Fails exactly when `fold_layout` does.
pub fn compute_layout(fields: &[(usize, LuauFieldType)]) -> (r: Result<
    (FieldLayout, SlotList),
    LayoutError,
>)
    ensures
        match fold_layout(types_of(fields@)) {
            None => r is Err,
            Some((size, align, offsets)) => r matches Ok((l, slots)) && {
                &&& l.size_spec() == round_up(size, align as int)
                &&& l.align_spec() == align
                &&& l.wf()
                &&& slot_items(slots) == slots_at(fields@, offsets)
            },
        },
{
    proof {
        assert(1usize & 0usize == 0) by (bit_vector);
    }
    let mut layout = FieldLayout::from_valid(0, 1);
    let mut slots = slots_new();
    let n = fields.len();
    let mut i: usize = 0;
    proof {
        assert(types_of(fields@.subrange(0, 0)) =~= Seq::<LuauFieldType>::empty());
        assert(slots_at(fields@.subrange(0, 0), Seq::empty()) =~= Seq::<FieldSlot>::empty());
    }
    while i < n
        invariant
            n == fields@.len(),
            i <= n,
            layout.wf(),
            fold_layout(types_of(fields@.subrange(0, i as int))) matches Some((size, align, offsets))
                && size == layout.size_spec() && align == layout.align_spec()
                && slot_items(slots) == slots_at(fields@.subrange(0, i as int), offsets),
        decreases n - i,
    {
        let (key, ft) = fields[i];
        let ghost prefix = fields@.subrange(0, i as int);
        let ghost next = fields@.subrange(0, i + 1);
        proof {
            assert(types_of(next).drop_last() =~= types_of(prefix));
            assert(types_of(next).last() == ft);
        }
        let fits = match ft {
            LuauFieldType::Buffer(m) => m <= isize::MAX as usize,
            _ => true,
        };
        if !fits {
            proof {
                lemma_fold_none_extends(fields@, i as int + 1);
            }
            return Err(LayoutError);
        }
        let fl = ft.layout();
        match layout.extend(fl) {
            Ok((nl, offset)) => {
                let ghost old_slots = slot_items(slots);
                slots_push(&mut slots, FieldSlot { key, offset, ty: ft });
                layout = nl;
                proof {
                    let offsets = fold_layout(types_of(prefix))->Some_0.2;
                    lemma_fold_len(types_of(prefix));
                    assert(slot_items(slots) =~= slots_at(next, offsets.push(offset as int)));
                }
            },
            Err(e) => {
                proof {
                    lemma_fold_none_extends(fields@, i as int + 1);
                }
                return Err(e);
            },
        }
        i = i + 1;
    }
    proof {
        assert(fields@.subrange(0, n as int) =~= fields@);
    }
    Ok((layout.pad_to_align(), slots))
}

/// Fields are laid out tightly, as `Layout::extend` does from an empty layout: the first
/// at offset 0, each next one at the first multiple of its alignment at or after the end
/// of the field before it; the size before trailing padding ends right after the last
/// field, and the alignment is the largest of the fields' (1 with no field).
pub proof fn lemma_fold_layout_tight(types: Seq<LuauFieldType>)
    requires
        fold_layout(types) is Some,
    ensures
        ({
            let (size, align, offsets) = fold_layout(types)->Some_0;
            &&& offsets.len() == types.len()
            &&& types.len() > 0 ==> offsets[0] == 0
            &&& forall|i: int|
                0 <= i < types.len() - 1 ==> #[trigger] offsets[i + 1] == round_up(
                    offsets[i] + field_size(types[i]),
                    field_align(types[i + 1]) as int,
                )
            &&& size == (if types.len() == 0 {
                0
            } else {
                offsets[types.len() - 1] + field_size(types[types.len() - 1])
            })
            &&& forall|i: int| 0 <= i < types.len() ==> field_align(#[trigger] types[i]) <= align
            &&& align == 1 || exists|i: int| 0 <= i < types.len() && field_align(#[trigger] types[i]) == align
        }),
    decreases types.len(),
{
    if types.len() > 0 {
        let prev = types.drop_last();
        lemma_fold_layout_tight(prev);
        let (size, align, offsets) = fold_layout(types)->Some_0;
        let (psize, palign, poffsets) = fold_layout(prev)->Some_0;
        crate::types::lemma_field_align(types.last());
        assert(offsets == poffsets.push(round_up(psize, field_align(types.last()) as int)));
        if prev.len() == 0 {
            assert(round_up(0, field_align(types.last()) as int) == 0) by {
                lemma_round_up(0, field_align(types.last()) as int);
            }
        }
        assert forall|i: int| 0 <= i < types.len() - 1 implies #[trigger] offsets[i + 1] == round_up(
            offsets[i] + field_size(types[i]),
            field_align(types[i + 1]) as int,
        ) by {
            assert(types[i] == prev[i]);
            if i + 1 < prev.len() {
                assert(types[i + 1] == prev[i + 1]);
            }
        }
        assert forall|i: int| 0 <= i < types.len() implies field_align(#[trigger] types[i]) <= align by {
            if i < prev.len() {
                assert(types[i] == prev[i]);
            }
        }
        if align != 1 {
            if align == field_align(types.last()) {
                assert(field_align(types[types.len() - 1]) == align);
            } else {
                let j = choose|j: int| 0 <= j < prev.len() && field_align(#[trigger] prev[j]) == palign;
                assert(types[j] == prev[j]);
            }
        }
    }
}

/// A component's slots follow its fields one for one, in order: each slot has its
/// field's key and type and the offset laid out for that field.
pub proof fn lemma_slots_follow_fields(fields: Seq<(usize, LuauFieldType)>, offsets: Seq<int>)
    ensures
        types_of(fields).len() == fields.len(),
        slots_at(fields, offsets).len() == fields.len(),
        forall|i: int|
            0 <= i < fields.len() ==> {
                &&& #[trigger] types_of(fields)[i] == fields[i].1
                &&& slots_at(fields, offsets)[i] == FieldSlot {
                    key: fields[i].0,
                    offset: offsets[i] as usize,
                    ty: fields[i].1,
                }
            },
{
}

/// The layout gives one offset per field.
pub proof fn lemma_fold_len(types: Seq<LuauFieldType>)
    requires
        fold_layout(types) is Some,
    ensures
        fold_layout(types)->Some_0.2.len() == types.len(),
    decreases types.len(),
{
    if types.len() > 0 {
        lemma_fold_len(types.drop_last());
    }
}

/// Fields laid out by `fold_layout` start at a multiple of their alignment, lie within
/// the size, come in order without overlapping, and the alignment is at least each
/// field's.
pub proof fn lemma_fold_layout_sound(types: Seq<LuauFieldType>)
    requires
        fold_layout(types) is Some,
    ensures
        ({
            let (size, align, offsets) = fold_layout(types)->Some_0;
            &&& offsets.len() == types.len()
            &&& 0 <= size
            &&& valid_layout(size, align)
            &&& forall|i: int|
                0 <= i < types.len() ==> {
                    &&& 0 <= #[trigger] offsets[i]
                    &&& offsets[i] % (field_align(types[i]) as int) == 0
                    &&& offsets[i] + field_size(types[i]) <= size
                    &&& field_align(types[i]) <= align
                }
            &&& forall|i: int, j: int|
                0 <= i < j < types.len() ==> #[trigger] offsets[i] + field_size(types[i])
                    <= #[trigger] offsets[j]
        }),
    decreases types.len(),
{
    lemma_fold_len(types);
    if types.len() == 0 {
        assert(1usize & 0usize == 0) by (bit_vector);
    } else {
        let prev = types.drop_last();
        lemma_fold_layout_sound(prev);
        let (ps, pa, po) = fold_layout(prev)->Some_0;
        let t = types.last();
        crate::types::lemma_field_align(t);
        lemma_round_up(ps, field_align(t) as int);
        let (size, align, offsets) = fold_layout(types)->Some_0;
        let n = types.len() - 1;
        assert forall|i: int| 0 <= i < types.len() implies {
            &&& 0 <= #[trigger] offsets[i]
            &&& offsets[i] % (field_align(types[i]) as int) == 0
            &&& offsets[i] + field_size(types[i]) <= size
            &&& field_align(types[i]) <= align
        } by {
            if i < n {
                assert(types[i] == prev[i]);
                assert(offsets[i] == po[i]);
            }
        }
        assert forall|i: int, j: int|
            0 <= i < j < types.len() implies #[trigger] offsets[i] + field_size(types[i])
            <= #[trigger] offsets[j] by {
            assert(types[i] == prev[i]);
            assert(offsets[i] == po[i]);
            if j < n {
                assert(types[j] == prev[j]);
                assert(offsets[j] == po[j]);
            }
        }
    }
}

/// Once a prefix of the fields cannot be laid out, the whole list cannot.
pub proof fn lemma_fold_none_extends(fields: Seq<(usize, LuauFieldType)>, k: int)
    requires
        0 <= k <= fields.len(),
        fold_layout(types_of(fields.subrange(0, k))) is None,
    ensures
        fold_layout(types_of(fields)) is None,
    decreases fields.len() - k,
{
    if k < fields.len() {
        let next = fields.subrange(0, k + 1);
        assert(types_of(next).drop_last() =~= types_of(fields.subrange(0, k)));
        lemma_fold_none_extends(fields, k + 1);
    } else {
        assert(fields.subrange(0, k) =~= fields);
    }
}

/// Slots that lie within `size` bytes, in order, without overlapping.
pub open spec fn slots_fit(slots: Seq<FieldSlot>, size: int) -> bool {
    &&& forall|i: int|
        0 <= i < slots.len() ==> #[trigger] slots[i].offset + field_size(slots[i].ty) <= size
    &&& forall|i: int, j: int|
        0 <= i < j < slots.len() ==> #[trigger] slots[i].offset + field_size(slots[i].ty)
            <= #[trigger] slots[j].offset
}

/// The field type of a value that a field accepts is that field's type.
pub proof fn lemma_stored_type(t: LuauFieldType, v: ScriptValue, strings: Seq<Seq<char>>)
    requires
        accepts(t, v),
    ensures
        model_type(stored_model(v, strings)) == t,
        encode(stored_model(v, strings)).len() == field_size(t),
{
    lemma_decode_encode(stored_model(v, strings));
}

/// Whether slot `i` is refused the value given for it.
pub open spec fn rejects(slots: Seq<FieldSlot>, values: Seq<ScriptValue>, i: int) -> bool {
    !(values[i] is Nil) && !accepts(slots[i].ty, values[i])
}

/// The first of the slots `0..n` that refuses its value.
pub open spec fn first_rejected(slots: Seq<FieldSlot>, values: Seq<ScriptValue>, n: int) -> Option<
    int,
>
    decreases n,
{
    if n <= 0 {
        None
    } else {
        match first_rejected(slots, values, n - 1) {
            Some(i) => Some(i),
            None => if rejects(slots, values, n - 1) {
                Some(n - 1)
            } else {
                None
            },
        }
    }
}

/// `base` with the values of slots `0..n` written in order; nil values leave their slot
/// as it was. Strings stand for their key among `strings`.
pub open spec fn write_slots(
    base: Seq<u8>,
    slots: Seq<FieldSlot>,
    values: Seq<ScriptValue>,
    strings: Seq<Seq<char>>,
    n: int,
) -> Seq<u8>
    decreases n,
{
    if n <= 0 {
        base
    } else {
        let prev = write_slots(base, slots, values, strings, n - 1);
        if values[n - 1] is Nil {
            prev
        } else {
            splice(
                prev,
                slots[n - 1].offset as int,
                encode(stored_model(values[n - 1], strings)),
            )
        }
    }
}

/// The interned strings once the values `0..n` have been stored.
pub open spec fn strings_after_all(
    values: Seq<ScriptValue>,
    strings: Seq<Seq<char>>,
    n: int,
) -> Seq<Seq<char>>
    decreases n,
{
    if n <= 0 {
        strings
    } else {
        strings_after(values[n - 1], strings_after_all(values, strings, n - 1))
    }
}

/// Every string among values `0..n` is held in `strings`.
pub open spec fn strings_held(values: Seq<ScriptValue>, strings: Seq<Seq<char>>, n: int) -> bool {
    forall|j: int|
        0 <= j < n ==> (#[trigger] values[j] matches ScriptValue::String(s) ==> strings.contains(
            s@,
        ))
}

/// Writing the slots does not depend on strings interned later: keys of strings already
/// held stay the same as the list grows.
pub proof fn lemma_write_slots_stable(
    base: Seq<u8>,
    slots: Seq<FieldSlot>,
    values: Seq<ScriptValue>,
    s1: Seq<Seq<char>>,
    s2: Seq<Seq<char>>,
    n: int,
)
    requires
        0 <= n <= values.len(),
        s1.is_prefix_of(s2),
        s2.no_duplicates(),
        strings_held(values, s1, n),
    ensures
        write_slots(base, slots, values, s1, n) == write_slots(base, slots, values, s2, n),
    decreases n,
{
    if n > 0 {
        lemma_write_slots_stable(base, slots, values, s1, s2, n - 1);
        if let ScriptValue::String(s) = values[n - 1] {
            assert(s1.contains(s@));
            let k = s1.index_of(s@);
            assert(s2[k] == s1[k]);
            assert(s1.no_duplicates()) by {
                assert forall|i: int, j: int|
                    0 <= i < s1.len() && 0 <= j < s1.len() && i != j implies s1[i] != s1[j] by {
                    assert(s1[i] == s2[i] && s1[j] == s2[j]);
                }
            }
            crate::fields::lemma_index_of_unique(s1, s@, k);
            crate::fields::lemma_index_of_unique(s2, s@, k);
        }
    }
}

/// What a read of slot `i` gives after the slots `0..n` were written: the value written
/// there if it was not nil, else what the base held.
pub proof fn lemma_write_slots_read(
    base: Seq<u8>,
    slots: Seq<FieldSlot>,
    values: Seq<ScriptValue>,
    strings: Seq<Seq<char>>,
    n: int,
    i: int,
)
    requires
        0 <= n <= slots.len(),
        slots.len() == values.len(),
        slots_fit(slots, base.len() as int),
        first_rejected(slots, values, n) is None,
        0 <= i < slots.len(),
    ensures
        write_slots(base, slots, values, strings, n).len() == base.len(),
        field_bytes(write_slots(base, slots, values, strings, n), slots[i].offset as int, slots[i].ty)
            == if i < n && !(values[i] is Nil) {
            encode(stored_model(values[i], strings))
        } else {
            field_bytes(base, slots[i].offset as int, slots[i].ty)
        },
    decreases n,
{
    if n > 0 {
        let prev = write_slots(base, slots, values, strings, n - 1);
        assert(first_rejected(slots, values, n - 1) is None);
        lemma_write_slots_read(base, slots, values, strings, n - 1, i);
        let k = n - 1;
        if !(values[k] is Nil) {
            assert(!rejects(slots, values, k));
            lemma_stored_type(slots[k].ty, values[k], strings);
            let bytes = encode(stored_model(values[k], strings));
            assert(slots[k].offset + field_size(slots[k].ty) <= base.len());
            assert(slots[i].offset + field_size(slots[i].ty) <= base.len());
            if i < k {
                assert(slots[i].offset + field_size(slots[i].ty) <= slots[k].offset);
            } else if i > k {
                assert(slots[k].offset + field_size(slots[k].ty) <= slots[i].offset);
            }
            lemma_splice(
                prev,
                slots[k].offset as int,
                bytes,
                slots[i].offset as int,
                field_size(slots[i].ty) as int,
            );
        }
    }
}

/// The slots named by `fields`, in that order.
pub open spec fn selected_slots(slots: Seq<FieldSlot>, fields: Seq<usize>) -> Seq<FieldSlot> {
    Seq::new(fields.len(), |k: int| slots[fields[k] as int])
}

/// Writes values into their slots of a component's bytes, in order. Nil leaves a field
/// as it is. At the first value that its slot's type does not take, writing stops with
/// that error; the slots written before keep their new values.
pub fn write_values(
    data: &mut Vec<u8>,
    slots: &[FieldSlot],
    values: &[ScriptValue],
    pool: &mut EngineStringPool,
) -> (r: Result<(), FieldError>)
    requires
        slots@.len() == values@.len(),
        forall|k: int|
            0 <= k < slots@.len() ==> #[trigger] slots@[k].offset + field_size(slots@[k].ty) <= old(
                data,
            )@.len(),
        old(pool).wf(),
        old(pool)@.len() + values@.len() <= u32::MAX,
    ensures
        final(pool).wf(),
        old(pool)@.is_prefix_of(final(pool)@),
        match first_rejected(slots@, values@, values@.len() as int) {
            Some(i) => {
                &&& r == Err::<(), FieldError>(
                    FieldError::Mismatch { expected: slots@[i].ty, got: values@[i].kind_spec() },
                )
                &&& final(pool)@ == strings_after_all(values@, old(pool)@, i)
                &&& strings_held(values@, final(pool)@, i)
                &&& final(data)@ == write_slots(old(data)@, slots@, values@, final(pool)@, i)
            },
            None => {
                &&& r is Ok
                &&& final(pool)@ == strings_after_all(values@, old(pool)@, values@.len() as int)
                &&& strings_held(values@, final(pool)@, values@.len() as int)
                &&& final(data)@ == write_slots(
                    old(data)@,
                    slots@,
                    values@,
                    final(pool)@,
                    values@.len() as int,
                )
            },
        },
{
    let n = values.len();
    let mut i: usize = 0;
    while i < n
        invariant
            n == values@.len(),
            n == slots@.len(),
            forall|k: int|
                0 <= k < slots@.len() ==> #[trigger] slots@[k].offset + field_size(slots@[k].ty)
                    <= old(data)@.len(),
            data@.len() == old(data)@.len(),
            i <= n,
            pool.wf(),
            old(pool)@.is_prefix_of(pool@),
            pool@.len() <= old(pool)@.len() + i,
            old(pool)@.len() + n <= u32::MAX,
            first_rejected(slots@, values@, i as int) is None,
            pool@ == strings_after_all(values@, old(pool)@, i as int),
            strings_held(values@, pool@, i as int),
            data@ == write_slots(old(data)@, slots@, values@, pool@, i as int),
        decreases n - i,
    {
        let slot = slots[i];
        let ghost before = pool@;
        proof {
            assert(slots@[i as int].offset + field_size(slots@[i as int].ty) <= old(data)@.len());
        }
        match write_field(data, slot.offset, slot.ty, &values[i], pool) {
            Ok(()) => {},
            Err(e) => {
                proof {
                    assert(first_rejected(slots@, values@, i as int + 1) == Some(i as int));
                    lemma_first_rejected_extends(slots@, values@, i as int + 1, n as int);
                }
                return Err(e);
            },
        }
        proof {
            assert(before.is_prefix_of(pool@));
            lemma_write_slots_stable(old(data)@, slots@, values@, before, pool@, i as int);
            assert forall|j: int| 0 <= j < i + 1 implies (#[trigger] values@[j] matches ScriptValue::String(s)
                ==> pool@.contains(s@)) by {
                if let ScriptValue::String(s) = values@[j] {
                    if j < i {
                        assert(before.contains(s@));
                        let k = before.index_of(s@);
                        assert(pool@[k] == before[k]);
                    } else {
                        if !(values@[j] is Nil) && accepts(slot.ty, values@[j]) {
                            if before.contains(s@) {
                                let k2 = before.index_of(s@);
                                assert(pool@[k2] == before[k2]);
                            } else {
                                assert(pool@[before.len() as int] == s@);
                            }
                        }
                    }
                }
            }
        }
        i = i + 1;
    }
    Ok(())
}

/// Why a component schema could not be built.
#[derive(Clone, Copy, Debug, PartialEq, Eq, Structural)]
pub enum SchemaError {
    Field(FieldError),
    Layout(LayoutError),
}

/// A component declared from a script: its memory layout, one slot per field, and the
/// bytes of its default value.
pub struct ComponentSchema {
    layout: FieldLayout,
    slots: SlotList,
    default_template: Vec<u8>,
}

impl ComponentSchema {
    pub closed spec fn layout_spec(&self) -> FieldLayout {
        self.layout
    }

    pub closed spec fn slots_spec(&self) -> Seq<FieldSlot> {
        slot_items(self.slots)
    }

    pub closed spec fn template_spec(&self) -> Seq<u8> {
        self.default_template@
    }

    /// The layout is valid, the template has its size, and the slots fit in it in order,
    /// each at a multiple of its alignment.
    pub open spec fn wf(&self) -> bool {
        &&& self.layout_spec().wf()
        &&& self.template_spec().len() == self.layout_spec().size_spec()
        &&& slots_fit(self.slots_spec(), self.layout_spec().size_spec() as int)
        &&& forall|i: int|
            0 <= i < self.slots_spec().len() ==> (#[trigger] self.slots_spec()[i]).offset as int % (
            field_align(self.slots_spec()[i].ty) as int) == 0
    }

    /// The memory layout of the component.
    pub fn layout(&self) -> (r: FieldLayout)
        ensures
            r == self.layout_spec(),
    {
        self.layout
    }

    /// The slots of the component's fields.
    pub fn fields(&self) -> (r: &[FieldSlot])
        ensures
            r@ == self.slots_spec(),
    {
        slots_as_slice(&self.slots)
    }

    /// The bytes of the component's default value.
    pub fn default_template(&self) -> (r: &[u8])
        ensures
            r@ == self.template_spec(),
    {
        self.default_template.as_slice()
    }

    /// Builds a component's bytes from its defaults: the value given for each slot is
    /// written over the default; nil keeps the default. The first value that its slot's
    /// type does not take is refused.
    pub fn instantiate(&self, values: &[ScriptValue], pool: &mut EngineStringPool) -> (r: Result<
        Vec<u8>,
        FieldError,
    >)
        requires
            self.wf(),
            values@.len() == self.slots_spec().len(),
            old(pool).wf(),
            old(pool)@.len() + values@.len() <= u32::MAX,
        ensures
            final(pool).wf(),
            old(pool)@.is_prefix_of(final(pool)@),
            match first_rejected(self.slots_spec(), values@, values@.len() as int) {
                Some(i) => r == Err::<Vec<u8>, FieldError>(
                    FieldError::Mismatch { expected: self.slots_spec()[i].ty, got: values@[i].kind_spec() },
                ),
                None => r matches Ok(data) && {
                    &&& final(pool)@ == strings_after_all(values@, old(pool)@, values@.len() as int)
                    &&& strings_held(values@, final(pool)@, values@.len() as int)
                    &&& data@ == write_slots(
                        self.template_spec(),
                        self.slots_spec(),
                        values@,
                        final(pool)@,
                        values@.len() as int,
                    )
                },
            },
    {
        let slots = slots_as_slice(&self.slots);
        let mut data = vstd::slice::slice_to_vec(self.default_template.as_slice());
        match write_values(&mut data, slots, values, pool) {
            Ok(()) => Ok(data),
            Err(e) => Err(e),
        }
    }

    /// Writes back, in order, the values a script left in some fields of a component's
    /// bytes (`fields` gives each value's slot). Nil leaves a field as it is. At the first
    /// value that its field does not take, writing stops with that error; the fields
    /// written before it keep their new values.
    pub fn write_back(
        &self,
        data: &mut Vec<u8>,
        fields: &[usize],
        values: &[ScriptValue],
        pool: &mut EngineStringPool,
    ) -> (r: Result<(), FieldError>)
        requires
            self.wf(),
            old(data)@.len() == self.layout_spec().size_spec(),
            fields@.len() == values@.len(),
            forall|k: int| 0 <= k < fields@.len() ==> #[trigger] fields@[k] < self.slots_spec().len(),
            old(pool).wf(),
            old(pool)@.len() + values@.len() <= u32::MAX,
        ensures
            final(pool).wf(),
            old(pool)@.is_prefix_of(final(pool)@),
            ({
                let chosen = selected_slots(self.slots_spec(), fields@);
                match first_rejected(chosen, values@, values@.len() as int) {
                    Some(i) => {
                        &&& r == Err::<(), FieldError>(
                            FieldError::Mismatch { expected: chosen[i].ty, got: values@[i].kind_spec() },
                        )
                        &&& final(pool)@ == strings_after_all(values@, old(pool)@, i)
                        &&& final(data)@ == write_slots(old(data)@, chosen, values@, final(pool)@, i)
                    },
                    None => {
                        &&& r is Ok
                        &&& final(pool)@ == strings_after_all(values@, old(pool)@, values@.len() as int)
                        &&& final(data)@ == write_slots(
                            old(data)@,
                            chosen,
                            values@,
                            final(pool)@,
                            values@.len() as int,
                        )
                    },
                }
            }),
    {
        let slots = slots_as_slice(&self.slots);
        let mut chosen: Vec<FieldSlot> = Vec::new();
        let n = fields.len();
        let mut k: usize = 0;
        while k < n
            invariant
                n == fields@.len(),
                slots@ == self.slots_spec(),
                forall|j: int| 0 <= j < fields@.len() ==> #[trigger] fields@[j] < slots@.len(),
                k <= n,
                chosen@ == selected_slots(slots@, fields@.subrange(0, k as int)),
            decreases n - k,
        {
            chosen.push(slots[fields[k]]);
            k = k + 1;
            assert(chosen@ =~= selected_slots(slots@, fields@.subrange(0, k as int)));
        }
        proof {
            assert(fields@.subrange(0, n as int) =~= fields@);
            assert forall|j: int| 0 <= j < chosen@.len() implies #[trigger] chosen@[j].offset + field_size(
                chosen@[j].ty,
            ) <= data@.len() by {
                assert(chosen@[j] == self.slots_spec()[fields@[j] as int]);
            }
        }
        write_values(data, chosen.as_slice(), values, pool)
    }

    /// Reads every field of a component's bytes: each slot's key with the value it holds.
    pub fn extract(&self, data: &[u8]) -> (r: Vec<(usize, FieldValue)>)
        requires
            self.wf(),
            data@.len() == self.layout_spec().size_spec(),
        ensures
            r@.len() == self.slots_spec().len(),
            forall|i: int|
                0 <= i < r@.len() ==> (#[trigger] r@[i]).0 == self.slots_spec()[i].key && r@[i].1@
                    == decode(
                    self.slots_spec()[i].ty,
                    field_bytes(data@, self.slots_spec()[i].offset as int, self.slots_spec()[i].ty),
                ),
    {
        let slots = slots_as_slice(&self.slots);
        let mut out: Vec<(usize, FieldValue)> = Vec::new();
        let n = slots.len();
        let mut i: usize = 0;
        while i < n
            invariant
                n == slots@.len(),
                slots@ == self.slots_spec(),
                self.wf(),
                data@.len() == self.layout_spec().size_spec(),
                i <= n,
                out@.len() == i,
                forall|j: int|
                    0 <= j < i ==> (#[trigger] out@[j]).0 == slots@[j].key && out@[j].1@ == decode(
                        slots@[j].ty,
                        field_bytes(data@, slots@[j].offset as int, slots@[j].ty),
                    ),
            decreases n - i,
        {
            let slot = slots[i];
            proof {
                assert(slots@[i as int].offset + field_size(slots@[i as int].ty) <= data@.len());
            }
            let value = read_field(data, slot.offset, slot.ty);
            out.push((slot.key, value));
            i = i + 1;
        }
        out
    }
}

/// Once a value is refused, writing all of them stops at the first refused one.
pub proof fn lemma_first_rejected_extends(
    slots: Seq<FieldSlot>,
    values: Seq<ScriptValue>,
    k: int,
    n: int,
)
    requires
        0 <= k <= n,
        first_rejected(slots, values, k) is Some,
    ensures
        first_rejected(slots, values, n) == first_rejected(slots, values, k),
    decreases n - k,
{
    if n > k {
        lemma_first_rejected_extends(slots, values, k, n - 1);
    }
}

/// The field type a component declaration gives a field from its default value: the
/// inferred type, except that buffers are not declared.
pub open spec fn declared_type(v: ScriptValue) -> Option<LuauFieldType> {
    match v {
        ScriptValue::Buffer(_) => None,
        _ => inferred_type(v),
    }
}

/// The field type a component declaration gives a field from its default value; a value
/// of a kind that declares no field (nil, a buffer, a table, ...) is refused.
pub fn declared_field_type(value: &ScriptValue) -> (r: Result<LuauFieldType, FieldError>)
    ensures
        match declared_type(*value) {
            Some(t) => r == Ok::<LuauFieldType, FieldError>(t),
            None => r == Err::<LuauFieldType, FieldError>(FieldError::CannotInfer(value.kind_spec())),
        },
{
    match value {
        ScriptValue::Buffer(_) => Err(FieldError::CannotInfer(value.kind())),
        _ => infer_field_type(value),
    }
}

/// The interned strings once the names `0..n` have been interned in order.
pub open spec fn names_interned(strings: Seq<Seq<char>>, names: Seq<String>, n: int) -> Seq<
    Seq<char>,
>
    decreases n,
{
    if n <= 0 {
        strings
    } else {
        let prev = names_interned(strings, names, n - 1);
        if prev.contains(names[n - 1]@) {
            prev
        } else {
            prev.push(names[n - 1]@)
        }
    }
}

/// Interning names keeps the strings held before, holds each name afterwards, and adds
/// at most one string per name.
pub proof fn lemma_names_interned_holds(strings: Seq<Seq<char>>, names: Seq<String>, n: int)
    requires
        0 <= n <= names.len(),
    ensures
        strings.is_prefix_of(names_interned(strings, names, n)),
        names_interned(strings, names, n).len() <= strings.len() + n,
        forall|j: int| 0 <= j < n ==> names_interned(strings, names, n).contains(#[trigger] names[j]@),
        strings.no_duplicates() ==> names_interned(strings, names, n).no_duplicates(),
    decreases n,
{
    if n > 0 {
        lemma_names_interned_holds(strings, names, n - 1);
        let prev = names_interned(strings, names, n - 1);
        let next = names_interned(strings, names, n);
        assert forall|j: int| 0 <= j < n implies next.contains(#[trigger] names[j]@) by {
            if j < n - 1 {
                let k = prev.index_of(names[j]@);
                assert(next[k] == prev[k]);
            } else if !prev.contains(names[n - 1]@) {
                assert(next[prev.len() as int] == names[n - 1]@);
            }
        }
        if strings.no_duplicates() && !prev.contains(names[n - 1]@) {
            assert forall|a: int, b: int| 0 <= a < next.len() && 0 <= b < next.len() && a != b
                implies next[a] != next[b] by {
                if a == prev.len() {
                    assert(next[b] == prev[b]);
                } else if b == prev.len() {
                    assert(next[a] == prev[a]);
                }
            }
        }
    }
}

/// Interning names that are all held already changes nothing.
pub proof fn lemma_names_interned_held(strings: Seq<Seq<char>>, names: Seq<String>, n: int)
    requires
        0 <= n <= names.len(),
        forall|j: int| 0 <= j < n ==> strings.contains(#[trigger] names[j]@),
    ensures
        names_interned(strings, names, n) == strings,
    decreases n,
{
    if n > 0 {
        lemma_names_interned_held(strings, names, n - 1);
        assert(strings.contains(names[n - 1]@));
    }
}

/// The first of the values `0..n` from which no field type can be declared.
pub open spec fn first_uninferable(values: Seq<ScriptValue>, n: int) -> Option<int>
    decreases n,
{
    if n <= 0 {
        None
    } else {
        match first_uninferable(values, n - 1) {
            Some(i) => Some(i),
            None => if declared_type(values[n - 1]) is None {
                Some(n - 1)
            } else {
                None
            },
        }
    }
}

/// The field types inferred from a list of values that all have one.
pub open spec fn inferred_types(values: Seq<ScriptValue>) -> Seq<LuauFieldType> {
    Seq::new(values.len(), |i: int| inferred_type(values[i])->Some_0)
}

/// `n` zero bytes.
pub open spec fn zeros(n: int) -> Seq<u8> {
    Seq::new(n as nat, |i: int| 0u8)
}

/// A value is accepted by the field type inferred from it.
pub proof fn lemma_inferred_accepts(values: Seq<ScriptValue>, slots: Seq<FieldSlot>, n: int)
    requires
        0 <= n <= values.len(),
        values.len() == slots.len(),
        first_uninferable(values, n) is None,
        forall|i: int| 0 <= i < n ==> (#[trigger] slots[i]).ty == inferred_type(values[i])->Some_0,
    ensures
        first_rejected(slots, values, n) is None,
    decreases n,
{
    if n > 0 {
        lemma_inferred_accepts(values, slots, n - 1);
        assert(inferred_type(values[n - 1]) is Some);
        assert(slots[n - 1].ty == inferred_type(values[n - 1])->Some_0);
    }
}

/// Once a value has no field type, the first such value stays the first.
pub proof fn lemma_first_uninferable_extends(values: Seq<ScriptValue>, k: int, n: int)
    requires
        0 <= k <= n,
        first_uninferable(values, k) is Some,
    ensures
        first_uninferable(values, n) == first_uninferable(values, k),
    decreases n - k,
{
    if n > k {
        lemma_first_uninferable_extends(values, k, n - 1);
    }
}

/// The first value without a field type lies among the values looked at.
pub proof fn lemma_first_uninferable_range(values: Seq<ScriptValue>, n: int)
    ensures
        first_uninferable(values, n) matches Some(i) ==> 0 <= i < n,
    decreases n,
{
    if n > 0 {
        lemma_first_uninferable_range(values, n - 1);
    }
}

/// The error that declaring a component from these defaults ends with, if any: the
/// first value without a field type, else an invalid layout.
pub open spec fn schema_error(defaults: Seq<ScriptValue>) -> Option<SchemaError> {
    match first_uninferable(defaults, defaults.len() as int) {
        Some(i) => Some(SchemaError::Field(FieldError::CannotInfer(defaults[i].kind_spec()))),
        None => match fold_layout(inferred_types(defaults)) {
            None => Some(SchemaError::Layout(LayoutError)),
            Some(_) => None,
        },
    }
}

/// `schema` is the component declared from these field names and defaults, the names
/// being interned among `strings`: fields laid out in order as `fold_layout` does, the
/// size padded to the alignment, each slot keyed by its name, and the template holding
/// the defaults over zero bytes.
pub open spec fn built_from(
    schema: ComponentSchema,
    names: Seq<String>,
    defaults: Seq<ScriptValue>,
    strings: Seq<Seq<char>>,
) -> bool {
    fold_layout(inferred_types(defaults)) matches Some((size, align, offsets)) && {
        &&& schema.wf()
        &&& schema.layout_spec().size_spec() == round_up(size, align as int)
        &&& schema.layout_spec().align_spec() == align
        &&& schema.slots_spec().len() == defaults.len()
        &&& forall|i: int|
            0 <= i < defaults.len() ==> {
                &&& (#[trigger] schema.slots_spec()[i]).offset == offsets[i]
                &&& schema.slots_spec()[i].ty == inferred_types(defaults)[i]
                &&& schema.slots_spec()[i].key < strings.len()
                &&& strings[schema.slots_spec()[i].key as int] == names[i]@
            }
        &&& schema.template_spec() == write_slots(
            zeros(schema.layout_spec().size_spec() as int),
            schema.slots_spec(),
            defaults,
            strings,
            defaults.len() as int,
        )
    }
}

impl ComponentSchema {
    /// Declares a component from its fields' names and default values, in order: each
    /// name is interned, each field's type is inferred from its default, the fields are
    /// laid out one after the other, and the defaults are written into the template
    /// (bytes between fields are zero).
    pub fn from_defaults(
        names: &[String],
        defaults: &[ScriptValue],
        pool: &mut EngineStringPool,
    ) -> (r: Result<ComponentSchema, SchemaError>)
        requires
            names@.len() == defaults@.len(),
            old(pool).wf(),
            old(pool)@.len() + 2 * defaults@.len() <= u32::MAX,
        ensures
            final(pool).wf(),
            old(pool)@.is_prefix_of(final(pool)@),
            match schema_error(defaults@) {
                Some(e) => r == Err::<ComponentSchema, SchemaError>(e),
                None => r matches Ok(schema) && built_from(schema, names@, defaults@, final(pool)@),
            },
            match first_uninferable(defaults@, defaults@.len() as int) {
                Some(i) => final(pool)@ == names_interned(old(pool)@, names@, i + 1),
                None => match fold_layout(inferred_types(defaults@)) {
                    None => final(pool)@ == names_interned(
                        old(pool)@,
                        names@,
                        defaults@.len() as int,
                    ),
                    Some(_) => final(pool)@ == strings_after_all(
                        defaults@,
                        names_interned(old(pool)@, names@, defaults@.len() as int),
                        defaults@.len() as int,
                    ),
                },
            },
    {
        let n = defaults.len();
        let mut typed: Vec<(usize, LuauFieldType)> = Vec::new();
        let mut i: usize = 0;
        while i < n
            invariant
                n == defaults@.len(),
                n == names@.len(),
                i <= n,
                pool.wf(),
                old(pool)@.is_prefix_of(pool@),
                pool@.len() <= old(pool)@.len() + i,
                old(pool)@.len() + 2 * n <= u32::MAX,
                first_uninferable(defaults@, i as int) is None,
                pool@ == names_interned(old(pool)@, names@, i as int),
                typed@.len() == i,
                forall|j: int|
                    0 <= j < i ==> {
                        &&& (#[trigger] typed@[j]).1 == inferred_type(defaults@[j])->Some_0
                        &&& typed@[j].0 < pool@.len()
                        &&& pool@[typed@[j].0 as int] == names@[j]@
                    },
            decreases n - i,
        {
            let ghost before = pool@;
            let key = pool.intern(names[i].as_str());
            proof {
                assert(before.is_prefix_of(pool@));
                assert forall|j: int| 0 <= j < i implies pool@[typed@[j].0 as int] == names@[j]@ by {
                    assert(pool@[typed@[j].0 as int] == before[typed@[j].0 as int]);
                }
            }
            match declared_field_type(&defaults[i]) {
                Ok(t) => {
                    typed.push((key, t));
                },
                Err(e) => {
                    proof {
                        lemma_first_uninferable_extends(defaults@, i as int + 1, n as int);
                    }
                    return Err(SchemaError::Field(e));
                },
            }
            i = i + 1;
        }
        proof {
            assert(types_of(typed@) =~= inferred_types(defaults@));
        }
        let (layout, slots) = match compute_layout(typed.as_slice()) {
            Ok(p) => p,
            Err(e) => {
                return Err(SchemaError::Layout(e));
            },
        };
        let ghost types = inferred_types(defaults@);
        let ghost offsets = fold_layout(types)->Some_0.2;
        proof {
            lemma_fold_layout_sound(types);
            let (size, align, offs) = fold_layout(types)->Some_0;
            crate::layout::lemma_valid_layout_rounds(size, align);
            crate::layout::lemma_round_up(size, align as int);
            assert(slot_items(slots) == slots_at(typed@, offsets));
            assert forall|i: int| 0 <= i < n implies #[trigger] slot_items(slots)[i].offset
                + field_size(slot_items(slots)[i].ty) <= layout.size_spec() by {
                assert(slot_items(slots)[i].ty == types[i]);
            }
            assert forall|i: int, j: int| 0 <= i < j < n implies #[trigger] slot_items(slots)[i].offset
                + field_size(slot_items(slots)[i].ty) <= #[trigger] slot_items(slots)[j].offset by {
                assert(slot_items(slots)[i].ty == types[i]);
                assert(offsets[i] + field_size(types[i]) <= offsets[j]);
            }
            assert forall|i: int| 0 <= i < n implies (#[trigger] slot_items(slots)[i]).offset as int % (
            field_align(slot_items(slots)[i].ty) as int) == 0 by {
                assert(slot_items(slots)[i].ty == types[i]);
            }
        }
        let size = layout.size();
        let mut blank_bytes: Vec<u8> = Vec::new();
        let mut k: usize = 0;
        while k < size
            invariant
                k <= size,
                blank_bytes@ == zeros(k as int),
            decreases size - k,
        {
            blank_bytes.push(0u8);
            k = k + 1;
            assert(blank_bytes@ =~= zeros(k as int));
        }
        let blank = ComponentSchema { layout, slots, default_template: blank_bytes };
        proof {
            lemma_inferred_accepts(defaults@, blank.slots_spec(), n as int);
        }
        let template = match blank.instantiate(defaults, pool) {
            Ok(t) => t,
            Err(e) => {
                return Err(SchemaError::Field(e));
            },
        };
        proof {
            if n > 0 {
                lemma_write_slots_read(blank.template_spec(), blank.slots_spec(), defaults@, pool@, n as int, 0);
            }
        }
        Ok(ComponentSchema { layout: blank.layout, slots: blank.slots, default_template: template })
    }
}

/// A component built from values reads back, field by field, what it was given: the
/// value itself where one was given (a string by its key among the interned strings),
/// and the default where the value was nil.
pub proof fn lemma_read_back_instantiated(
    template: Seq<u8>,
    slots: Seq<FieldSlot>,
    values: Seq<ScriptValue>,
    strings: Seq<Seq<char>>,
    i: int,
)
    requires
        slots_fit(slots, template.len() as int),
        slots.len() == values.len(),
        first_rejected(slots, values, values.len() as int) is None,
        strings.no_duplicates(),
        strings.len() <= u32::MAX,
        strings_held(values, strings, values.len() as int),
        0 <= i < slots.len(),
    ensures
        ({
            let data = write_slots(template, slots, values, strings, values.len() as int);
            let read = decode(slots[i].ty, field_bytes(data, slots[i].offset as int, slots[i].ty));
            &&& data.len() == template.len()
            &&& values[i] is Nil ==> read == decode(
                slots[i].ty,
                field_bytes(template, slots[i].offset as int, slots[i].ty),
            )
            &&& !(values[i] is Nil) ==> crate::fields::represents(read, values[i], strings)
        }),
{
    lemma_write_slots_read(template, slots, values, strings, values.len() as int, i);
    if !(values[i] is Nil) {
        lemma_first_rejected_none_prefix(slots, values, i + 1, values.len() as int);
        assert(!rejects(slots, values, i));
        crate::fields::lemma_stored_represents(slots[i].ty, values[i], strings);
        lemma_decode_encode(stored_model(values[i], strings));
    }
}

/// No value among `0..n` is refused, so none among a shorter prefix is.
pub proof fn lemma_first_rejected_none_prefix(
    slots: Seq<FieldSlot>,
    values: Seq<ScriptValue>,
    k: int,
    n: int,
)
    requires
        0 <= k <= n,
        first_rejected(slots, values, n) is None,
    ensures
        first_rejected(slots, values, k) is None,
        k > 0 ==> !rejects(slots, values, k - 1),
    decreases n - k,
{
    if n > k {
        lemma_first_rejected_none_prefix(slots, values, k, n - 1);
    }
}

/// Reading a field right after writing it gives back the value written; a field that
/// does not overlap it reads as before.
pub proof fn lemma_read_after_write(
    data: Seq<u8>,
    offset: int,
    t: LuauFieldType,
    v: ScriptValue,
    strings: Seq<Seq<char>>,
    other: int,
    other_type: LuauFieldType,
)
    requires
        0 <= offset,
        offset + field_size(t) <= data.len(),
        0 <= other,
        other + field_size(other_type) <= data.len(),
        accepts(t, v),
        strings.no_duplicates(),
        strings.len() <= u32::MAX,
        v matches ScriptValue::String(s) ==> strings.contains(s@),
    ensures
        ({
            let written = splice(data, offset, encode(stored_model(v, strings)));
            &&& crate::fields::represents(
                decode(t, field_bytes(written, offset, t)),
                v,
                strings,
            )
            &&& (other + field_size(other_type) <= offset || offset + field_size(t) <= other)
                ==> field_bytes(written, other, other_type) == field_bytes(data, other, other_type)
        }),
{
    lemma_stored_type(t, v, strings);
    crate::fields::lemma_stored_represents(t, v, strings);
    lemma_decode_encode(stored_model(v, strings));
    lemma_splice(
        data,
        offset,
        encode(stored_model(v, strings)),
        other,
        field_size(other_type) as int,
    );
}

/// Writing back the values just read from a component's fields leaves its bytes as they
/// were: every value is accepted, no string is interned, and each field is written with
/// the bytes it held. Each value is nil or stands for what its field holds (a string by
/// its key among the interned strings); boolean fields hold 0 or 1, as fields are written.
pub proof fn lemma_write_back_read_values(
    data: Seq<u8>,
    slots: Seq<FieldSlot>,
    values: Seq<ScriptValue>,
    strings: Seq<Seq<char>>,
    n: int,
)
    requires
        slots_fit(slots, data.len() as int),
        values.len() == slots.len(),
        0 <= n <= values.len(),
        strings.no_duplicates(),
        forall|i: int|
            0 <= i < slots.len() && (#[trigger] slots[i]).ty is Bool ==> data[slots[i].offset as int]
                <= 1,
        forall|i: int|
            0 <= i < values.len() ==> (#[trigger] values[i]) is Nil || crate::fields::represents(
                decode(slots[i].ty, field_bytes(data, slots[i].offset as int, slots[i].ty)),
                values[i],
                strings,
            ),
    ensures
        first_rejected(slots, values, n) is None,
        strings_after_all(values, strings, n) == strings,
        write_slots(data, slots, values, strings, n) == data,
    decreases n,
{
    if n > 0 {
        lemma_write_back_read_values(data, slots, values, strings, n - 1);
        let i = n - 1;
        if !(values[i] is Nil) {
            let off = slots[i].offset as int;
            let t = slots[i].ty;
            assert(off + field_size(t) <= data.len());
            let fb = field_bytes(data, off, t);
            crate::fields::lemma_stored_of_read(t, fb, values[i], strings);
            if t is Bool {
                assert(fb[0] == data[off]);
            }
            crate::fields::lemma_encode_decode(t, fb);
            assert(splice(data, off, fb) =~= data);
        }
    }
}

/// Declares `bevy::platform::collections::HashMap` to Verus as an opaque type.
#[verifier::external_type_specification]
#[verifier::external_body]
#[verifier::reject_recursive_types(K)]
#[verifier::reject_recursive_types(V)]
#[verifier::reject_recursive_types(S)]
pub struct ExHashMap<K, V, S>(bevy::platform::collections::HashMap<K, V, S>);

/// Declares `bevy::platform::hash::FixedHasher`, the map's hasher, to Verus as an opaque type.
#[verifier::external_type_specification]
#[verifier::external_body]
pub struct ExFixedHasher(bevy::platform::hash::FixedHasher);

/// The map that holds the schemas, by component id.
pub type SchemaMap = bevy::platform::collections::HashMap<usize, ComponentSchema>;

/// The entries of a `bevy::platform::collections::HashMap` from component ids to schemas.
pub uninterp spec fn schema_entries(m: SchemaMap) -> Map<usize, ComponentSchema>;

/// Calls `bevy::platform::collections::HashMap::new`, which holds no entry.
#[verifier::external_body]
fn schema_map_new() -> (r: SchemaMap)
    ensures
        schema_entries(r).dom() == Set::<usize>::empty(),
{
    bevy::platform::collections::HashMap::new()
}

/// Calls `HashMap::insert`, which maps the key to the value, replacing (and here dropping)
/// any value it had; other entries stay. A failed allocation when the table grows panics;
/// that is not stated.
#[verifier::external_body]
fn schema_map_insert(
    m: &mut SchemaMap,
    id: usize,
    schema: ComponentSchema,
)
    ensures
        schema_entries(*final(m)) == schema_entries(*old(m)).insert(id, schema),
{
    m.insert(id, schema);
}

/// Calls `HashMap::get`, which gives the value of the key if it has one.
#[verifier::external_body]
fn schema_map_get<'a>(
    m: &'a SchemaMap,
    id: usize,
) -> (r: Option<&'a ComponentSchema>)
    ensures
        r is Some <==> schema_entries(*m).contains_key(id),
        r matches Some(v) ==> *v == schema_entries(*m)[id],
{
    m.get(&id)
}

/// The schemas of the components declared from scripts, by component id.
pub struct SchemaRegistry {
    schemas: SchemaMap,
}

impl View for SchemaRegistry {
    type V = Map<usize, ComponentSchema>;

    closed spec fn view(&self) -> Map<usize, ComponentSchema> {
        schema_entries(self.schemas)
    }
}

impl SchemaRegistry {
    /// Every schema held is well formed.
    pub open spec fn wf(&self) -> bool {
        forall|id: usize| #[trigger] self@.contains_key(id) ==> self@[id].wf()
    }

    /// A registry holding no schema.
    pub fn new() -> (r: SchemaRegistry)
        ensures
            r@ == Map::<usize, ComponentSchema>::empty(),
            r.wf(),
    {
        let r = SchemaRegistry { schemas: schema_map_new() };
        assert(r@ =~= Map::<usize, ComponentSchema>::empty());
        r
    }

    /// Records the schema of a component, replacing any it had.
    pub fn insert(&mut self, id: usize, schema: ComponentSchema)
        requires
            old(self).wf(),
            schema.wf(),
        ensures
            final(self)@ == old(self)@.insert(id, schema),
            final(self).wf(),
    {
        let ghost s = schema;
        schema_map_insert(&mut self.schemas, id, schema);
        assert forall|k: usize| #[trigger] self@.contains_key(k) implies self@[k].wf() by {
            if k != id {
                assert(old(self)@.contains_key(k));
            } else {
                assert(self@[k] == s);
            }
        }
    }

    /// The schema of a component, if it has one.
    pub fn schema(&self, id: usize) -> (r: Option<&ComponentSchema>)
        requires
            self.wf(),
        ensures
            match r {
                Some(s) => self@.contains_key(id) && *s == self@[id] && s.wf(),
                None => !self@.contains_key(id),
            },
    {
        schema_map_get(&self.schemas, id)
    }

    /// The field slots of a component; none for a component without a schema.
    pub fn get(&self, id: usize) -> (r: &[FieldSlot])
        requires
            self.wf(),
        ensures
            self@.contains_key(id) ==> r@ == self@[id].slots_spec(),
            !self@.contains_key(id) ==> r@.len() == 0,
    {
        match schema_map_get(&self.schemas, id) {
            Some(s) => s.fields(),
            None => &[],
        }
    }
}

}
