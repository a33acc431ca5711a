use vstd::prelude::*;

verus! {

/// Declares `lasso::Rodeo`, the string interner, to Verus as an opaque type.
#[verifier::external_type_specification]
#[verifier::external_body]
#[verifier::reject_recursive_types(K)]
#[verifier::reject_recursive_types(S)]
pub struct ExRodeo<K, S>(lasso::Rodeo<K, S>);

/// Declares `lasso::Spur`, the interner's key type, to Verus as an opaque type.
#[verifier::external_type_specification]
#[verifier::external_body]
pub struct ExSpur(lasso::Spur);

/// The strings a `lasso::Rodeo` holds, in the order they were interned: the string of
/// key `k` (as `Key::into_usize` gives it) is at index `k`.
pub uninterp spec fn interned_strings(rodeo: lasso::Rodeo) -> Seq<Seq<char>>;

/// Calls `lasso::Rodeo::default()`, which creates an interner holding no string.
#[verifier::external_body]
fn rodeo_new() -> (r: lasso::Rodeo)
    ensures
        interned_strings(r) == Seq::<Seq<char>>::empty(),
{
    lasso::Rodeo::default()
}

/// Calls `lasso::Rodeo::get_or_intern` and turns the key into its index with
/// `lasso::Key::into_usize`. The source shows that a string already held gives back its
/// own key and leaves the interner unchanged, and that a new string is pushed at the end
/// of the interner's string list, its key being the old length. It panics when the key
/// cannot be made (`Spur::try_from_usize` refuses an index of `u32::MAX` or more), which
/// `requires` leaves out. An allocation failure of its arena also panics; that is not stated.
#[verifier::external_body]
fn rodeo_get_or_intern(rodeo: &mut lasso::Rodeo, s: &str) -> (key: usize)
    requires
        interned_strings(*old(rodeo)).contains(s@) || interned_strings(*old(rodeo)).len()
            < u32::MAX,
    ensures
        interned_strings(*old(rodeo)).contains(s@) ==> {
            &&& interned_strings(*final(rodeo)) == interned_strings(*old(rodeo))
            &&& key < interned_strings(*old(rodeo)).len()
            &&& interned_strings(*old(rodeo))[key as int] == s@
        },
        !interned_strings(*old(rodeo)).contains(s@) ==> {
            &&& interned_strings(*final(rodeo)) == interned_strings(*old(rodeo)).push(s@)
            &&& key == interned_strings(*old(rodeo)).len()
        },
{
    lasso::Key::into_usize(rodeo.get_or_intern(s))
}

/// Calls `lasso::Rodeo::len`, the number of strings interned.
#[verifier::external_body]
fn rodeo_len(rodeo: &lasso::Rodeo) -> (r: usize)
    ensures
        r == interned_strings(*rodeo).len(),
{
    rodeo.len()
}

/// Calls `lasso::Rodeo::resolve` on the key that `lasso::Key::try_from_usize` makes of
/// `key`. The source shows that it gives back the string at that index of the interner's
/// string list. It panics when the index is not below the number of strings, or when the
/// key cannot be made (an index of `u32::MAX` or more); `requires` leaves both out.
#[verifier::external_body]
fn rodeo_resolve(rodeo: &lasso::Rodeo, key: usize) -> (r: &str)
    requires
        key < interned_strings(*rodeo).len(),
        key < u32::MAX,
    ensures
        r@ == interned_strings(*rodeo)[key as int],
{
    let spur: lasso::Spur = lasso::Key::try_from_usize(key).unwrap();
    rodeo.resolve(&spur)
}

/// Interns the strings shared between the engine and its scripts, giving each distinct
/// string one key. Its view is the list of strings, the key of a string being its index.
pub struct EngineStringPool {
    rodeo: lasso::Rodeo,
}

impl View for EngineStringPool {
    type V = Seq<Seq<char>>;

    closed spec fn view(&self) -> Seq<Seq<char>> {
        interned_strings(self.rodeo)
    }
}

impl EngineStringPool {
    /// Every string is held once, and every key fits in 32 bits.
    pub open spec fn wf(&self) -> bool {
        self@.no_duplicates() && self@.len() <= u32::MAX
    }

    /// An empty pool.
    pub fn new() -> (r: EngineStringPool)
        ensures
            r@ == Seq::<Seq<char>>::empty(),
            r.wf(),
    {
        EngineStringPool { rodeo: rodeo_new() }
    }

    /// The number of strings interned.
    pub fn len(&self) -> (r: usize)
        requires
            self.wf(),
        ensures
            r == self@.len(),
            r <= u32::MAX,
    {
        rodeo_len(&self.rodeo)
    }

    /// The string whose key is `key`.
    pub fn resolve(&self, key: usize) -> (r: &str)
        requires
            self.wf(),
            key < self@.len(),
        ensures
            r@ == self@[key as int],
    {
        rodeo_resolve(&self.rodeo, key)
    }

    /// The key of `s`, interning it if it was not held yet. A string keeps the key it was
    /// given first; distinct strings have distinct keys.
    pub fn intern(&mut self, s: &str) -> (key: usize)
        requires
            old(self).wf(),
            old(self)@.contains(s@) || old(self)@.len() < u32::MAX,
        ensures
            final(self).wf(),
            key < final(self)@.len(),
            final(self)@[key as int] == s@,
            forall|j: int| 0 <= j < final(self)@.len() && final(self)@[j] == s@ ==> j == key,
            old(self)@.is_prefix_of(final(self)@),
            old(self)@.contains(s@) ==> final(self)@ == old(self)@,
            !old(self)@.contains(s@) ==> final(self)@ == old(self)@.push(s@),
    {
        let key = rodeo_get_or_intern(&mut self.rodeo, s);
        proof {
            let old_v = old(self)@;
            let new_v = self@;
            if !old_v.contains(s@) {
                assert forall|i: int, j: int|
                    0 <= i < new_v.len() && 0 <= j < new_v.len() && i != j implies new_v[i]
                    != new_v[j] by {
                    if i == old_v.len() {
                        assert(new_v[j] == old_v[j]);
                    } else if j == old_v.len() {
                        assert(new_v[i] == old_v[i]);
                    }
                }
            }
        }
        key
    }
}

/// Two interning calls agree on keys exactly when they agree on strings: if `s` got key
/// `r` in a pool `p1` and, later, `s2` got key `r2` in the grown pool `p2`, then
/// `r2 == r` if and only if `s2 == s`. Keys given earlier keep naming their strings.
pub proof fn lemma_intern_keys(
    p1: Seq<Seq<char>>,
    p2: Seq<Seq<char>>,
    s: Seq<char>,
    r: int,
    s2: Seq<char>,
    r2: int,
)
    requires
        p1.is_prefix_of(p2),
        p2.no_duplicates(),
        0 <= r < p1.len(),
        p1[r] == s,
        0 <= r2 < p2.len(),
        p2[r2] == s2,
    ensures
        p2[r] == s,
        r2 == r <==> s2 == s,
{
    assert(p2[r] == p1[r]);
}

}
