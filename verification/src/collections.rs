//! The insertion-ordered hash collections of the `indexmap` crate, as this
//! library uses them: sets of `u32` and `u64`, maps from `u64` to
//! `String`, from `String` to `u64`, to lists of `u64` and to lists of
//! strings, from `u64` to `usize` and to lists of indices, from sequences
//! of `u64` to `u64`, and from interface identifiers to COM interfaces;
//! sets of strings, of alias classes and of pointer constraints.

use vstd::prelude::*;
use indexmap::{IndexMap, IndexSet};
use crate::api_tracking::{handle_view, HandleLifecycle, HandleView};
use crate::lifetime::{lifetime_view, LifetimeView, ObjectLifetime};
use crate::provenance::{AliasId, PointerConstraint};
use crate::recovered_types::{function_view, FunctionView, SdbFunction, SdbXref};
use crate::ssa::SsaName;
use crate::calling_conv::IrType;
use crate::vsa::ValueSet;
use crate::ui_binding::{node_view, NodeView, UiNode, UiNodeType, UiValue};
use crate::winrt_align::{interface_view, ComInterface, InterfaceView};

verus! {

#[verifier::external_type_specification]
#[verifier::external_body]
#[verifier::reject_recursive_types(T)]
#[verifier::reject_recursive_types(S)]
pub struct ExIndexSet<T, S>(IndexSet<T, S>);

#[verifier::external_type_specification]
#[verifier::external_body]
#[verifier::reject_recursive_types(K)]
#[verifier::reject_recursive_types(V)]
#[verifier::reject_recursive_types(S)]
pub struct ExIndexMap<K, V, S>(IndexMap<K, V, S>);

// ---------------------------------------------------------------------------
// IndexSet<u64>
// ---------------------------------------------------------------------------

/// The items of a set of `u64`, in insertion order.
pub uninterp spec fn u64_set_items(s: IndexSet<u64>) -> Seq<u64>;

/// `IndexSet::new`: an empty set.
#[verifier::external_body]
pub(crate) fn u64_set_new() -> (s: IndexSet<u64>)
    ensures
        u64_set_items(s) == Seq::<u64>::empty(),
{
    IndexSet::new()
}

/// `IndexSet::insert`: appends `v` unless an equal item is present, in
/// which case the set is unchanged; returns whether `v` was added. A set
/// never holds an item twice.
#[verifier::external_body]
pub(crate) fn u64_set_insert(s: &mut IndexSet<u64>, v: u64) -> (r: bool)
    ensures
        r == !u64_set_items(*old(s)).contains(v),
        r ==> u64_set_items(*final(s)) == u64_set_items(*old(s)).push(v),
        !r ==> u64_set_items(*final(s)) == u64_set_items(*old(s)),
        u64_set_items(*final(s)).no_duplicates(),
{
    s.insert(v)
}

/// `IndexSet::contains`.
#[verifier::external_body]
pub(crate) fn u64_set_contains(s: &IndexSet<u64>, v: u64) -> (r: bool)
    ensures
        r == u64_set_items(*s).contains(v),
{
    s.contains(&v)
}

/// `IndexSet::len`.
#[verifier::external_body]
pub(crate) fn u64_set_len(s: &IndexSet<u64>) -> (r: usize)
    ensures
        r == u64_set_items(*s).len(),
{
    s.len()
}

// ---------------------------------------------------------------------------
// IndexSet<u32>
// ---------------------------------------------------------------------------

/// The items of a set of `u32`, in insertion order.
pub uninterp spec fn u32_set_items(s: IndexSet<u32>) -> Seq<u32>;

/// `IndexSet::new`: an empty set.
#[verifier::external_body]
pub(crate) fn u32_set_new() -> (s: IndexSet<u32>)
    ensures
        u32_set_items(s) == Seq::<u32>::empty(),
{
    IndexSet::new()
}

/// `IndexSet::insert`: appends `v` unless an equal item is present, in
/// which case the set is unchanged; returns whether `v` was added. A set
/// never holds an item twice.
#[verifier::external_body]
pub(crate) fn u32_set_insert(s: &mut IndexSet<u32>, v: u32) -> (r: bool)
    ensures
        r == !u32_set_items(*old(s)).contains(v),
        r ==> u32_set_items(*final(s)) == u32_set_items(*old(s)).push(v),
        !r ==> u32_set_items(*final(s)) == u32_set_items(*old(s)),
        u32_set_items(*final(s)).no_duplicates(),
{
    s.insert(v)
}

/// `IndexSet::contains`.
#[verifier::external_body]
pub(crate) fn u32_set_contains(s: &IndexSet<u32>, v: u32) -> (r: bool)
    ensures
        r == u32_set_items(*s).contains(v),
{
    s.contains(&v)
}

/// `IndexSet::swap_remove`: removes `v` if present by moving the last item
/// into its place; returns whether `v` was present.
#[verifier::external_body]
pub(crate) fn u32_set_swap_remove(s: &mut IndexSet<u32>, v: u32) -> (r: bool)
    requires
        u32_set_items(*old(s)).no_duplicates(),
    ensures
        r == u32_set_items(*old(s)).contains(v),
        !r ==> u32_set_items(*final(s)) == u32_set_items(*old(s)),
        r ==> ({
            let o = u32_set_items(*old(s));
            let i = o.index_of(v);
            u32_set_items(*final(s)) == o.update(i, o.last()).drop_last()
        }),
{
    s.swap_remove(&v)
}

// ---------------------------------------------------------------------------
// IndexMap<u64, String>
// ---------------------------------------------------------------------------

/// A map from addresses to names.
pub type AddrNameMap = IndexMap<u64, String>;

/// The entries of a map from `u64` to strings.
pub uninterp spec fn u64_string_map_items(m: IndexMap<u64, String>) -> Map<u64, Seq<char>>;

/// `IndexMap::new`: an empty map.
#[verifier::external_body]
pub(crate) fn u64_string_map_new() -> (m: AddrNameMap)
    ensures
        u64_string_map_items(m).dom() == Set::<u64>::empty(),
{
    IndexMap::new()
}

/// `IndexMap::contains_key`.
#[verifier::external_body]
pub(crate) fn u64_string_map_contains_key(m: &IndexMap<u64, String>, k: u64) -> (r: bool)
    ensures
        r == u64_string_map_items(*m).contains_key(k),
{
    m.contains_key(&k)
}

/// `IndexMap::get`, converted with `String::as_str`.
#[verifier::external_body]
pub(crate) fn u64_string_map_get(m: &IndexMap<u64, String>, k: u64) -> (r: Option<&str>)
    ensures
        match r {
            Some(s) => u64_string_map_items(*m).contains_key(k) && s@ == u64_string_map_items(
                *m,
            )[k],
            None => !u64_string_map_items(*m).contains_key(k),
        },
{
    m.get(&k).map(|s| s.as_str())
}

/// `IndexMap::insert`: the entry for `k` takes the value `v`.
#[verifier::external_body]
pub(crate) fn u64_string_map_insert(m: &mut IndexMap<u64, String>, k: u64, v: String)
    ensures
        u64_string_map_items(*final(m)) == u64_string_map_items(*old(m)).insert(k, v@),
{
    m.insert(k, v);
}

/// `IndexMap::len`.
#[verifier::external_body]
pub(crate) fn u64_string_map_len(m: &IndexMap<u64, String>) -> (r: usize)
    ensures
        r == u64_string_map_items(*m).len(),
{
    m.len()
}

// ---------------------------------------------------------------------------
// Insertion-ordered association lists
// ---------------------------------------------------------------------------

/// The index of the first entry from `i` on whose key is `k`.
pub open spec fn key_position<K, V>(s: Seq<(K, V)>, k: K, i: int) -> Option<int>
    decreases s.len() - i,
{
    if i < 0 || i >= s.len() {
        None
    } else if s[i].0 == k {
        Some(i)
    } else {
        key_position(s, k, i + 1)
    }
}

/// The entries after `IndexMap::insert(k, v)`: an entry with key `k` keeps
/// its place and takes the value `v`; otherwise the entry is appended.
pub open spec fn assoc_insert<K, V>(s: Seq<(K, V)>, k: K, v: V) -> Seq<(K, V)> {
    match key_position(s, k, 0) {
        Some(i) => s.update(i, (k, v)),
        None => s.push((k, v)),
    }
}

/// The value of the entry with key `k`, if any.
pub open spec fn assoc_get<K, V>(s: Seq<(K, V)>, k: K) -> Option<V> {
    match key_position(s, k, 0) {
        Some(i) => Some(s[i].1),
        None => None,
    }
}

/// The search from `i` finds the first entry from `i` on with key `k`.
pub proof fn lemma_key_position<K, V>(s: Seq<(K, V)>, k: K, i: int)
    requires
        0 <= i,
    ensures
        match key_position(s, k, i) {
            Some(j) => i <= j < s.len() && s[j].0 == k && forall|m: int| i <= m < j ==> s[m].0 != k,
            None => forall|m: int| i <= m < s.len() ==> s[m].0 != k,
        },
    decreases s.len() - i,
{
    if i < s.len() && s[i].0 != k {
        lemma_key_position(s, k, i + 1);
    }
}

/// The search depends on the keys alone.
pub proof fn lemma_key_position_keys<K, V>(s: Seq<(K, V)>, t: Seq<(K, V)>, k: K, i: int)
    requires
        0 <= i,
        s.len() == t.len(),
        forall|m: int| 0 <= m < s.len() ==> s[m].0 == t[m].0,
    ensures
        key_position(s, k, i) == key_position(t, k, i),
    decreases s.len() - i,
{
    if i < s.len() && s[i].0 != k {
        lemma_key_position_keys(s, t, k, i + 1);
    }
}

/// Appending an entry with another key leaves the search unchanged, and
/// appending one with an absent key makes it the found entry.
pub proof fn lemma_key_position_push<K, V>(s: Seq<(K, V)>, x: (K, V), k: K, i: int)
    requires
        0 <= i <= s.len(),
    ensures
        x.0 != k ==> key_position(s.push(x), k, i) == key_position(s, k, i),
        x.0 == k && key_position(s, k, i) is None ==> key_position(s.push(x), k, i) == Some(s.len() as int),
    decreases s.len() - i,
{
    if i < s.len() && s[i].0 != k {
        lemma_key_position_push(s, x, k, i + 1);
    } else if i == s.len() {
        assert(key_position(s.push(x), k, i + 1) is None);
    }
}

/// What a lookup finds after an insertion.
pub proof fn lemma_assoc_insert_get<K, V>(s: Seq<(K, V)>, k: K, v: V, a: K)
    ensures
        assoc_get(assoc_insert(s, k, v), a) == if a == k { Some(v) } else { assoc_get(s, a) },
{
    lemma_key_position(s, k, 0);
    match key_position(s, k, 0) {
        Some(p) => {
            let t = s.update(p, (k, v));
            lemma_key_position_keys(s, t, a, 0);
            lemma_key_position(s, a, 0);
        },
        None => {
            lemma_key_position_push(s, (k, v), a, 0);
            lemma_key_position(s, a, 0);
        },
    }
}

// ---------------------------------------------------------------------------
// IndexMap<u64, usize>
// ---------------------------------------------------------------------------

/// The entries of a map from `u64` to `usize`, in insertion order.
pub uninterp spec fn u64_usize_map_items(m: IndexMap<u64, usize>) -> Seq<(u64, usize)>;

/// `IndexMap::new`: an empty map.
#[verifier::external_body]
pub(crate) fn u64_usize_map_new() -> (m: IndexMap<u64, usize>)
    ensures
        u64_usize_map_items(m) == Seq::<(u64, usize)>::empty(),
{
    IndexMap::new()
}

/// `IndexMap::insert`: the entry for an equal key keeps its place and takes
/// the new value; a new key is appended.
#[verifier::external_body]
pub(crate) fn u64_usize_map_insert(m: &mut IndexMap<u64, usize>, k: u64, v: usize)
    ensures
        u64_usize_map_items(*final(m)) == assoc_insert(u64_usize_map_items(*old(m)), k, v),
{
    m.insert(k, v);
}

/// `IndexMap::get`: the value stored under `k`.
#[verifier::external_body]
pub(crate) fn u64_usize_map_get(m: &IndexMap<u64, usize>, k: u64) -> (r: Option<usize>)
    ensures
        r == assoc_get(u64_usize_map_items(*m), k),
{
    m.get(&k).copied()
}

// ---------------------------------------------------------------------------
// IndexMap<Vec<u64>, u64>
// ---------------------------------------------------------------------------

/// The entries of a map from sequences of `u64` to `u64`, in insertion
/// order, keys taken as sequences.
pub uninterp spec fn seq_u64_map_items(m: IndexMap<Vec<u64>, u64>) -> Seq<(Seq<u64>, u64)>;

/// `IndexMap::new`: an empty map.
#[verifier::external_body]
pub(crate) fn seq_u64_map_new() -> (m: IndexMap<Vec<u64>, u64>)
    ensures
        seq_u64_map_items(m) == Seq::<(Seq<u64>, u64)>::empty(),
{
    IndexMap::new()
}

/// `IndexMap::insert`: the entry for an equal key keeps its place and takes
/// the new value; a new key is appended.
#[verifier::external_body]
pub(crate) fn seq_u64_map_insert(m: &mut IndexMap<Vec<u64>, u64>, k: Vec<u64>, v: u64)
    ensures
        seq_u64_map_items(*final(m)) == assoc_insert(seq_u64_map_items(*old(m)), k@, v),
{
    m.insert(k, v);
}

/// `IndexMap::get` with a slice key: the value stored under the key with
/// the same items.
#[verifier::external_body]
pub(crate) fn seq_u64_map_get(m: &IndexMap<Vec<u64>, u64>, k: &[u64]) -> (r: Option<u64>)
    ensures
        r == assoc_get(seq_u64_map_items(*m), k@),
{
    m.get(k).copied()
}

// ---------------------------------------------------------------------------
// IndexMap<String, Vec<u64>>
// ---------------------------------------------------------------------------

/// The entries of a map from strings to lists of `u64`, in insertion order,
/// keys and values taken as sequences.
pub uninterp spec fn string_vec_map_items(m: IndexMap<String, Vec<u64>>) -> Seq<(Seq<char>, Seq<u64>)>;

/// `IndexMap::new`: an empty map.
#[verifier::external_body]
pub(crate) fn string_vec_map_new() -> (m: IndexMap<String, Vec<u64>>)
    ensures
        string_vec_map_items(m) == Seq::<(Seq<char>, Seq<u64>)>::empty(),
{
    IndexMap::new()
}

/// `IndexMap::get`: a copy of the list stored under `k`.
#[verifier::external_body]
pub(crate) fn string_vec_map_get(m: &IndexMap<String, Vec<u64>>, k: &str) -> (r: Option<Vec<u64>>)
    ensures
        match r {
            Some(v) => assoc_get(string_vec_map_items(*m), k@) == Some(v@),
            None => assoc_get(string_vec_map_items(*m), k@) is None,
        },
{
    m.get(k).cloned()
}

/// `IndexMap::insert`: the entry for an equal key keeps its place and takes
/// the new value; a new key is appended.
#[verifier::external_body]
pub(crate) fn string_vec_map_insert(m: &mut IndexMap<String, Vec<u64>>, k: String, v: Vec<u64>)
    ensures
        string_vec_map_items(*final(m)) == assoc_insert(string_vec_map_items(*old(m)), k@, v@),
{
    m.insert(k, v);
}

/// The entries of the map, in order, as `IndexMap::into_iter` yields them.
#[verifier::external_body]
pub(crate) fn string_vec_map_into_entries(m: IndexMap<String, Vec<u64>>) -> (r: Vec<(String, Vec<u64>)>)
    ensures
        r@.map_values(|e: (String, Vec<u64>)| (e.0@, e.1@)) == string_vec_map_items(m),
{
    m.into_iter().collect()
}

// ---------------------------------------------------------------------------
// IndexMap<String, Vec<String>>
// ---------------------------------------------------------------------------

/// The entries of a map from strings to lists of strings, in insertion
/// order, keys and values taken as sequences of characters.
pub uninterp spec fn string_lists_map_items(m: IndexMap<String, Vec<String>>) -> Seq<(Seq<char>, Seq<Seq<char>>)>;

/// `IndexMap::new`: an empty map.
#[verifier::external_body]
pub(crate) fn string_lists_map_new() -> (m: IndexMap<String, Vec<String>>)
    ensures
        string_lists_map_items(m) == Seq::<(Seq<char>, Seq<Seq<char>>)>::empty(),
{
    IndexMap::new()
}

/// `IndexMap::get`: a copy of the list stored under `k`.
#[verifier::external_body]
pub(crate) fn string_lists_map_get(m: &IndexMap<String, Vec<String>>, k: &str) -> (r: Option<Vec<String>>)
    ensures
        match r {
            Some(v) => assoc_get(string_lists_map_items(*m), k@) == Some(v@.map_values(|s: String| s@)),
            None => assoc_get(string_lists_map_items(*m), k@) is None,
        },
{
    m.get(k).cloned()
}

/// `IndexMap::insert`: the entry for an equal key keeps its place and takes
/// the new value; a new key is appended.
#[verifier::external_body]
pub(crate) fn string_lists_map_insert(m: &mut IndexMap<String, Vec<String>>, k: String, v: Vec<String>)
    ensures
        string_lists_map_items(*final(m)) == assoc_insert(
            string_lists_map_items(*old(m)),
            k@,
            v@.map_values(|s: String| s@),
        ),
{
    m.insert(k, v);
}

// ---------------------------------------------------------------------------
// IndexMap<SsaName, ValueSet>
// ---------------------------------------------------------------------------

/// The entries of a map from SSA names to value sets, in insertion order.
pub uninterp spec fn vsa_value_items(m: IndexMap<SsaName, ValueSet>) -> Seq<(SsaName, ValueSet)>;

/// `IndexMap::get`: the value set stored under `k`, by reference.
#[verifier::external_body]
pub(crate) fn vsa_value_get<'a>(m: &'a IndexMap<SsaName, ValueSet>, k: &SsaName) -> (r: Option<&'a ValueSet>)
    ensures
        match r {
            Some(v) => assoc_get(vsa_value_items(*m), *k) == Some(*v),
            None => assoc_get(vsa_value_items(*m), *k) is None,
        },
{
    m.get(k)
}

// ---------------------------------------------------------------------------
// IndexMap<SsaName, IrType>
// ---------------------------------------------------------------------------

/// The entries of a map from SSA names to types, in insertion order.
pub uninterp spec fn ssa_type_items(m: IndexMap<SsaName, IrType>) -> Seq<(SsaName, IrType)>;

/// `IndexMap::get`: the type stored under `k`, by reference.
#[verifier::external_body]
pub(crate) fn ssa_type_get<'a>(m: &'a IndexMap<SsaName, IrType>, k: &SsaName) -> (r: Option<&'a IrType>)
    ensures
        match r {
            Some(t) => assoc_get(ssa_type_items(*m), *k) == Some(*t),
            None => assoc_get(ssa_type_items(*m), *k) is None,
        },
{
    m.get(k)
}

// ---------------------------------------------------------------------------
// IndexMap<u64, Vec<usize>>
// ---------------------------------------------------------------------------

/// The entries of a map from `u64` to lists of indices, in insertion
/// order, values taken as sequences.
pub uninterp spec fn u64_indices_map_items(m: IndexMap<u64, Vec<usize>>) -> Seq<(u64, Seq<usize>)>;

/// `IndexMap::new`: an empty map.
#[verifier::external_body]
pub(crate) fn u64_indices_map_new() -> (m: IndexMap<u64, Vec<usize>>)
    ensures
        u64_indices_map_items(m) == Seq::<(u64, Seq<usize>)>::empty(),
{
    IndexMap::new()
}

/// `IndexMap::get`: a copy of the list stored under `k`.
#[verifier::external_body]
pub(crate) fn u64_indices_map_get(m: &IndexMap<u64, Vec<usize>>, k: u64) -> (r: Option<Vec<usize>>)
    ensures
        match r {
            Some(v) => assoc_get(u64_indices_map_items(*m), k) == Some(v@),
            None => assoc_get(u64_indices_map_items(*m), k) is None,
        },
{
    m.get(&k).cloned()
}

/// `IndexMap::insert`: the entry for an equal key keeps its place and takes
/// the new value; a new key is appended.
#[verifier::external_body]
pub(crate) fn u64_indices_map_insert(m: &mut IndexMap<u64, Vec<usize>>, k: u64, v: Vec<usize>)
    ensures
        u64_indices_map_items(*final(m)) == assoc_insert(u64_indices_map_items(*old(m)), k, v@),
{
    m.insert(k, v);
}

// ---------------------------------------------------------------------------
// IndexSet<AliasId> and IndexSet<PointerConstraint>
// ---------------------------------------------------------------------------

/// The items after inserting each of `xs` in order.
pub open spec fn set_insert_all<T>(s: Seq<T>, xs: Seq<T>) -> Seq<T>
    decreases xs.len(),
{
    if xs.len() == 0 {
        s
    } else {
        set_insert(set_insert_all(s, xs.drop_last()), xs.last())
    }
}

/// The items of a set of alias classes, in insertion order.
pub uninterp spec fn alias_set_items(s: IndexSet<AliasId>) -> Seq<AliasId>;

/// `IndexSet::new`: an empty set.
#[verifier::external_body]
pub(crate) fn alias_set_new() -> (s: IndexSet<AliasId>)
    ensures
        alias_set_items(s) == Seq::<AliasId>::empty(),
{
    IndexSet::new()
}

/// `IndexSet::insert`: appends `x` unless an equal item is present. A set
/// never holds an item twice.
#[verifier::external_body]
pub(crate) fn alias_set_insert(s: &mut IndexSet<AliasId>, x: AliasId)
    ensures
        alias_set_items(*final(s)) == set_insert(alias_set_items(*old(s)), x),
{
    s.insert(x);
}

/// `IndexSet::extend`: inserts the items of `other` in its order.
#[verifier::external_body]
pub(crate) fn alias_set_extend(s: &mut IndexSet<AliasId>, other: IndexSet<AliasId>)
    ensures
        alias_set_items(*final(s)) == set_insert_all(alias_set_items(*old(s)), alias_set_items(other)),
{
    s.extend(other);
}

/// `IndexSet::eq`: the sets hold the same items, in any order.
#[verifier::external_body]
pub(crate) fn alias_set_eq(a: &IndexSet<AliasId>, b: &IndexSet<AliasId>) -> (r: bool)
    ensures
        r == (alias_set_items(*a).to_set() == alias_set_items(*b).to_set()),
{
    a == b
}

/// The items of a set of pointer constraints, in insertion order.
pub uninterp spec fn constraint_set_items(s: IndexSet<PointerConstraint>) -> Seq<PointerConstraint>;

/// `IndexSet::new`: an empty set.
#[verifier::external_body]
pub(crate) fn constraint_set_new() -> (s: IndexSet<PointerConstraint>)
    ensures
        constraint_set_items(s) == Seq::<PointerConstraint>::empty(),
{
    IndexSet::new()
}

/// `IndexSet::insert`: appends `x` unless an equal item is present.
#[verifier::external_body]
pub(crate) fn constraint_set_insert(s: &mut IndexSet<PointerConstraint>, x: PointerConstraint)
    ensures
        constraint_set_items(*final(s)) == set_insert(constraint_set_items(*old(s)), x),
{
    s.insert(x);
}

/// `IndexSet::contains`.
#[verifier::external_body]
pub(crate) fn constraint_set_contains(s: &IndexSet<PointerConstraint>, x: PointerConstraint) -> (r: bool)
    ensures
        r == constraint_set_items(*s).contains(x),
{
    s.contains(&x)
}

/// `IndexSet::is_empty`.
#[verifier::external_body]
pub(crate) fn constraint_set_is_empty(s: &IndexSet<PointerConstraint>) -> (r: bool)
    ensures
        r == (constraint_set_items(*s).len() == 0),
{
    s.is_empty()
}

/// The items of the set, in order, as `IndexSet::into_iter` yields them.
#[verifier::external_body]
pub(crate) fn constraint_set_into_items(s: IndexSet<PointerConstraint>) -> (r: Vec<PointerConstraint>)
    ensures
        r@ == constraint_set_items(s),
{
    s.into_iter().collect()
}

/// `IndexSet::eq`: the sets hold the same items, in any order.
#[verifier::external_body]
pub(crate) fn constraint_set_eq(a: &IndexSet<PointerConstraint>, b: &IndexSet<PointerConstraint>) -> (r: bool)
    ensures
        r == (constraint_set_items(*a).to_set() == constraint_set_items(*b).to_set()),
{
    a == b
}

// ---------------------------------------------------------------------------
// IndexSet<String>
// ---------------------------------------------------------------------------

/// The items of a set of strings, in insertion order, as character
/// sequences.
pub uninterp spec fn string_set_items(s: IndexSet<String>) -> Seq<Seq<char>>;

/// The items after `IndexSet::insert(x)`: `x` is appended unless an equal
/// item is present.
pub open spec fn set_insert<T>(s: Seq<T>, x: T) -> Seq<T> {
    if s.contains(x) {
        s
    } else {
        s.push(x)
    }
}

/// `IndexSet::new`: an empty set.
#[verifier::external_body]
pub(crate) fn string_set_new() -> (s: IndexSet<String>)
    ensures
        string_set_items(s) == Seq::<Seq<char>>::empty(),
{
    IndexSet::new()
}

/// `IndexSet::insert`: appends `x` unless an equal item is present.
#[verifier::external_body]
pub(crate) fn string_set_insert(s: &mut IndexSet<String>, x: String)
    ensures
        string_set_items(*final(s)) == set_insert(string_set_items(*old(s)), x@),
{
    s.insert(x);
}

/// `IndexSet::is_empty`.
#[verifier::external_body]
pub(crate) fn string_set_is_empty(s: &IndexSet<String>) -> (r: bool)
    ensures
        r == (string_set_items(*s).len() == 0),
{
    s.is_empty()
}

// ---------------------------------------------------------------------------
// IndexMap<String, IndexSet<String>>
// ---------------------------------------------------------------------------

/// The entries of a map from strings to sets of strings, in insertion
/// order, each set by its items.
pub uninterp spec fn string_sets_map_items(m: IndexMap<String, IndexSet<String>>) -> Seq<(Seq<char>, Seq<Seq<char>>)>;

/// `IndexMap::new`: an empty map.
#[verifier::external_body]
pub(crate) fn string_sets_map_new() -> (m: IndexMap<String, IndexSet<String>>)
    ensures
        string_sets_map_items(m) == Seq::<(Seq<char>, Seq<Seq<char>>)>::empty(),
{
    IndexMap::new()
}

/// `IndexMap::insert`: the entry for an equal key keeps its place and takes
/// the new value; a new key is appended.
#[verifier::external_body]
pub(crate) fn string_sets_map_insert(m: &mut IndexMap<String, IndexSet<String>>, k: String, v: IndexSet<String>)
    ensures
        string_sets_map_items(*final(m)) == assoc_insert(string_sets_map_items(*old(m)), k@, string_set_items(v)),
{
    m.insert(k, v);
}

/// The entries of the map, in order, each set as the list of its items in
/// order.
#[verifier::external_body]
pub(crate) fn string_sets_map_entries(m: &IndexMap<String, IndexSet<String>>) -> (r: Vec<(String, Vec<String>)>)
    ensures
        r@.map_values(|e: (String, Vec<String>)| (e.0@, e.1@.map_values(|x: String| x@))) == string_sets_map_items(
            *m,
        ),
{
    m.iter().map(|(k, v)| (k.clone(), v.iter().cloned().collect())).collect()
}

// ---------------------------------------------------------------------------
// IndexMap<u64, UiNode>
// ---------------------------------------------------------------------------

/// The entries of a map from node identifiers to UI nodes, in insertion
/// order, each node by its view.
pub uninterp spec fn ui_node_map_items(m: IndexMap<u64, UiNode>) -> Seq<(u64, NodeView)>;

/// The property maps of the nodes of a node map, in the same order, each
/// under its key and by the entries it holds.
pub uninterp spec fn ui_node_map_properties(m: IndexMap<u64, UiNode>) -> Seq<(u64, Seq<(Seq<char>, UiValue)>)>;

/// The entries of a node's property map, in insertion order, names by
/// their characters.
pub uninterp spec fn ui_property_items(p: IndexMap<String, UiValue>) -> Seq<(Seq<char>, UiValue)>;

/// `IndexMap::new`: an empty map.
#[verifier::external_body]
pub(crate) fn ui_node_map_new() -> (m: IndexMap<u64, UiNode>)
    ensures
        ui_node_map_items(m) == Seq::<(u64, NodeView)>::empty(),
        ui_node_map_properties(m) == Seq::<(u64, Seq<(Seq<char>, UiValue)>)>::empty(),
{
    IndexMap::new()
}

/// `IndexMap::insert`: the entry for an equal key keeps its place and takes
/// the new value; a new key is appended.
#[verifier::external_body]
pub(crate) fn ui_node_map_insert(m: &mut IndexMap<u64, UiNode>, k: u64, v: UiNode)
    ensures
        ui_node_map_items(*final(m)) == assoc_insert(ui_node_map_items(*old(m)), k, node_view(v)),
        ui_node_map_properties(*final(m)) == assoc_insert(
            ui_node_map_properties(*old(m)),
            k,
            ui_property_items(v.properties),
        ),
{
    m.insert(k, v);
}

/// The entries of the map, in order, each as its key and the node's type
/// and name.
#[verifier::external_body]
pub(crate) fn ui_node_map_entries(m: &IndexMap<u64, UiNode>) -> (r: Vec<(u64, UiNodeType, String)>)
    ensures
        r@.map_values(|e: (u64, UiNodeType, String)| (e.0, (e.1, e.2@))) == ui_node_map_items(*m),
{
    m.iter().map(|(k, v)| (*k, v.node_type.clone(), v.name.clone())).collect()
}

/// `IndexMap::new`: an empty property map for a node.
#[verifier::external_body]
pub(crate) fn ui_properties_new() -> (m: IndexMap<String, UiValue>)
    ensures
        ui_property_items(m) == Seq::<(Seq<char>, UiValue)>::empty(),
{
    IndexMap::new()
}

// ---------------------------------------------------------------------------
// IndexMap<u64, SdbFunction>
// ---------------------------------------------------------------------------

/// The entries of a function table, in insertion order, each record by its
/// view.
pub uninterp spec fn function_table_items(m: IndexMap<u64, SdbFunction>) -> Seq<(u64, FunctionView)>;

/// `IndexMap::get`: a copy of the record at `k`.
#[verifier::external_body]
pub(crate) fn function_table_get(m: &IndexMap<u64, SdbFunction>, k: u64) -> (r: Option<SdbFunction>)
    ensures
        match r {
            Some(f) => assoc_get(function_table_items(*m), k) == Some(function_view(f)),
            None => assoc_get(function_table_items(*m), k) is None,
        },
{
    m.get(&k).cloned()
}

/// `IndexMap::insert`: the entry for an equal key keeps its place and takes
/// the new value; a new key is appended.
#[verifier::external_body]
pub(crate) fn function_table_insert(m: &mut IndexMap<u64, SdbFunction>, k: u64, v: SdbFunction)
    ensures
        function_table_items(*final(m)) == assoc_insert(function_table_items(*old(m)), k, function_view(v)),
{
    m.insert(k, v);
}

/// `IndexMap::contains_key`.
#[verifier::external_body]
pub(crate) fn function_table_contains(m: &IndexMap<u64, SdbFunction>, k: u64) -> (r: bool)
    ensures
        r == assoc_get(function_table_items(*m), k) is Some,
{
    m.contains_key(&k)
}

/// The name of the function at `k`, when there is a record and it has a
/// name.
#[verifier::external_body]
pub(crate) fn function_table_name(m: &IndexMap<u64, SdbFunction>, k: u64) -> (r: Option<String>)
    ensures
        match r {
            Some(n) => assoc_get(function_table_items(*m), k) matches Some(f) && f.0 == Some(n@),
            None => !(assoc_get(function_table_items(*m), k) matches Some(f) && f.0 is Some),
        },
{
    m.get(&k).and_then(|f| f.name.clone())
}

/// The entries of the table, in order, each as its key and a copy of its
/// record.
#[verifier::external_body]
pub(crate) fn function_table_records(m: &IndexMap<u64, SdbFunction>) -> (r: Vec<(u64, SdbFunction)>)
    ensures
        r@.map_values(|e: (u64, SdbFunction)| (e.0, function_view(e.1))) == function_table_items(*m),
{
    m.iter().map(|(k, f)| (*k, f.clone())).collect()
}

/// The entries of the table, in order, each as its key and its record's
/// cross-references.
#[verifier::external_body]
pub(crate) fn function_table_xrefs(m: &IndexMap<u64, SdbFunction>) -> (r: Vec<(u64, Vec<SdbXref>)>)
    ensures
        r@.map_values(|e: (u64, Vec<SdbXref>)| (e.0, e.1@)) == function_table_items(*m).map_values(
            |e: (u64, FunctionView)| (e.0, e.1.1),
        ),
{
    m.iter().map(|(k, f)| (*k, f.xrefs_out.clone())).collect()
}

// ---------------------------------------------------------------------------
// IndexMap<String, ObjectLifetime> and IndexMap<String, HandleLifecycle>
// ---------------------------------------------------------------------------

/// The entries of a map from object identifiers to lifetimes, in insertion
/// order, each lifetime by its view.
pub uninterp spec fn lifetime_map_items(m: IndexMap<String, ObjectLifetime>) -> Seq<(Seq<char>, LifetimeView)>;

/// `IndexMap::new`: an empty map.
#[verifier::external_body]
pub(crate) fn lifetime_map_new() -> (m: IndexMap<String, ObjectLifetime>)
    ensures
        lifetime_map_items(m) == Seq::<(Seq<char>, LifetimeView)>::empty(),
{
    IndexMap::new()
}

/// `IndexMap::insert`: the entry for an equal key keeps its place and takes
/// the new value; a new key is appended.
#[verifier::external_body]
pub(crate) fn lifetime_map_insert(m: &mut IndexMap<String, ObjectLifetime>, k: String, v: ObjectLifetime)
    ensures
        lifetime_map_items(*final(m)) == assoc_insert(lifetime_map_items(*old(m)), k@, lifetime_view(v)),
{
    m.insert(k, v);
}

/// The entries of a map from handle identifiers to handle lifecycles, in
/// insertion order, each lifecycle by its view.
pub uninterp spec fn handle_map_items(m: IndexMap<String, HandleLifecycle>) -> Seq<(Seq<char>, HandleView)>;

/// `IndexMap::new`: an empty map.
#[verifier::external_body]
pub(crate) fn handle_map_new() -> (m: IndexMap<String, HandleLifecycle>)
    ensures
        handle_map_items(m) == Seq::<(Seq<char>, HandleView)>::empty(),
{
    IndexMap::new()
}

/// `IndexMap::insert`: the entry for an equal key keeps its place and takes
/// the new value; a new key is appended.
#[verifier::external_body]
pub(crate) fn handle_map_insert(m: &mut IndexMap<String, HandleLifecycle>, k: String, v: HandleLifecycle)
    ensures
        handle_map_items(*final(m)) == assoc_insert(handle_map_items(*old(m)), k@, handle_view(v)),
{
    m.insert(k, v);
}

// ---------------------------------------------------------------------------
// IndexMap<String, u64>
// ---------------------------------------------------------------------------

/// The entries of a map from strings to `u64`, in insertion order, keys
/// taken as character sequences.
pub uninterp spec fn string_u64_map_items(m: IndexMap<String, u64>) -> Seq<(Seq<char>, u64)>;

/// `IndexMap::new`: an empty map.
#[verifier::external_body]
pub(crate) fn string_u64_map_new() -> (m: IndexMap<String, u64>)
    ensures
        string_u64_map_items(m) == Seq::<(Seq<char>, u64)>::empty(),
{
    IndexMap::new()
}

/// `IndexMap::insert`: the entry for an equal key keeps its place and takes
/// the new value; a new key is appended.
#[verifier::external_body]
pub(crate) fn string_u64_map_insert(m: &mut IndexMap<String, u64>, k: String, v: u64)
    ensures
        string_u64_map_items(*final(m)) == assoc_insert(string_u64_map_items(*old(m)), k@, v),
{
    m.insert(k, v);
}

/// The entries of the map, in order, as `IndexMap::iter` yields them.
#[verifier::external_body]
pub(crate) fn string_u64_map_entries(m: &IndexMap<String, u64>) -> (r: Vec<(String, u64)>)
    ensures
        r@.map_values(|e: (String, u64)| (e.0@, e.1)) == string_u64_map_items(*m),
{
    m.iter().map(|(k, v)| (k.clone(), *v)).collect()
}

// ---------------------------------------------------------------------------
// IndexMap<[u8; 16], ComInterface>
// ---------------------------------------------------------------------------

/// The entries of a map from interface identifiers to interfaces, in
/// insertion order, each interface by its view.
pub uninterp spec fn iid_map_items(m: IndexMap<[u8; 16], ComInterface>) -> Seq<([u8; 16], InterfaceView)>;

/// `IndexMap::new`: an empty map.
#[verifier::external_body]
pub(crate) fn iid_map_new() -> (m: IndexMap<[u8; 16], ComInterface>)
    ensures
        iid_map_items(m) == Seq::<([u8; 16], InterfaceView)>::empty(),
{
    IndexMap::new()
}

/// `IndexMap::insert`: the entry for an equal key keeps its place and takes
/// the new value; a new key is appended.
#[verifier::external_body]
pub(crate) fn iid_map_insert(m: &mut IndexMap<[u8; 16], ComInterface>, k: [u8; 16], v: ComInterface)
    ensures
        iid_map_items(*final(m)) == assoc_insert(iid_map_items(*old(m)), k, interface_view(v)),
{
    m.insert(k, v);
}

/// The entries of the map, in order, as `IndexMap::iter` yields them, each
/// interface cloned field by field.
#[verifier::external_body]
pub(crate) fn iid_map_entries(m: &IndexMap<[u8; 16], ComInterface>) -> (r: Vec<([u8; 16], ComInterface)>)
    ensures
        r@.map_values(|e: ([u8; 16], ComInterface)| (e.0, interface_view(e.1))) == iid_map_items(*m),
{
    m.iter().map(|(k, v)| (*k, v.clone())).collect()
}

} // verus!
