//! Value-set analysis lattice: integer constants, ranges and small sets,
//! pointer offsets from a known base, and the join and widening operators.

use vstd::prelude::*;
use smallvec::SmallVec;
use indexmap::IndexMap;
use crate::ssa::SsaName;

verus! {

/// The items of a value set, held in a `SmallVec` with room for four
/// items before it spills to the heap.
#[verifier::external_body]
#[derive(Debug, PartialEq, Eq)]
pub struct SmallValues {
    inner: SmallVec<[i64; 4]>,
}

/// The items of a small value vector, in order.
pub uninterp spec fn small_values_items(v: SmallValues) -> Seq<i64>;

/// `SmallVec::from_vec`: a small vector holding the items of `v`.
#[verifier::external_body]
fn small_from_vec(v: Vec<i64>) -> (r: SmallValues)
    ensures
        small_values_items(r) == v@,
{
    SmallValues { inner: SmallVec::from_vec(v) }
}

/// `SmallVec::into_vec`: a vector holding the items of `s`.
#[verifier::external_body]
fn small_into_vec(s: SmallValues) -> (r: Vec<i64>)
    ensures
        r@ == small_values_items(s),
{
    s.inner.into_vec()
}

/// `<[i64]>::to_vec` on the items of `s`: a copy of them.
#[verifier::external_body]
fn small_to_vec(s: &SmallValues) -> (r: Vec<i64>)
    ensures
        r@ == small_values_items(*s),
{
    s.inner.to_vec()
}

impl SmallValues {
    /// A small vector holding the items of `v`.
    pub fn from_vec(v: Vec<i64>) -> (r: SmallValues)
        ensures
            small_values_items(r) == v@,
    {
        small_from_vec(v)
    }

    /// The items, in order.
    pub fn to_vec(&self) -> (r: Vec<i64>)
        ensures
            r@ == small_values_items(*self),
    {
        small_to_vec(self)
    }
}

/// `s` is in ascending order.
pub open spec fn sorted(s: Seq<i64>) -> bool {
    forall|i: int, j: int| 0 <= i <= j < s.len() ==> s[i] <= s[j]
}

/// Sorts `v` into ascending order by insertion.
fn sort_unstable(v: &mut Vec<i64>)
    ensures
        sorted(final(v)@),
        final(v)@.to_multiset() == old(v)@.to_multiset(),
{
    let ghost src = v@;
    let mut out: Vec<i64> = Vec::new();
    let mut i: usize = 0;
    proof {
        assert(src.take(0) =~= Seq::<i64>::empty());
    }
    while i < v.len()
        invariant
            src == v@,
            i <= src.len(),
            sorted(out@),
            out@.to_multiset() == src.take(i as int).to_multiset(),
        decreases src.len() - i,
    {
        let x = v[i];
        let mut j: usize = 0;
        while j < out.len() && out[j] <= x
            invariant
                j <= out@.len(),
                forall|k: int| 0 <= k < j ==> out@[k] <= x,
            decreases out@.len() - j,
        {
            j = j + 1;
        }
        let ghost o0 = out@;
        out.insert(j, x);
        proof {
            vstd::seq_lib::to_multiset_insert(o0, j as int, x);
            assert(src.take(i + 1) =~= src.take(i as int).push(x));
            vstd::seq_lib::to_multiset_build(src.take(i as int), x);
            assert forall|a: int, b: int| 0 <= a <= b < out@.len() implies out@[a] <= out@[b] by {
                if a < j && b < j {
                    assert(out@[a] == o0[a] && out@[b] == o0[b]);
                } else if a < j && b == j {
                } else if a < j {
                    assert(o0[b - 1] >= o0[j as int]);
                } else if a == j && b > j {
                    assert(out@[b] == o0[b - 1]);
                    assert(o0[b - 1] >= o0[j as int]);
                } else if a > j {
                    assert(out@[a] == o0[a - 1] && out@[b] == o0[b - 1]);
                }
            };
        }
        i = i + 1;
    }
    proof {
        assert(src.take(src.len() as int) =~= src);
    }
    *v = out;
}

/// The base a pointer offset is measured from.
#[derive(Debug, Clone, Copy, PartialEq, Eq, Hash, Structural)]
pub enum PtrBase {
    StackFrame,
    ImageBase(u64),
    Heap,
}

/// An abstract value: what a register or memory cell may hold.
#[derive(Debug, PartialEq, Eq)]
pub enum ValueSet {
    Const(i64),
    Top,
    Range { lo: i64, hi: i64 },
    Values(SmallValues),
    PtrOffset { base: PtrBase, offset: i64 },
    Bottom,
}

/// The value sets that value-set analysis settled on, by SSA name.
#[derive(Debug)]
pub struct VsaResult {
    pub values: IndexMap<SsaName, ValueSet>,
}

/// The mathematical content of a [`ValueSet`].
pub enum AbsValue {
    Const(i64),
    Top,
    Range { lo: i64, hi: i64 },
    Values(Seq<i64>),
    PtrOffset { base: PtrBase, offset: i64 },
    Bottom,
}

impl View for ValueSet {
    type V = AbsValue;

    open spec fn view(&self) -> AbsValue {
        match self {
            ValueSet::Const(c) => AbsValue::Const(*c),
            ValueSet::Top => AbsValue::Top,
            ValueSet::Range { lo, hi } => AbsValue::Range { lo: *lo, hi: *hi },
            ValueSet::Values(s) => AbsValue::Values(small_values_items(*s)),
            ValueSet::PtrOffset { base, offset } => AbsValue::PtrOffset { base: *base, offset: *offset },
            ValueSet::Bottom => AbsValue::Bottom,
        }
    }
}

impl Default for ValueSet {
    fn default() -> (v: Self)
        ensures
            v@ == AbsValue::Bottom,
    {
        ValueSet::Bottom
    }
}

/// `s` extended with the items of `t` that it lacks, in `t`'s order.
pub open spec fn merge_new(s: Seq<i64>, t: Seq<i64>) -> Seq<i64>
    decreases t.len(),
{
    if t.len() == 0 {
        s
    } else {
        let m = merge_new(s, t.drop_last());
        if m.contains(t.last()) {
            m
        } else {
            m.push(t.last())
        }
    }
}

/// The value a set of items becomes: a range spanning its first and last
/// item when it has more than four items, the set itself otherwise.
pub open spec fn capped(s: Seq<i64>) -> AbsValue {
    if s.len() > 4 {
        AbsValue::Range { lo: s[0], hi: s.last() }
    } else {
        AbsValue::Values(s)
    }
}

/// `r` is the set value made from the items `s`: capped as is when `sorted`
/// is false, and in ascending order otherwise.
pub open spec fn set_result(r: AbsValue, s: Seq<i64>, needs_sort: bool) -> bool {
    if needs_sort {
        exists|t: Seq<i64>| sorted(t) && t.to_multiset() == s.to_multiset() && r == capped(t)
    } else {
        r == capped(s)
    }
}

/// `r` is the join of `a` and `b`.
pub open spec fn join_result(a: AbsValue, b: AbsValue, r: AbsValue) -> bool {
    if a == b {
        r == a
    } else {
        match (a, b) {
            (AbsValue::Bottom, x) => r == x,
            (x, AbsValue::Bottom) => r == x,
            (AbsValue::Top, _) => r == AbsValue::Top,
            (_, AbsValue::Top) => r == AbsValue::Top,
            (AbsValue::Const(x), AbsValue::Const(y)) => if x == y {
                r == AbsValue::Const(x)
            } else {
                r == AbsValue::Values(seq![if x <= y { x } else { y }, if x <= y { y } else { x }])
            },
            (AbsValue::Const(x), AbsValue::Range { lo, hi }) => r == AbsValue::Range {
                lo: if x <= lo { x } else { lo },
                hi: if x >= hi { x } else { hi },
            },
            (AbsValue::Range { lo, hi }, AbsValue::Const(x)) => r == AbsValue::Range {
                lo: if x <= lo { x } else { lo },
                hi: if x >= hi { x } else { hi },
            },
            (AbsValue::Range { lo: l1, hi: h1 }, AbsValue::Range { lo: l2, hi: h2 }) => r
                == AbsValue::Range {
                lo: if l1 <= l2 { l1 } else { l2 },
                hi: if h1 >= h2 { h1 } else { h2 },
            },
            (AbsValue::Values(s), AbsValue::Const(x)) => if s.contains(x) {
                set_result(r, s, false)
            } else {
                set_result(r, s.push(x), true)
            },
            (AbsValue::Const(x), AbsValue::Values(s)) => if s.contains(x) {
                set_result(r, s, false)
            } else {
                set_result(r, s.push(x), true)
            },
            (AbsValue::Values(s1), AbsValue::Values(s2)) => set_result(r, merge_new(s1, s2), true),
            _ => r == AbsValue::Top,
        }
    }
}

fn vec_contains(v: &Vec<i64>, x: i64) -> (r: bool)
    ensures
        r == v@.contains(x),
{
    let mut i: usize = 0;
    while i < v.len()
        invariant
            i <= v@.len(),
            forall|k: int| 0 <= k < i ==> v@[k] != x,
        decreases v@.len() - i,
    {
        if v[i] == x {
            return true;
        }
        i = i + 1;
    }
    false
}

fn vec_eq(a: &Vec<i64>, b: &Vec<i64>) -> (r: bool)
    ensures
        r == (a@ == b@),
{
    if a.len() != b.len() {
        return false;
    }
    let mut i: usize = 0;
    while i < a.len()
        invariant
            a@.len() == b@.len(),
            i <= a@.len(),
            forall|k: int| 0 <= k < i ==> a@[k] == b@[k],
        decreases a@.len() - i,
    {
        if a[i] != b[i] {
            return false;
        }
        i = i + 1;
    }
    assert(a@ =~= b@);
    true
}

/// The value made from the items `v`: a range when more than four.
fn capped_value(v: Vec<i64>) -> (r: ValueSet)
    ensures
        r@ == capped(v@),
{
    if v.len() > 4 {
        let lo = v[0];
        let hi = v[v.len() - 1];
        ValueSet::Range { lo, hi }
    } else {
        ValueSet::Values(small_from_vec(v))
    }
}

/// Structural equality of two values.
pub fn value_set_eq(a: &ValueSet, b: &ValueSet) -> (r: bool)
    ensures
        r == (a@ == b@),
{
    match (a, b) {
        (ValueSet::Const(x), ValueSet::Const(y)) => *x == *y,
        (ValueSet::Top, ValueSet::Top) => true,
        (ValueSet::Range { lo: l1, hi: h1 }, ValueSet::Range { lo: l2, hi: h2 }) => *l1 == *l2 && *h1
            == *h2,
        (ValueSet::Values(s1), ValueSet::Values(s2)) => {
            let v1 = small_to_vec(s1);
            let v2 = small_to_vec(s2);
            vec_eq(&v1, &v2)
        },
        (ValueSet::PtrOffset { base: b1, offset: o1 }, ValueSet::PtrOffset { base: b2, offset: o2 }) => {
            *b1 == *b2 && *o1 == *o2
        },
        (ValueSet::Bottom, ValueSet::Bottom) => true,
        _ => false,
    }
}

/// A copy of `v`.
pub fn value_set_clone(v: &ValueSet) -> (r: ValueSet)
    ensures
        r@ == v@,
{
    match v {
        ValueSet::Const(c) => ValueSet::Const(*c),
        ValueSet::Top => ValueSet::Top,
        ValueSet::Range { lo, hi } => ValueSet::Range { lo: *lo, hi: *hi },
        ValueSet::Values(s) => ValueSet::Values(small_from_vec(small_to_vec(s))),
        ValueSet::PtrOffset { base, offset } => ValueSet::PtrOffset { base: *base, offset: *offset },
        ValueSet::Bottom => ValueSet::Bottom,
    }
}

impl Clone for ValueSet {
    fn clone(&self) -> (r: Self)
        ensures
            r@ == self@,
    {
        value_set_clone(self)
    }
}

/// Adds `x` to the items `s` (kept as they are when `x` is present,
/// otherwise appended and sorted) and caps the result.
fn join_set_const(s: SmallValues, x: i64) -> (r: ValueSet)
    ensures
        if small_values_items(s).contains(x) {
            set_result(r@, small_values_items(s), false)
        } else {
            set_result(r@, small_values_items(s).push(x), true)
        },
{
    let mut v = small_into_vec(s);
    if !vec_contains(&v, x) {
        v.push(x);
        let ghost unsorted = v@;
        sort_unstable(&mut v);
        let r = capped_value(v);
        assert(sorted(v@) && v@.to_multiset() == unsorted.to_multiset() && r@ == capped(v@));
        r
    } else {
        capped_value(v)
    }
}

impl ValueSet {
    /// The least abstract value covering both `self` and `other`, as this
    /// lattice approximates it.
    pub fn join(self, other: ValueSet) -> (r: ValueSet)
        ensures
            join_result(self@, other@, r@),
    {
        if value_set_eq(&self, &other) {
            return self;
        }
        match (self, other) {
            (ValueSet::Bottom, x) => x,
            (x, ValueSet::Bottom) => x,
            (ValueSet::Top, _) => ValueSet::Top,
            (_, ValueSet::Top) => ValueSet::Top,
            (ValueSet::Const(a), ValueSet::Const(b)) => {
                if a == b {
                    ValueSet::Const(a)
                } else {
                    let mut v: Vec<i64> = Vec::new();
                    v.push(if a <= b { a } else { b });
                    v.push(if a <= b { b } else { a });
                    assert(v@ =~= seq![if a <= b { a } else { b }, if a <= b { b } else { a }]);
                    ValueSet::Values(small_from_vec(v))
                }
            },
            (ValueSet::Const(a), ValueSet::Range { lo, hi }) => ValueSet::Range {
                lo: if a <= lo { a } else { lo },
                hi: if a >= hi { a } else { hi },
            },
            (ValueSet::Range { lo, hi }, ValueSet::Const(a)) => ValueSet::Range {
                lo: if a <= lo { a } else { lo },
                hi: if a >= hi { a } else { hi },
            },
            (ValueSet::Range { lo: lo1, hi: hi1 }, ValueSet::Range { lo: lo2, hi: hi2 }) => {
                ValueSet::Range {
                    lo: if lo1 <= lo2 { lo1 } else { lo2 },
                    hi: if hi1 >= hi2 { hi1 } else { hi2 },
                }
            },
            (ValueSet::Values(s), ValueSet::Const(a)) => join_set_const(s, a),
            (ValueSet::Const(a), ValueSet::Values(s)) => join_set_const(s, a),
            (ValueSet::Values(s1), ValueSet::Values(s2)) => {
                let mut combined = small_into_vec(s1);
                let other_items = small_into_vec(s2);
                let ghost c0 = combined@;
                let mut i: usize = 0;
                while i < other_items.len()
                    invariant
                        i <= other_items@.len(),
                        combined@ == merge_new(c0, other_items@.subrange(0, i as int)),
                    decreases other_items@.len() - i,
                {
                    let x = other_items[i];
                    assert(other_items@.subrange(0, i + 1).drop_last() =~= other_items@.subrange(
                        0,
                        i as int,
                    ));
                    if !vec_contains(&combined, x) {
                        combined.push(x);
                    }
                    i = i + 1;
                }
                assert(other_items@.subrange(0, other_items@.len() as int) =~= other_items@);
                let ghost unsorted = combined@;
                sort_unstable(&mut combined);
                let r = capped_value(combined);
                assert(sorted(combined@) && combined@.to_multiset() == unsorted.to_multiset() && r@
                    == capped(combined@));
                r
            },
            (
                ValueSet::PtrOffset { base: b1, offset: o1 },
                ValueSet::PtrOffset { base: b2, offset: o2 },
            ) => {
                if b1 == b2 && o1 == o2 {
                    ValueSet::PtrOffset { base: b1, offset: o1 }
                } else {
                    ValueSet::Top
                }
            },
            _ => ValueSet::Top,
        }
    }

    /// Widening: `self` when joining `other` adds nothing to it, `Top`
    /// otherwise.
    pub fn widen(self, other: ValueSet) -> (r: ValueSet)
        ensures
            exists|j: AbsValue|
                join_result(self@, other@, j) && r@ == (if j == self@ {
                    self@
                } else {
                    AbsValue::Top
                }),
    {
        let joined = value_set_clone(&self).join(other);
        if !value_set_eq(&joined, &self) {
            ValueSet::Top
        } else {
            self
        }
    }
}

/// A concrete value an abstract value may stand for: an integer, or an
/// offset from a pointer base.
pub enum Concrete {
    Int(i64),
    Ptr(PtrBase, i64),
}

/// The abstract value `v` admits the concrete value `c`.
pub open spec fn covers(v: AbsValue, c: Concrete) -> bool {
    match v {
        AbsValue::Const(x) => c == Concrete::Int(x),
        AbsValue::Top => true,
        AbsValue::Range { lo, hi } => c matches Concrete::Int(i) && lo <= i && i <= hi,
        AbsValue::Values(s) => c matches Concrete::Int(i) && s.contains(i),
        AbsValue::PtrOffset { base, offset } => c == Concrete::Ptr(base, offset),
        AbsValue::Bottom => false,
    }
}

/// `s` is in strictly ascending order, so no item occurs twice.
pub open spec fn strictly_sorted(s: Seq<i64>) -> bool {
    forall|i: int, j: int| 0 <= i < j < s.len() ==> s[i] < s[j]
}

/// A well-formed abstract value: the items of a set are strictly ascending.
pub open spec fn value_wf(v: AbsValue) -> bool {
    match v {
        AbsValue::Values(s) => strictly_sorted(s),
        _ => true,
    }
}

/// The items of `merge_new(s, t)` are those of `s` and of `t`, and it
/// holds no item twice when `s` does not.
proof fn lemma_merge_new(s: Seq<i64>, t: Seq<i64>)
    ensures
        forall|x: i64| merge_new(s, t).contains(x) <==> s.contains(x) || t.contains(x),
        s.no_duplicates() ==> merge_new(s, t).no_duplicates(),
    decreases t.len(),
{
    if t.len() > 0 {
        let r = t.drop_last();
        lemma_merge_new(s, r);
        let m = merge_new(s, r);
        assert(t == r.push(t.last()));
        assert forall|x: i64| t.contains(x) <==> (r.contains(x) || x == t.last()) by {
            if t.contains(x) {
                let k = choose|k: int| 0 <= k < t.len() && t[k] == x;
                if k < r.len() {
                    assert(r[k] == x);
                }
            }
            if r.contains(x) {
                let k = choose|k: int| 0 <= k < r.len() && r[k] == x;
                assert(t[k] == x);
            }
            if x == t.last() {
                assert(t[t.len() - 1] == x);
            }
        };
        let mp = m.push(t.last());
        assert forall|x: i64| mp.contains(x) <==> (m.contains(x) || x == t.last()) by {
            if mp.contains(x) {
                let k = choose|k: int| 0 <= k < mp.len() && mp[k] == x;
                if k < m.len() {
                    assert(m[k] == x);
                }
            }
            if m.contains(x) {
                let k = choose|k: int| 0 <= k < m.len() && m[k] == x;
                assert(mp[k] == x);
            }
            if x == t.last() {
                assert(mp[mp.len() - 1] == x);
            }
        };
        if s.no_duplicates() && !m.contains(t.last()) {
            assert forall|i: int, j: int|
                0 <= i < m.push(t.last()).len() && 0 <= j < m.push(t.last()).len() && i != j
                implies m.push(t.last())[i] != m.push(t.last())[j] by {
                if i < m.len() && j == m.len() {
                    assert(m.contains(m[i]));
                }
                if j < m.len() && i == m.len() {
                    assert(m.contains(m[j]));
                }
            };
        }
    }
}

/// A sorted sequence with the items of a sequence without duplicates is
/// strictly sorted and has the same items.
proof fn lemma_sorted_copy(t: Seq<i64>, s: Seq<i64>)
    requires
        sorted(t),
        t.to_multiset() == s.to_multiset(),
        s.no_duplicates(),
    ensures
        strictly_sorted(t),
        forall|x: i64| t.contains(x) <==> s.contains(x),
{
    broadcast use vstd::seq_lib::group_to_multiset_ensures;

    s.lemma_multiset_has_no_duplicates();
    t.lemma_multiset_has_no_duplicates_conv();
    assert forall|i: int, j: int| 0 <= i < j < t.len() implies t[i] < t[j] by {
        assert(t[i] != t[j]);
    };
    t.to_multiset_ensures();
    s.to_multiset_ensures();
    assert forall|x: i64| t.contains(x) <==> s.contains(x) by {
        assert(t.contains(x) <==> t.to_multiset().count(x) > 0);
        assert(s.contains(x) <==> s.to_multiset().count(x) > 0);
    };
}

/// A capped set value covers every item of its sorted items.
proof fn lemma_capped_covers(t: Seq<i64>, x: i64)
    requires
        sorted(t),
        t.contains(x),
    ensures
        covers(capped(t), Concrete::Int(x)),
{
    if t.len() > 4 {
        let k = choose|k: int| 0 <= k < t.len() && t[k] == x;
        assert(t[0] <= t[k] && t[k] <= t[t.len() - 1]);
    }
}

/// The set value made from the items `s` covers each of them, and is well
/// formed when `s` is strictly ascending or is sorted on the way.
proof fn lemma_set_result(r: AbsValue, s: Seq<i64>, needs_sort: bool)
    requires
        set_result(r, s, needs_sort),
        s.no_duplicates(),
        !needs_sort ==> strictly_sorted(s),
    ensures
        forall|x: i64| s.contains(x) ==> covers(r, Concrete::Int(x)),
        value_wf(r),
{
    if needs_sort {
        let t = choose|t: Seq<i64>|
            sorted(t) && t.to_multiset() == s.to_multiset() && r == capped(t);
        lemma_sorted_copy(t, s);
        assert forall|x: i64| s.contains(x) implies covers(r, Concrete::Int(x)) by {
            lemma_capped_covers(t, x);
        };
    } else {
        assert forall|x: i64| s.contains(x) implies covers(r, Concrete::Int(x)) by {
            lemma_capped_covers(s, x);
        };
    }
}

/// A strictly ascending sequence has no duplicates and is sorted.
proof fn lemma_strict_no_dups(s: Seq<i64>)
    requires
        strictly_sorted(s),
    ensures
        s.no_duplicates(),
        sorted(s),
{
    assert forall|i: int, j: int| 0 <= i < s.len() && 0 <= j < s.len() && i != j implies s[i]
        != s[j] by {
        if i < j {
            assert(s[i] < s[j]);
        } else {
            assert(s[j] < s[i]);
        }
    };
}

/// Join is an upper bound: on well-formed values, the join admits every
/// concrete value either side admits, and is itself well formed.
pub proof fn law_join_covers(a: AbsValue, b: AbsValue, r: AbsValue)
    requires
        value_wf(a),
        value_wf(b),
        join_result(a, b, r),
    ensures
        forall|c: Concrete| covers(a, c) || covers(b, c) ==> covers(r, c),
        value_wf(r),
{
    if a != b {
        match (a, b) {
            (AbsValue::Bottom, _) => {},
            (_, AbsValue::Bottom) => {},
            (AbsValue::Top, _) => {},
            (_, AbsValue::Top) => {},
            (AbsValue::Const(x), AbsValue::Const(y)) => {
                let v = seq![if x <= y { x } else { y }, if x <= y { y } else { x }];
                assert(v[0] == x || v[1] == x);
                assert(v[0] == y || v[1] == y);
            },
            (AbsValue::Values(s), AbsValue::Const(x)) => {
                lemma_strict_no_dups(s);
                if s.contains(x) {
                    lemma_set_result(r, s, false);
                } else {
                    let t = s.push(x);
                    assert forall|i: int, j: int|
                        0 <= i < t.len() && 0 <= j < t.len() && i != j implies t[i] != t[j] by {
                        if i < s.len() && j == s.len() {
                            assert(s.contains(s[i]));
                        }
                        if j < s.len() && i == s.len() {
                            assert(s.contains(s[j]));
                        }
                    };
                    lemma_set_result(r, t, true);
                    assert(t.contains(x)) by {
                        assert(t[t.len() - 1] == x);
                    };
                    assert(covers(r, Concrete::Int(x)));
                    assert forall|c: Concrete| covers(a, c) implies covers(r, c) by {
                        if let Concrete::Int(i) = c {
                            let k = choose|k: int| 0 <= k < s.len() && s[k] == i;
                            assert(t[k] == i);
                            assert(t.contains(i));
                        }
                    };
                }
            },
            (AbsValue::Const(x), AbsValue::Values(s)) => {
                lemma_strict_no_dups(s);
                if s.contains(x) {
                    lemma_set_result(r, s, false);
                } else {
                    let t = s.push(x);
                    assert forall|i: int, j: int|
                        0 <= i < t.len() && 0 <= j < t.len() && i != j implies t[i] != t[j] by {
                        if i < s.len() && j == s.len() {
                            assert(s.contains(s[i]));
                        }
                        if j < s.len() && i == s.len() {
                            assert(s.contains(s[j]));
                        }
                    };
                    lemma_set_result(r, t, true);
                    assert(t.contains(x)) by {
                        assert(t[t.len() - 1] == x);
                    };
                    assert(covers(r, Concrete::Int(x)));
                    assert forall|c: Concrete| covers(b, c) implies covers(r, c) by {
                        if let Concrete::Int(i) = c {
                            let k = choose|k: int| 0 <= k < s.len() && s[k] == i;
                            assert(t[k] == i);
                            assert(t.contains(i));
                        }
                    };
                }
            },
            (AbsValue::Values(s1), AbsValue::Values(s2)) => {
                lemma_strict_no_dups(s1);
                lemma_merge_new(s1, s2);
                lemma_set_result(r, merge_new(s1, s2), true);
            },
            _ => {},
        }
    }
}

/// Widening is an upper bound too: the widened value admits every concrete
/// value either side admits.
pub proof fn law_widen_covers(a: AbsValue, b: AbsValue, r: AbsValue)
    requires
        value_wf(a),
        value_wf(b),
        exists|j: AbsValue|
            join_result(a, b, j) && r == (if j == a {
                a
            } else {
                AbsValue::Top
            }),
    ensures
        forall|c: Concrete| covers(a, c) || covers(b, c) ==> covers(r, c),
{
    let j = choose|j: AbsValue|
        join_result(a, b, j) && r == (if j == a {
            a
        } else {
            AbsValue::Top
        });
    law_join_covers(a, b, j);
}

/// Bottom is the identity of join, on either side.
pub proof fn law_join_bottom_identity(x: AbsValue, r1: AbsValue, r2: AbsValue)
    requires
        join_result(AbsValue::Bottom, x, r1),
        join_result(x, AbsValue::Bottom, r2),
    ensures
        r1 == x,
        r2 == x,
{
}

/// Join is idempotent: a value joined with itself is unchanged.
pub proof fn law_join_idempotent(x: AbsValue, r: AbsValue)
    requires
        join_result(x, x, r),
    ensures
        r == x,
{
}

/// Two sequences without duplicates that hold the same items have the
/// same multiset of items.
proof fn lemma_same_items_multiset(s1: Seq<i64>, s2: Seq<i64>)
    requires
        s1.no_duplicates(),
        s2.no_duplicates(),
        forall|x: i64| s1.contains(x) <==> s2.contains(x),
    ensures
        s1.to_multiset() == s2.to_multiset(),
{
    s1.lemma_multiset_has_no_duplicates();
    s2.lemma_multiset_has_no_duplicates();
    s1.to_multiset_ensures();
    s2.to_multiset_ensures();
    assert forall|x: i64| s1.to_multiset().count(x) == s2.to_multiset().count(x) by {
        assert(s1.contains(x) <==> s1.to_multiset().count(x) > 0);
        assert(s2.contains(x) <==> s2.to_multiset().count(x) > 0);
        if s1.contains(x) {
            assert(s1.to_multiset().contains(x));
            assert(s2.to_multiset().contains(x));
        }
    };
    assert(s1.to_multiset() =~= s2.to_multiset());
}

/// The sorted set value made from the items of two sequences with the same
/// multiset of items is the same.
proof fn lemma_set_result_unique(r1: AbsValue, s1: Seq<i64>, r2: AbsValue, s2: Seq<i64>)
    requires
        set_result(r1, s1, true),
        set_result(r2, s2, true),
        s1.to_multiset() == s2.to_multiset(),
    ensures
        r1 == r2,
{
    let leq = |x: i64, y: i64| x <= y;
    let t1 = choose|t: Seq<i64>| sorted(t) && t.to_multiset() == s1.to_multiset() && r1 == capped(t);
    let t2 = choose|t: Seq<i64>| sorted(t) && t.to_multiset() == s2.to_multiset() && r2 == capped(t);
    assert(vstd::relations::sorted_by(t1, leq));
    assert(vstd::relations::sorted_by(t2, leq));
    assert(vstd::relations::total_ordering(leq));
    vstd::seq_lib::lemma_sorted_unique(t1, t2, leq);
}

/// The items of a set value occur once each (in any order).
pub open spec fn distinct_items(v: AbsValue) -> bool {
    match v {
        AbsValue::Values(s) => s.no_duplicates(),
        _ => true,
    }
}

/// Top absorbs every value under join, on either side.
pub proof fn law_join_top_absorbs(x: AbsValue, r1: AbsValue, r2: AbsValue)
    requires
        join_result(AbsValue::Top, x, r1),
        join_result(x, AbsValue::Top, r2),
    ensures
        r1 == AbsValue::Top,
        r2 == AbsValue::Top,
{
}

/// Join is commutative on values whose set items occur once each, sorted
/// or not.
pub proof fn law_join_commutative(a: AbsValue, b: AbsValue, r1: AbsValue, r2: AbsValue)
    requires
        distinct_items(a),
        distinct_items(b),
        join_result(a, b, r1),
        join_result(b, a, r2),
    ensures
        r1 == r2,
{
    if a != b {
        match (a, b) {
            (AbsValue::Values(s), AbsValue::Const(x)) => {
                if !s.contains(x) {
                    lemma_set_result_unique(r1, s.push(x), r2, s.push(x));
                }
            },
            (AbsValue::Const(x), AbsValue::Values(s)) => {
                if !s.contains(x) {
                    lemma_set_result_unique(r1, s.push(x), r2, s.push(x));
                }
            },
            (AbsValue::Values(s1), AbsValue::Values(s2)) => {
                lemma_merge_new(s1, s2);
                lemma_merge_new(s2, s1);
                assert forall|x: i64| merge_new(s1, s2).contains(x) <==> merge_new(s2, s1).contains(
                    x,
                ) by {
                    assert(merge_new(s1, s2).contains(x) <==> s1.contains(x) || s2.contains(x));
                    assert(merge_new(s2, s1).contains(x) <==> s2.contains(x) || s1.contains(x));
                };
                lemma_same_items_multiset(merge_new(s1, s2), merge_new(s2, s1));
                lemma_set_result_unique(r1, merge_new(s1, s2), r2, merge_new(s2, s1));
            },
            _ => {},
        }
    }
}

/// The sum of `x` and `y`, clamped to the bounds of `i64` where it would
/// overflow.
fn saturating_add(x: i64, y: i64) -> (r: i64)
    ensures
        r == saturating_sum(x, y),
{
    let s = x as i128 + y as i128;
    if s > i64::MAX as i128 {
        i64::MAX
    } else if s < i64::MIN as i128 {
        i64::MIN
    } else {
        s as i64
    }
}

/// `x + y`, clamped to the bounds of `i64`.
pub open spec fn saturating_sum(x: i64, y: i64) -> i64 {
    if x + y > i64::MAX {
        i64::MAX
    } else if x + y < i64::MIN {
        i64::MIN
    } else {
        (x + y) as i64
    }
}

/// The operator of a binary expression, as value-set evaluation
/// distinguishes it.
#[derive(Debug, Clone, Copy, PartialEq, Eq)]
pub enum ValueOp {
    Add,
    Sub,
    Other,
}

/// The abstract value of `l op r`: constants add with wrap-around,
/// pointer offsets move by a constant with wrap-around, and ranges add
/// bound by bound with saturation; anything else is unknown.
pub open spec fn binop_value(op: ValueOp, l: AbsValue, r: AbsValue) -> AbsValue {
    match (op, l, r) {
        (ValueOp::Add, AbsValue::Const(a), AbsValue::Const(b)) => AbsValue::Const(a.wrapping_add(b)),
        (ValueOp::Add, AbsValue::PtrOffset { base, offset }, AbsValue::Const(c)) => AbsValue::PtrOffset {
            base,
            offset: offset.wrapping_add(c),
        },
        (ValueOp::Add, AbsValue::Const(c), AbsValue::PtrOffset { base, offset }) => AbsValue::PtrOffset {
            base,
            offset: offset.wrapping_add(c),
        },
        (ValueOp::Sub, AbsValue::PtrOffset { base, offset }, AbsValue::Const(c)) => AbsValue::PtrOffset {
            base,
            offset: offset.wrapping_sub(c),
        },
        (ValueOp::Add, AbsValue::Range { lo: l1, hi: h1 }, AbsValue::Range { lo: l2, hi: h2 }) => {
            AbsValue::Range { lo: saturating_sum(l1, l2), hi: saturating_sum(h1, h2) }
        },
        (ValueOp::Add, AbsValue::Const(a), AbsValue::Range { lo, hi }) => AbsValue::Range {
            lo: saturating_sum(lo, a),
            hi: saturating_sum(hi, a),
        },
        (ValueOp::Add, AbsValue::Range { lo, hi }, AbsValue::Const(a)) => AbsValue::Range {
            lo: saturating_sum(lo, a),
            hi: saturating_sum(hi, a),
        },
        _ => AbsValue::Top,
    }
}

/// Adding abstract values does not depend on their order.
pub proof fn law_add_commutes(a: AbsValue, b: AbsValue)
    ensures
        binop_value(ValueOp::Add, a, b) == binop_value(ValueOp::Add, b, a),
{
}

/// `r` is the integer `n` brought into `i64` by a multiple of 2^64.
pub open spec fn wraps_to(r: int, n: int) -> bool {
    r == n || r == n - 0x1_0000_0000_0000_0000 || r == n + 0x1_0000_0000_0000_0000
}

/// `v` is a pointer from `base` at offset `n`, wrapped into `i64`.
pub open spec fn pointer_at(v: AbsValue, base: PtrBase, n: int) -> bool {
    match v {
        AbsValue::PtrOffset { base: b, offset: o } => b == base && wraps_to(o as int, n),
        _ => false,
    }
}

/// `v` is the constant `n`, wrapped into `i64`.
pub open spec fn constant_of(v: AbsValue, n: int) -> bool {
    match v {
        AbsValue::Const(r) => wraps_to(r as int, n),
        _ => false,
    }
}

/// A pointer moved by a constant `c` lands `c` bytes further along from the
/// same base: adding `c` gives offset `offset + c` and subtracting gives
/// `offset - c`, each brought back into `i64` by a multiple of 2^64; and
/// subtracting `c` undoes adding it, and adding undoes subtracting.
pub proof fn law_pointer_moves_by_constant(base: PtrBase, offset: i64, c: i64)
    ensures
        pointer_at(
            binop_value(ValueOp::Add, (AbsValue::PtrOffset { base, offset }), AbsValue::Const(c)),
            base,
            offset + c,
        ),
        pointer_at(
            binop_value(ValueOp::Sub, (AbsValue::PtrOffset { base, offset }), AbsValue::Const(c)),
            base,
            offset - c,
        ),
        binop_value(
            ValueOp::Add,
            binop_value(ValueOp::Sub, (AbsValue::PtrOffset { base, offset }), AbsValue::Const(c)),
            AbsValue::Const(c),
        ) == (AbsValue::PtrOffset { base, offset }),
        binop_value(
            ValueOp::Sub,
            binop_value(ValueOp::Add, (AbsValue::PtrOffset { base, offset }), AbsValue::Const(c)),
            AbsValue::Const(c),
        ) == (AbsValue::PtrOffset { base, offset }),
{
}

/// Adding two constants gives their sum, brought back into `i64` by a
/// multiple of 2^64.
pub proof fn law_constants_add(a: i64, b: i64)
    ensures
        constant_of(binop_value(ValueOp::Add, AbsValue::Const(a), AbsValue::Const(b)), a + b),
{
}

/// Evaluates a binary expression over the values of its operands.
pub fn eval_binop(op: ValueOp, left: ValueSet, right: ValueSet) -> (r: ValueSet)
    ensures
        r@ == binop_value(op, left@, right@),
{
    match (op, left, right) {
        (ValueOp::Add, ValueSet::Const(a), ValueSet::Const(b)) => ValueSet::Const(a.wrapping_add(b)),
        (ValueOp::Add, ValueSet::PtrOffset { base, offset }, ValueSet::Const(c)) => {
            ValueSet::PtrOffset { base, offset: offset.wrapping_add(c) }
        },
        (ValueOp::Add, ValueSet::Const(c), ValueSet::PtrOffset { base, offset }) => {
            ValueSet::PtrOffset { base, offset: offset.wrapping_add(c) }
        },
        (ValueOp::Sub, ValueSet::PtrOffset { base, offset }, ValueSet::Const(c)) => {
            ValueSet::PtrOffset { base, offset: offset.wrapping_sub(c) }
        },
        (
            ValueOp::Add,
            ValueSet::Range { lo: lo1, hi: hi1 },
            ValueSet::Range { lo: lo2, hi: hi2 },
        ) => ValueSet::Range { lo: saturating_add(lo1, lo2), hi: saturating_add(hi1, hi2) },
        (ValueOp::Add, ValueSet::Const(a), ValueSet::Range { lo, hi }) => ValueSet::Range {
            lo: saturating_add(lo, a),
            hi: saturating_add(hi, a),
        },
        (ValueOp::Add, ValueSet::Range { lo, hi }, ValueSet::Const(a)) => ValueSet::Range {
            lo: saturating_add(lo, a),
            hi: saturating_add(hi, a),
        },
        _ => ValueSet::Top,
    }
}

/// An indirect call whose targets value-set analysis resolved.
#[derive(Debug)]
pub struct InferredCallTarget {
    pub call_site: u64,
    pub targets: Vec<u64>,
}

/// The items of `s` as addresses.
pub open spec fn as_addresses(s: Seq<i64>) -> Seq<u64> {
    s.map_values(|a: i64| a as u64)
}

/// Resolves the computed call at `call_site` from the value of its target:
/// a constant names one target, a set of values names each of them, and
/// any other value resolves nothing.
pub fn infer_call_target(call_site: u64, val: ValueSet) -> (r: Option<InferredCallTarget>)
    ensures
        match val@ {
            AbsValue::Const(c) => r matches Some(t) && t.call_site == call_site && t.targets@
                == seq![c as u64],
            AbsValue::Values(s) => r matches Some(t) && t.call_site == call_site && t.targets@
                == as_addresses(s),
            _ => r is None,
        },
{
    match val {
        ValueSet::Const(c) => {
            let mut targets = Vec::new();
            targets.push(c as u64);
            assert(targets@ == seq![c as u64]);
            Some(InferredCallTarget { call_site, targets })
        },
        ValueSet::Values(addrs) => {
            let items = small_into_vec(addrs);
            let mut targets: Vec<u64> = Vec::new();
            for i in 0..items.len()
                invariant
                    targets@ == as_addresses(items@.take(i as int)),
            {
                targets.push(items[i] as u64);
                assert(as_addresses(items@.take(i + 1)) == as_addresses(items@.take(i as int)).push(
                    items@[i as int] as u64,
                ));
            }
            assert(items@.take(items@.len() as int) == items@);
            Some(InferredCallTarget { call_site, targets })
        },
        _ => None,
    }
}

} // verus!
