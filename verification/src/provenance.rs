//! Pointer provenance: alias identities, constraints and origins, and the
//! alias lattice that merges what two paths know of a pointer.

use vstd::prelude::*;
use indexmap::IndexSet;
use crate::collections::{
    alias_set_eq, alias_set_extend, alias_set_insert, alias_set_items, alias_set_new, constraint_set_contains,
    constraint_set_eq, constraint_set_insert, constraint_set_into_items, constraint_set_is_empty,
    constraint_set_items, constraint_set_new, set_insert, set_insert_all,
};

verus! {

/// An abstract alias class of pointers.
#[derive(Debug, Clone, Copy, PartialEq, Eq, Hash, Structural)]
pub struct AliasId(pub u32);

/// A property that a tracked pointer must satisfy.
#[derive(Debug, Clone, Copy, PartialEq, Eq, Hash, Structural)]
pub enum PointerConstraint {
    InHeap,
    InRdata,
    Aligned(u8),
    VtableLike,
    StackFrameOffset(i64),
}

/// Where a pointer originates.
#[derive(Debug, Clone, Copy, PartialEq, Eq, Hash, Structural)]
pub enum ProvBase {
    Parameter(usize),
    StackFrame(i64),
    Global(u64),
    ReturnValue(u64),
}

/// What is known of a pointer's aliasing: nothing (`Top`), one alias
/// class, a set of constraints, a set of possible alias classes, or a
/// contradiction (`Bottom`).
#[derive(Debug)]
pub enum AliasState {
    Top,
    Unique(AliasId),
    Constrained(IndexSet<PointerConstraint>),
    MayAlias(IndexSet<AliasId>),
    Bottom,
}

/// A pointer tracked through a function: its origin, its offset from it,
/// and what is known of its aliasing.
#[derive(Debug)]
pub struct TrackedPtr {
    pub base: ProvBase,
    pub offset: i64,
    pub alias: AliasState,
}

/// An alias state with its sets by their items in order.
pub enum StateView {
    Top,
    Unique(AliasId),
    Constrained(Seq<PointerConstraint>),
    MayAlias(Seq<AliasId>),
    Bottom,
}

/// The view of an alias state.
pub open spec fn state_view(s: AliasState) -> StateView {
    match s {
        AliasState::Top => StateView::Top,
        AliasState::Unique(a) => StateView::Unique(a),
        AliasState::Constrained(c) => StateView::Constrained(constraint_set_items(c)),
        AliasState::MayAlias(m) => StateView::MayAlias(alias_set_items(m)),
        AliasState::Bottom => StateView::Bottom,
    }
}

/// Two states are equal as alias states compare: the same variant, with
/// the same alias class or the same items in any order.
pub open spec fn same_state(a: StateView, b: StateView) -> bool {
    match (a, b) {
        (StateView::Top, StateView::Top) => true,
        (StateView::Unique(x), StateView::Unique(y)) => x == y,
        (StateView::Constrained(x), StateView::Constrained(y)) => x.to_set() == y.to_set(),
        (StateView::MayAlias(x), StateView::MayAlias(y)) => x.to_set() == y.to_set(),
        (StateView::Bottom, StateView::Bottom) => true,
        _ => false,
    }
}

/// The items of `a` that `b` also holds, in the order of `a`.
pub open spec fn common_items<T>(a: Seq<T>, b: Seq<T>) -> Seq<T>
    decreases a.len(),
{
    if a.len() == 0 {
        Seq::empty()
    } else {
        let prev = common_items(a.drop_last(), b);
        if b.contains(a.last()) {
            set_insert(prev, a.last())
        } else {
            prev
        }
    }
}

/// The merge of two alias states: `Top` yields to anything, `Bottom`
/// absorbs anything else, equal states stay; two alias classes, or classes
/// and sets of classes, make the set of them all; two constraint sets keep
/// their common constraints (`Top` when there are none); anything else is
/// `Top`.
pub open spec fn merged(a: StateView, b: StateView) -> StateView {
    match (a, b) {
        (StateView::Top, t) => t,
        (t, StateView::Top) => t,
        (StateView::Bottom, _) => StateView::Bottom,
        (_, StateView::Bottom) => StateView::Bottom,
        _ => if same_state(a, b) {
            a
        } else {
            match (a, b) {
                (StateView::Unique(x), StateView::Unique(y)) => StateView::MayAlias(set_insert(seq![x], y)),
                (StateView::Unique(u), StateView::MayAlias(m)) => StateView::MayAlias(set_insert(m, u)),
                (StateView::MayAlias(m), StateView::Unique(u)) => StateView::MayAlias(set_insert(m, u)),
                (StateView::MayAlias(x), StateView::MayAlias(y)) => StateView::MayAlias(set_insert_all(x, y)),
                (StateView::Constrained(x), StateView::Constrained(y)) => {
                    let c = common_items(x, y);
                    if c.len() == 0 {
                        StateView::Top
                    } else {
                        StateView::Constrained(c)
                    }
                },
                _ => StateView::Top,
            }
        },
    }
}

/// Whether two alias states are equal.
fn state_eq(a: &AliasState, b: &AliasState) -> (r: bool)
    ensures
        r == same_state(state_view(*a), state_view(*b)),
{
    match (a, b) {
        (AliasState::Top, AliasState::Top) => true,
        (AliasState::Unique(x), AliasState::Unique(y)) => x.0 == y.0,
        (AliasState::Constrained(x), AliasState::Constrained(y)) => constraint_set_eq(x, y),
        (AliasState::MayAlias(x), AliasState::MayAlias(y)) => alias_set_eq(x, y),
        (AliasState::Bottom, AliasState::Bottom) => true,
        _ => false,
    }
}

/// The constraints of `a` that `b` also holds.
fn common_constraints(a: IndexSet<PointerConstraint>, b: &IndexSet<PointerConstraint>) -> (r: IndexSet<PointerConstraint>)
    ensures
        constraint_set_items(r) == common_items(constraint_set_items(a), constraint_set_items(*b)),
{
    let ghost xs = constraint_set_items(a);
    let items = constraint_set_into_items(a);
    let mut out = constraint_set_new();
    for k in 0..items.len()
        invariant
            items@ == xs,
            constraint_set_items(out) == common_items(xs.take(k as int), constraint_set_items(*b)),
    {
        let c = items[k];
        proof {
            assert(xs.take(k + 1).drop_last() =~= xs.take(k as int));
        }
        if constraint_set_contains(b, c) {
            constraint_set_insert(&mut out, c);
        }
    }
    proof {
        assert(xs.take(xs.len() as int) =~= xs);
    }
    out
}

impl AliasState {
    /// The merge of two alias states (see `merged`).
    pub fn merge(self, other: AliasState) -> (r: AliasState)
        ensures
            state_view(r) == merged(state_view(self), state_view(other)),
    {
        let ghost a = state_view(self);
        let ghost b = state_view(other);
        match (self, other) {
            (AliasState::Top, t) => t,
            (t, AliasState::Top) => t,
            (AliasState::Bottom, _) => AliasState::Bottom,
            (_, AliasState::Bottom) => AliasState::Bottom,
            (x, y) => {
                if state_eq(&x, &y) {
                    x
                } else {
                    match (x, y) {
                        (AliasState::Unique(p), AliasState::Unique(q)) => {
                            let mut set = alias_set_new();
                            alias_set_insert(&mut set, p);
                            alias_set_insert(&mut set, q);
                            proof {
                                assert(set_insert(Seq::<AliasId>::empty(), p) =~= seq![p]);
                            }
                            AliasState::MayAlias(set)
                        },
                        (AliasState::Unique(u), AliasState::MayAlias(m)) => {
                            let mut m = m;
                            alias_set_insert(&mut m, u);
                            AliasState::MayAlias(m)
                        },
                        (AliasState::MayAlias(m), AliasState::Unique(u)) => {
                            let mut m = m;
                            alias_set_insert(&mut m, u);
                            AliasState::MayAlias(m)
                        },
                        (AliasState::MayAlias(p), AliasState::MayAlias(q)) => {
                            let mut p = p;
                            alias_set_extend(&mut p, q);
                            AliasState::MayAlias(p)
                        },
                        (AliasState::Constrained(p), AliasState::Constrained(q)) => {
                            let c = common_constraints(p, &q);
                            if constraint_set_is_empty(&c) {
                                AliasState::Top
                            } else {
                                AliasState::Constrained(c)
                            }
                        },
                        _ => AliasState::Top,
                    }
                }
            },
        }
    }
}

/// `Top` is the identity of the merge: merging it with any state, on
/// either side, gives that state.
pub proof fn law_merge_top_identity(t: StateView)
    ensures
        merged(StateView::Top, t) == t,
        merged(t, StateView::Top) == t,
{
}

/// `Bottom` absorbs every state but `Top`.
pub proof fn law_merge_bottom_absorbs(t: StateView)
    requires
        !(t is Top),
    ensures
        merged(StateView::Bottom, t) == StateView::Bottom,
        merged(t, StateView::Bottom) == StateView::Bottom,
{
}

/// Merging a state with itself gives the state back.
pub proof fn law_merge_idempotent(a: StateView)
    ensures
        merged(a, a) == a,
{
}

/// Inserting into a sequence of items adds the item to its set.
proof fn lemma_set_insert_to_set<T>(s: Seq<T>, x: T)
    ensures
        set_insert(s, x).to_set() == s.to_set().insert(x),
{
    if s.contains(x) {
        assert(s.to_set().insert(x) =~= s.to_set());
    } else {
        assert(s.push(x).to_set() =~= s.to_set().insert(x)) by {
            assert forall|y: T| s.push(x).to_set().contains(y) implies s.to_set().insert(x).contains(y) by {
                let i = choose|i: int| 0 <= i < s.push(x).len() && s.push(x)[i] == y;
                if i < s.len() {
                    assert(s[i] == y);
                }
            };
            assert forall|y: T| s.to_set().insert(x).contains(y) implies s.push(x).to_set().contains(y) by {
                if y == x {
                    assert(s.push(x)[s.len() as int] == x);
                } else {
                    let i = choose|i: int| 0 <= i < s.len() && s[i] == y;
                    assert(s.push(x)[i] == y);
                }
            };
        };
    }
}

/// Inserting many items adds their set.
proof fn lemma_set_insert_all_to_set<T>(s: Seq<T>, xs: Seq<T>)
    ensures
        set_insert_all(s, xs).to_set() == s.to_set().union(xs.to_set()),
    decreases xs.len(),
{
    if xs.len() == 0 {
        assert(s.to_set().union(xs.to_set()) =~= s.to_set());
    } else {
        lemma_set_insert_all_to_set(s, xs.drop_last());
        lemma_set_insert_to_set(set_insert_all(s, xs.drop_last()), xs.last());
        assert(xs.to_set() =~= xs.drop_last().to_set().insert(xs.last())) by {
            assert(xs =~= xs.drop_last().push(xs.last()));
            lemma_set_insert_to_set(xs.drop_last(), xs.last());
            if !xs.drop_last().contains(xs.last()) {
                assert(set_insert(xs.drop_last(), xs.last()) == xs);
            } else {
                assert forall|y: T| xs.to_set().contains(y) implies xs.drop_last().to_set().insert(xs.last()).contains(
                    y,
                ) by {
                    let i = choose|i: int| 0 <= i < xs.len() && xs[i] == y;
                    if i < xs.len() - 1 {
                        assert(xs.drop_last()[i] == y);
                    }
                };
                assert forall|y: T| xs.drop_last().to_set().insert(xs.last()).contains(y) implies xs.to_set().contains(
                    y,
                ) by {
                    if y == xs.last() {
                        assert(xs[xs.len() - 1] == y);
                    } else {
                        let i = choose|i: int| 0 <= i < xs.drop_last().len() && xs.drop_last()[i] == y;
                        assert(xs[i] == y);
                    }
                };
            }
        };
        assert(set_insert_all(s, xs).to_set() =~= s.to_set().union(xs.to_set()));
    }
}

/// The common items are the intersection of the sets.
proof fn lemma_common_items_to_set<T>(a: Seq<T>, b: Seq<T>)
    ensures
        common_items(a, b).to_set() == a.to_set().intersect(b.to_set()),
    decreases a.len(),
{
    if a.len() == 0 {
        assert(a.to_set().intersect(b.to_set()) =~= Set::<T>::empty());
        assert(common_items(a, b).to_set() =~= Set::<T>::empty());
    } else {
        let init = a.drop_last();
        let x = a.last();
        lemma_common_items_to_set(init, b);
        lemma_set_insert_to_set(common_items(init, b), x);
        assert(a.to_set() =~= init.to_set().insert(x)) by {
            assert forall|y: T| a.to_set().contains(y) implies init.to_set().insert(x).contains(y) by {
                let i = choose|i: int| 0 <= i < a.len() && a[i] == y;
                if i < a.len() - 1 {
                    assert(init[i] == y);
                }
            };
            assert forall|y: T| init.to_set().insert(x).contains(y) implies a.to_set().contains(y) by {
                if y == x {
                    assert(a[a.len() - 1] == y);
                } else {
                    let i = choose|i: int| 0 <= i < init.len() && init[i] == y;
                    assert(a[i] == y);
                }
            };
        };
        if b.contains(x) {
            assert(b.to_set().contains(x));
        } else {
            assert(!b.to_set().contains(x));
        }
        assert(common_items(a, b).to_set() =~= a.to_set().intersect(b.to_set()));
    }
}

/// The merge is commutative as alias states compare: merging in either
/// order gives the same alias class, or the same items in some order.
pub proof fn law_merge_commutative(a: StateView, b: StateView)
    ensures
        same_state(merged(a, b), merged(b, a)),
{
    match (a, b) {
        (StateView::Unique(x), StateView::Unique(y)) => {
            if x != y {
                lemma_set_insert_to_set(seq![x], y);
                lemma_set_insert_to_set(seq![y], x);
                assert(seq![x].to_set() =~= set![x]) by {
                    assert(seq![x][0] == x);
                };
                assert(seq![y].to_set() =~= set![y]) by {
                    assert(seq![y][0] == y);
                };
                assert(set![x].insert(y) =~= set![y].insert(x));
            }
        },
        (StateView::MayAlias(x), StateView::MayAlias(y)) => {
            if x.to_set() != y.to_set() {
                lemma_set_insert_all_to_set(x, y);
                lemma_set_insert_all_to_set(y, x);
                assert(x.to_set().union(y.to_set()) =~= y.to_set().union(x.to_set()));
            }
        },
        (StateView::Constrained(x), StateView::Constrained(y)) => {
            if x.to_set() != y.to_set() {
                lemma_common_items_to_set(x, y);
                lemma_common_items_to_set(y, x);
                assert(x.to_set().intersect(y.to_set()) =~= y.to_set().intersect(x.to_set()));
                let c1 = common_items(x, y);
                let c2 = common_items(y, x);
                if c1.len() == 0 {
                    assert(c1.to_set() =~= Set::<PointerConstraint>::empty());
                    if c2.len() > 0 {
                        assert(c2.to_set().contains(c2[0]));
                    }
                }
                if c2.len() == 0 {
                    assert(c2.to_set() =~= Set::<PointerConstraint>::empty());
                    if c1.len() > 0 {
                        assert(c1.to_set().contains(c1[0]));
                    }
                }
            }
        },
        _ => {},
    }
}

} // verus!
