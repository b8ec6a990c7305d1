//! Small facts about sequences used across the library's proofs.

use vstd::prelude::*;

verus! {

/// Appending `y` adds exactly `y` to the set of elements.
pub proof fn lemma_push_to_set<A>(s: Seq<A>, y: A)
    ensures
        s.push(y).to_set() == s.to_set().insert(y),
{
    assert forall|x: A| #[trigger] s.push(y).to_set().contains(x) == s.to_set().insert(y).contains(x) by {
        if s.push(y).contains(x) {
            let k = choose|k: int| 0 <= k < s.push(y).len() && s.push(y)[k] == x;
            if k < s.len() {
                assert(s[k] == x);
            }
        }
        if s.contains(x) {
            let k = choose|k: int| 0 <= k < s.len() && s[k] == x;
            assert(s.push(y)[k] == x);
        }
        if x == y {
            assert(s.push(y)[s.len() as int] == x);
        }
    }
    assert(s.push(y).to_set() =~= s.to_set().insert(y));
}

/// Appending an item that is absent keeps a sequence free of duplicates.
pub proof fn lemma_push_no_dup<A>(s: Seq<A>, y: A)
    requires
        s.no_duplicates(),
        !s.contains(y),
    ensures
        s.push(y).no_duplicates(),
{
    assert forall|i: int, j: int|
        0 <= i < s.push(y).len() && 0 <= j < s.push(y).len() && i != j implies s.push(y)[i]
        != s.push(y)[j] by {
        if i < s.len() && j == s.len() {
            assert(s.contains(s[i]));
        }
        if j < s.len() && i == s.len() {
            assert(s.contains(s[j]));
        }
    };
}

/// Mapping a prefix one item longer appends the image of that item.
pub proof fn lemma_map_take_push<A, B>(s: Seq<A>, f: spec_fn(A) -> B, i: int)
    requires
        0 <= i < s.len(),
    ensures
        s.take(i + 1).map_values(f) == s.take(i).map_values(f).push(f(s[i])),
{
    assert(s.take(i + 1).map_values(f) =~= s.take(i).map_values(f).push(f(s[i])));
}

} // verus!
