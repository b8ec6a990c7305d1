//! A first-in first-out worklist of basic blocks for iterative data-flow
//! analysis, holding each block at most once.

use vstd::prelude::*;
use std::collections::VecDeque;
use indexmap::IndexSet;
use crate::cfg::BlockId;
use crate::collections::{u32_set_insert, u32_set_items, u32_set_new, u32_set_swap_remove};
use crate::seq_facts::lemma_push_to_set;

verus! {

/// A worklist for iterative data-flow analysis.
pub struct Worklist {
    queue: VecDeque<BlockId>,
    in_queue: IndexSet<BlockId>,
}

impl View for Worklist {
    type V = Seq<BlockId>;

    /// The queued blocks, front first.
    closed spec fn view(&self) -> Seq<BlockId> {
        self.queue@
    }
}

proof fn lemma_swap_remove_set(o: Seq<u32>, v: u32)
    requires
        o.no_duplicates(),
        o.contains(v),
    ensures
        o.update(o.index_of(v), o.last()).drop_last().no_duplicates(),
        o.update(o.index_of(v), o.last()).drop_last().to_set() == o.to_set().remove(v),
{
    let i = o.index_of(v);
    let n = o.len();
    let r = o.update(i, o.last()).drop_last();
    assert forall|a: int, b: int| 0 <= a < r.len() && 0 <= b < r.len() && a != b implies r[a] != r[b] by {
        if a == i {
            assert(r[a] == o[n - 1]);
        }
        if b == i {
            assert(r[b] == o[n - 1]);
        }
    }
    assert forall|x: u32| #[trigger] r.to_set().contains(x) == o.to_set().remove(v).contains(x) by {
        if o.contains(x) && x != v {
            let k = o.index_of(x);
            if k == n - 1 {
                assert(r[i] == x);
            } else {
                assert(r[k] == x);
            }
        }
        if r.contains(x) {
            let k = choose|k: int| 0 <= k < r.len() && r[k] == x;
            if k == i {
                assert(o[n - 1] == x);
            } else {
                assert(o[k] == x);
            }
        }
    }
    assert(r.to_set() =~= o.to_set().remove(v));
}

proof fn lemma_drop_first_set(q: Seq<u32>)
    requires
        q.no_duplicates(),
        q.len() > 0,
    ensures
        q.drop_first().no_duplicates(),
        q.drop_first().to_set() == q.to_set().remove(q[0]),
{
    let d = q.drop_first();
    assert forall|x: u32| #[trigger] d.to_set().contains(x) == q.to_set().remove(q[0]).contains(x) by {
        if q.contains(x) && x != q[0] {
            let k = choose|k: int| 0 <= k < q.len() && q[k] == x;
            assert(d[k - 1] == x);
        }
        if d.contains(x) {
            let k = choose|k: int| 0 <= k < d.len() && d[k] == x;
            assert(q[k + 1] == x);
        }
    }
    assert(d.to_set() =~= q.to_set().remove(q[0]));
}

impl Worklist {
    #[verifier::type_invariant]
    spec fn well_formed(self) -> bool {
        &&& self.queue@.no_duplicates()
        &&& u32_set_items(self.in_queue).no_duplicates()
        &&& u32_set_items(self.in_queue).to_set() == self.queue@.to_set()
    }

    /// An empty worklist.
    pub fn new() -> (w: Self)
        ensures
            w@ == Seq::<BlockId>::empty(),
    {
        let w = Worklist { queue: VecDeque::new(), in_queue: u32_set_new() };
        assert(u32_set_items(w.in_queue).to_set() =~= w.queue@.to_set());
        w
    }

    /// Appends `block` unless it is already queued.
    pub fn push(&mut self, block: BlockId)
        ensures
            final(self)@ == (if old(self)@.contains(block) {
                old(self)@
            } else {
                old(self)@.push(block)
            }),
            final(self)@.no_duplicates(),
    {
        proof {
            use_type_invariant(&*self);
        }
        let mut w = Worklist::new();
        std::mem::swap(self, &mut w);
        let Worklist { mut queue, mut in_queue } = w;
        let ghost q0 = queue@;
        let ghost s0 = u32_set_items(in_queue);
        let added = u32_set_insert(&mut in_queue, block);
        if added {
            queue.push_back(block);
        }
        proof {
            if added {
                assert(!q0.to_set().contains(block));
                lemma_push_to_set(q0, block);
                lemma_push_to_set(s0, block);
                assert(u32_set_items(in_queue).to_set() =~= queue@.to_set());
                assert(queue@.no_duplicates()) by {
                    assert forall|a: int, b: int| 0 <= a < queue@.len() && 0 <= b < queue@.len() && a != b implies queue@[a] != queue@[b] by {
                        if a == q0.len() {
                            assert(q0.to_set().contains(q0[b]));
                        }
                        if b == q0.len() {
                            assert(q0.to_set().contains(q0[a]));
                        }
                    }
                }
            } else {
                assert(q0.to_set().contains(block));
            }
        }
        *self = Worklist { queue, in_queue };
    }

    /// Removes and returns the front block, or `None` when empty.
    pub fn pop(&mut self) -> (r: Option<BlockId>)
        ensures
            old(self)@.len() == 0 ==> r is None && final(self)@ == old(self)@,
            old(self)@.len() > 0 ==> r == Some(old(self)@[0]) && final(self)@ == old(self)@.drop_first(),
    {
        proof {
            use_type_invariant(&*self);
        }
        let mut w = Worklist::new();
        std::mem::swap(self, &mut w);
        let Worklist { mut queue, mut in_queue } = w;
        let ghost q0 = queue@;
        let ghost s0 = u32_set_items(in_queue);
        match queue.pop_front() {
            None => {
                *self = Worklist { queue, in_queue };
                None
            },
            Some(b) => {
                proof {
                    assert(q0.to_set().contains(b));
                    assert(s0.to_set().contains(b));
                    lemma_swap_remove_set(s0, b);
                    lemma_drop_first_set(q0);
                }
                u32_set_swap_remove(&mut in_queue, b);
                *self = Worklist { queue, in_queue };
                Some(b)
            },
        }
    }

    /// Whether no block is queued.
    pub fn is_empty(&self) -> (r: bool)
        ensures
            r == (self@.len() == 0),
    {
        self.queue.len() == 0
    }
}

impl Default for Worklist {
    fn default() -> (w: Self)
        ensures
            w@ == Seq::<BlockId>::empty(),
    {
        Self::new()
    }
}

} // verus!
