//! Pass scheduler: determines the execution order of analysis passes.
//!
//! Passes declare the facts they require and the facts they provide. The
//! scheduler repeatedly sweeps the remaining passes in their given order,
//! scheduling every pass whose requirements are already available, until
//! all passes are placed or a sweep makes no progress.

use vstd::prelude::*;
use crate::text::str_eq;
use crate::seq_facts::lemma_push_to_set;

pub mod facts;

verus! {

/// A tag identifying a fact produced or consumed by a pass.
#[derive(Debug, Clone, PartialEq, Eq, Hash)]
pub struct FactTag(pub &'static str);

impl View for FactTag {
    type V = Seq<char>;

    open spec fn view(&self) -> Seq<char> {
        self.0@
    }
}

/// Metadata about an analysis pass for scheduling purposes.
#[derive(Debug, Clone)]
pub struct PassDescriptor {
    pub name: &'static str,
    pub requires: Vec<FactTag>,
    pub provides: Vec<FactTag>,
}

/// Why a set of passes could not be scheduled.
#[derive(Debug, Clone, PartialEq, Eq)]
pub enum ScheduleError {
    /// `pass` requires `fact`, which is neither available nor provided by
    /// any pass that is still waiting.
    MissingFact { pass: &'static str, fact: &'static str },
    /// The waiting passes depend on each other in a cycle.
    Cycle,
}

/// The characters of each tag.
pub open spec fn fact_names(fs: Seq<FactTag>) -> Seq<Seq<char>> {
    fs.map_values(|f: FactTag| f@)
}

/// The facts that `p` provides, as a set.
pub open spec fn provides_set(p: PassDescriptor) -> Set<Seq<char>> {
    fact_names(p.provides@).to_set()
}

/// Every requirement of `p` is in `avail`.
pub open spec fn ready(p: PassDescriptor, avail: Set<Seq<char>>) -> bool {
    forall|j: int| 0 <= j < p.requires@.len() ==> avail.contains(#[trigger] p.requires@[j]@)
}

/// The facts provided by the passes `order` (indices into `passes`).
pub open spec fn provided(passes: Seq<PassDescriptor>, order: Seq<usize>) -> Set<Seq<char>>
    decreases order.len(),
{
    if order.len() == 0 {
        Set::empty()
    } else {
        provided(passes, order.drop_last()).union(provides_set(passes[order.last() as int]))
    }
}

/// One sweep over the first `k` waiting passes `rem`, starting from the
/// available facts `avail`: the passes scheduled, the passes kept waiting
/// and the facts available afterwards.
pub open spec fn sweep(
    passes: Seq<PassDescriptor>,
    rem: Seq<usize>,
    avail: Set<Seq<char>>,
    k: nat,
) -> (Seq<usize>, Seq<usize>, Set<Seq<char>>)
    decreases k,
{
    if k == 0 {
        (seq![], seq![], avail)
    } else {
        let (s, l, a) = sweep(passes, rem, avail, (k - 1) as nat);
        let p = rem[k - 1];
        if ready(passes[p as int], a) {
            (s.push(p), l, a.union(provides_set(passes[p as int])))
        } else {
            (s, l.push(p), a)
        }
    }
}

/// The result of scheduling, in terms of indices into the pass list.
pub enum Outcome {
    /// The passes in execution order.
    Ordered(Seq<usize>),
    /// Pass `pass` misses its requirement number `fact`.
    Missing(usize, int),
    /// No progress is possible and no requirement is missing outright.
    Stuck,
}

/// Some pass among `rem` provides fact `f`.
pub open spec fn provided_by(passes: Seq<PassDescriptor>, rem: Seq<usize>, f: Seq<char>) -> bool {
    exists|i: int, j: int|
        0 <= i < rem.len() && 0 <= j < passes[rem[i] as int].provides@.len()
            && #[trigger] passes[rem[i] as int].provides@[j]@ == f
}

/// Fact `f` is missing: not available and not provided by any waiting pass.
pub open spec fn missing(
    passes: Seq<PassDescriptor>,
    rem: Seq<usize>,
    avail: Set<Seq<char>>,
    f: Seq<char>,
) -> bool {
    !avail.contains(f) && !provided_by(passes, rem, f)
}

/// The first requirement of `p`, from number `j` on, that is missing.
pub open spec fn first_missing_fact(
    passes: Seq<PassDescriptor>,
    rem: Seq<usize>,
    avail: Set<Seq<char>>,
    p: PassDescriptor,
    j: int,
) -> Option<int>
    decreases p.requires@.len() - j,
{
    if j < 0 || j >= p.requires@.len() {
        None
    } else if missing(passes, rem, avail, p.requires@[j]@) {
        Some(j)
    } else {
        first_missing_fact(passes, rem, avail, p, j + 1)
    }
}

/// The outcome when a sweep over `rem` makes no progress: the first waiting
/// pass (from position `i` on) with a missing requirement, if any.
pub open spec fn stuck_outcome(
    passes: Seq<PassDescriptor>,
    rem: Seq<usize>,
    avail: Set<Seq<char>>,
    i: int,
) -> Outcome
    decreases rem.len() - i,
{
    if i < 0 || i >= rem.len() {
        Outcome::Stuck
    } else {
        match first_missing_fact(passes, rem, avail, passes[rem[i] as int], 0) {
            Some(j) => Outcome::Missing(rem[i], j),
            None => stuck_outcome(passes, rem, avail, i + 1),
        }
    }
}

pub proof fn lemma_stuck_not_ordered(
    passes: Seq<PassDescriptor>,
    rem: Seq<usize>,
    avail: Set<Seq<char>>,
    i: int,
)
    ensures
        !(stuck_outcome(passes, rem, avail, i) is Ordered),
    decreases rem.len() - i,
{
    if 0 <= i < rem.len() {
        lemma_stuck_not_ordered(passes, rem, avail, i + 1);
    }
}

/// Prefixes an ordered outcome with `o`; errors pass through.
pub open spec fn prepend(o: Seq<usize>, out: Outcome) -> Outcome {
    match out {
        Outcome::Ordered(x) => Outcome::Ordered(o + x),
        _ => out,
    }
}

pub proof fn lemma_sweep_len(
    passes: Seq<PassDescriptor>,
    rem: Seq<usize>,
    avail: Set<Seq<char>>,
    k: nat,
)
    ensures
        sweep(passes, rem, avail, k).0.len() + sweep(passes, rem, avail, k).1.len() == k,
    decreases k,
{
    if k > 0 {
        lemma_sweep_len(passes, rem, avail, (k - 1) as nat);
    }
}

pub proof fn lemma_sweep_none(
    passes: Seq<PassDescriptor>,
    rem: Seq<usize>,
    avail: Set<Seq<char>>,
    k: nat,
)
    ensures
        sweep(passes, rem, avail, k).0.len() == 0 ==> sweep(passes, rem, avail, k).2 == avail,
    decreases k,
{
    if k > 0 {
        lemma_sweep_none(passes, rem, avail, (k - 1) as nat);
    }
}

/// Schedules the waiting passes `rem` given the available facts `avail`.
pub open spec fn outcome(
    passes: Seq<PassDescriptor>,
    rem: Seq<usize>,
    avail: Set<Seq<char>>,
) -> Outcome
    decreases rem.len(),
{
    if rem.len() == 0 {
        Outcome::Ordered(seq![])
    } else {
        let (s, l, a) = sweep(passes, rem, avail, rem.len());
        if s.len() == 0 {
            stuck_outcome(passes, rem, avail, 0)
        } else {
            proof {
                lemma_sweep_len(passes, rem, avail, rem.len());
            }
            prepend(s, outcome(passes, l, a))
        }
    }
}

/// All pass indices `0..n`, in order.
pub open spec fn all_indices(n: nat) -> Seq<usize> {
    Seq::new(n, |i: int| i as usize)
}

/// The outcome of scheduling `passes` from the initial facts `initial`.
pub open spec fn schedule_outcome(passes: Seq<PassDescriptor>, initial: Seq<FactTag>) -> Outcome {
    outcome(passes, all_indices(passes.len()), fact_names(initial).to_set())
}

/// `r` is the executable result that corresponds to `out`.
pub open spec fn result_matches(
    passes: Seq<PassDescriptor>,
    r: Result<Vec<&'static str>, ScheduleError>,
    out: Outcome,
) -> bool {
    match (r, out) {
        (Ok(v), Outcome::Ordered(o)) => v@.len() == o.len() && forall|i: int|
            0 <= i < o.len() ==> #[trigger] v@[i]@ == passes[o[i] as int].name@,
        (Err(ScheduleError::MissingFact { pass, fact }), Outcome::Missing(p, j)) => {
            &&& 0 <= p < passes.len()
            &&& 0 <= j < passes[p as int].requires@.len()
            &&& pass@ == passes[p as int].name@
            &&& fact@ == passes[p as int].requires@[j]@
        },
        (Err(ScheduleError::Cycle), Outcome::Stuck) => true,
        _ => false,
    }
}

/// Returns whether `f` is among the facts `v`.
fn fact_in(v: &Vec<FactTag>, f: &FactTag) -> (r: bool)
    ensures
        r == fact_names(v@).contains(f@),
{
    let mut i: usize = 0;
    while i < v.len()
        invariant
            i <= v@.len(),
            forall|k: int| 0 <= k < i ==> v@[k]@ != f@,
        decreases v@.len() - i,
    {
        if str_eq(v[i].0, f.0) {
            assert(fact_names(v@)[i as int] == f@);
            return true;
        }
        i = i + 1;
    }
    assert(!fact_names(v@).contains(f@)) by {
        if fact_names(v@).contains(f@) {
            let k = choose|k: int| 0 <= k < fact_names(v@).len() && fact_names(v@)[k] == f@;
            assert(v@[k]@ == f@);
        }
    }
    false
}

/// Appends copies of the facts `src` to `dst`.
fn add_facts(dst: &mut Vec<FactTag>, src: &Vec<FactTag>)
    ensures
        fact_names(final(dst)@).to_set() == fact_names(old(dst)@).to_set().union(
            fact_names(src@).to_set(),
        ),
{
    let mut j: usize = 0;
    while j < src.len()
        invariant
            j <= src@.len(),
            fact_names(dst@).to_set() == fact_names(old(dst)@).to_set().union(
                fact_names(src@.subrange(0, j as int)).to_set(),
            ),
        decreases src@.len() - j,
    {
        let ghost before = dst@;
        dst.push(FactTag(src[j].0));
        assert(fact_names(dst@) =~= fact_names(before).push(src@[j as int]@));
        assert(fact_names(src@.subrange(0, j + 1)) =~= fact_names(src@.subrange(0, j as int)).push(
            src@[j as int]@,
        ));
        proof {
            lemma_push_to_set(fact_names(before), src@[j as int]@);
            lemma_push_to_set(fact_names(src@.subrange(0, j as int)), src@[j as int]@);
        }
        assert(fact_names(dst@).to_set() =~= fact_names(old(dst)@).to_set().union(
            fact_names(src@.subrange(0, j + 1)).to_set(),
        ));
        j = j + 1;
    }
    assert(src@.subrange(0, src@.len() as int) =~= src@);
}

/// Returns whether every requirement of `p` is among `avail`.
fn is_ready(p: &PassDescriptor, avail: &Vec<FactTag>) -> (r: bool)
    ensures
        r == ready(*p, fact_names(avail@).to_set()),
{
    let mut j: usize = 0;
    while j < p.requires.len()
        invariant
            j <= p.requires@.len(),
            forall|k: int| 0 <= k < j ==> fact_names(avail@).to_set().contains(#[trigger] p.requires@[k]@),
        decreases p.requires@.len() - j,
    {
        if !fact_in(avail, &p.requires[j]) {
            return false;
        }
        j = j + 1;
    }
    true
}

/// Returns whether any of the passes `rem` provides `f`.
fn provided_by_any(passes: &[PassDescriptor], rem: &Vec<usize>, f: &FactTag) -> (r: bool)
    requires
        forall|i: int| 0 <= i < rem@.len() ==> #[trigger] rem@[i] < passes@.len(),
    ensures
        r == provided_by(passes@, rem@, f@),
{
    let mut i: usize = 0;
    while i < rem.len()
        invariant
            i <= rem@.len(),
            forall|k: int| 0 <= k < rem@.len() ==> #[trigger] rem@[k] < passes@.len(),
            forall|a: int, b: int|
                0 <= a < i && 0 <= b < passes@[rem@[a] as int].provides@.len() ==>
                    #[trigger] passes@[rem@[a] as int].provides@[b]@ != f@,
        decreases rem@.len() - i,
    {
        let p = &passes[rem[i]];
        if fact_in(&p.provides, f) {
            let ghost b = choose|b: int| 0 <= b < fact_names(p.provides@).len() && fact_names(p.provides@)[b] == f@;
            assert(passes@[rem@[i as int] as int].provides@[b]@ == f@);
            return true;
        }
        assert forall|b: int| 0 <= b < passes@[rem@[i as int] as int].provides@.len() implies
            #[trigger] passes@[rem@[i as int] as int].provides@[b]@ != f@ by {
            if passes@[rem@[i as int] as int].provides@[b]@ == f@ {
                assert(fact_names(p.provides@)[b] == f@);
            }
        }
        i = i + 1;
    }
    false
}

/// The error for a sweep over `rem` that made no progress.
fn stuck_error(passes: &[PassDescriptor], rem: &Vec<usize>, avail: &Vec<FactTag>) -> (r:
    ScheduleError)
    requires
        forall|i: int| 0 <= i < rem@.len() ==> #[trigger] rem@[i] < passes@.len(),
    ensures
        result_matches(
            passes@,
            Err(r),
            stuck_outcome(passes@, rem@, fact_names(avail@).to_set(), 0),
        ),
{
    let ghost av = fact_names(avail@).to_set();
    let mut i: usize = 0;
    while i < rem.len()
        invariant
            i <= rem@.len(),
            av == fact_names(avail@).to_set(),
            forall|k: int| 0 <= k < rem@.len() ==> #[trigger] rem@[k] < passes@.len(),
            stuck_outcome(passes@, rem@, av, 0) == stuck_outcome(passes@, rem@, av, i as int),
        decreases rem@.len() - i,
    {
        let p = &passes[rem[i]];
        let mut j: usize = 0;
        while j < p.requires.len()
            invariant
                j <= p.requires@.len(),
                av == fact_names(avail@).to_set(),
                forall|k: int| 0 <= k < rem@.len() ==> #[trigger] rem@[k] < passes@.len(),
                stuck_outcome(passes@, rem@, av, 0) == stuck_outcome(passes@, rem@, av, i as int),
                i < rem@.len(),
                *p == passes@[rem@[i as int] as int],
                first_missing_fact(passes@, rem@, av, *p, 0) == first_missing_fact(
                    passes@,
                    rem@,
                    av,
                    *p,
                    j as int,
                ),
            decreases p.requires@.len() - j,
        {
            let f = &p.requires[j];
            if !fact_in(avail, f) && !provided_by_any(passes, rem, f) {
                assert(missing(passes@, rem@, av, p.requires@[j as int]@));
                assert(first_missing_fact(passes@, rem@, av, *p, j as int) == Some(j as int));
                return ScheduleError::MissingFact { pass: p.name, fact: f.0 };
            }
            assert(!missing(passes@, rem@, av, p.requires@[j as int]@));
            assert(first_missing_fact(passes@, rem@, av, *p, j as int) == first_missing_fact(passes@, rem@, av, *p, j + 1));
            j = j + 1;
        }
        i = i + 1;
    }
    ScheduleError::Cycle
}

/// Orders `passes` so that each pass runs after the facts it requires are
/// available, starting from `initial_facts`.
pub fn schedule(passes: &[PassDescriptor], initial_facts: &[FactTag]) -> (r: Result<
    Vec<&'static str>,
    ScheduleError,
>)
    ensures
        result_matches(passes@, r, schedule_outcome(passes@, initial_facts@)),
{
    let n = passes.len();
    let mut avail: Vec<FactTag> = Vec::new();
    let mut k: usize = 0;
    while k < initial_facts.len()
        invariant
            k <= initial_facts@.len(),
            fact_names(avail@) == fact_names(initial_facts@.subrange(0, k as int)),
        decreases initial_facts@.len() - k,
    {
        avail.push(FactTag(initial_facts[k].0));
        assert(fact_names(initial_facts@.subrange(0, k + 1)) =~= fact_names(
            initial_facts@.subrange(0, k as int),
        ).push(initial_facts@[k as int]@));
        assert(fact_names(avail@) =~= fact_names(initial_facts@.subrange(0, k + 1)));
        k = k + 1;
    }
    assert(initial_facts@.subrange(0, initial_facts@.len() as int) =~= initial_facts@);

    let mut remaining: Vec<usize> = Vec::new();
    let mut k: usize = 0;
    while k < n
        invariant
            k <= n,
            n == passes@.len(),
            remaining@ == all_indices(k as nat),
        decreases n - k,
    {
        remaining.push(k);
        assert(remaining@ =~= all_indices((k + 1) as nat));
        k = k + 1;
    }

    let mut ordered: Vec<&'static str> = Vec::with_capacity(n);
    let ghost mut order: Seq<usize> = seq![];
    let ghost total = schedule_outcome(passes@, initial_facts@);

    while remaining.len() > 0
        invariant
            n == passes@.len(),
            forall|i: int| 0 <= i < remaining@.len() ==> #[trigger] remaining@[i] < n,
            forall|i: int| 0 <= i < order.len() ==> #[trigger] order[i] < n,
            total == schedule_outcome(passes@, initial_facts@),
            total == prepend(order, outcome(passes@, remaining@, fact_names(avail@).to_set())),
            ordered@.len() == order.len(),
            forall|i: int| 0 <= i < order.len() ==> #[trigger] ordered@[i]@ == passes@[order[i] as int].name@,
        decreases remaining@.len(),
    {
        let ghost rem0 = remaining@;
        let ghost av0 = fact_names(avail@).to_set();
        let mut kept: Vec<usize> = Vec::new();
        let ghost mut swept: Seq<usize> = seq![];
        let mut progressed = false;
        let mut idx: usize = 0;
        while idx < remaining.len()
            invariant
                progressed == (swept.len() > 0),
                n == passes@.len(),
                remaining@ == rem0,
                idx <= rem0.len(),
                forall|i: int| 0 <= i < rem0.len() ==> #[trigger] rem0[i] < n,
                forall|i: int| 0 <= i < kept@.len() ==> #[trigger] kept@[i] < n,
                forall|i: int| 0 <= i < swept.len() ==> #[trigger] swept[i] < n,
                forall|i: int| 0 <= i < order.len() ==> #[trigger] order[i] < n,
                sweep(passes@, rem0, av0, idx as nat) == (swept, kept@, fact_names(avail@).to_set()),
                ordered@.len() == order.len() + swept.len(),
                total == schedule_outcome(passes@, initial_facts@),
                forall|i: int| 0 <= i < order.len() ==> #[trigger] ordered@[i]@ == passes@[order[i] as int].name@,
                forall|i: int|
                    0 <= i < swept.len() ==> #[trigger] ordered@[order.len() + i]@ == passes@[swept[i] as int].name@,
            decreases rem0.len() - idx,
        {
            let p_idx = remaining[idx];
            let pass = &passes[p_idx];
            let ghost a_before = fact_names(avail@).to_set();
            if is_ready(pass, &avail) {
                add_facts(&mut avail, &pass.provides);
                ordered.push(pass.name);
                progressed = true;
                proof {
                    swept = swept.push(p_idx);
                }
            } else {
                kept.push(p_idx);
            }
            idx = idx + 1;
        }
        proof {
            lemma_sweep_len(passes@, rem0, av0, rem0.len());
            lemma_sweep_none(passes@, rem0, av0, rem0.len());
        }
        if !progressed {
            assert(outcome(passes@, rem0, av0) == stuck_outcome(passes@, rem0, av0, 0));
            proof {
                lemma_stuck_not_ordered(passes@, rem0, av0, 0);
            }
            assert(fact_names(avail@).to_set() == av0);
            let e = stuck_error(passes, &remaining, &avail);
            assert(total == stuck_outcome(passes@, rem0, av0, 0));
            return Err(e);
        }
        proof {
            assert(outcome(passes@, rem0, av0) == prepend(
                swept,
                outcome(passes@, kept@, fact_names(avail@).to_set()),
            ));
            let rest = outcome(passes@, kept@, fact_names(avail@).to_set());
            match rest {
                Outcome::Ordered(x) => {
                    assert(order + (swept + x) =~= (order + swept) + x);
                },
                _ => {},
            }
            let new_order = order + swept;
            assert forall|i: int| 0 <= i < new_order.len() implies #[trigger] ordered@[i]@
                == passes@[new_order[i] as int].name@ by {
                if i >= order.len() {
                    let t = i - order.len();
                    assert(ordered@[order.len() + t]@ == passes@[swept[t] as int].name@);
                }
            }
            order = new_order;
        }
        remaining = kept;
    }
    Ok(ordered)
}

} // verus!

verus! {

pub proof fn lemma_provided_concat(passes: Seq<PassDescriptor>, s: Seq<usize>, x: Seq<usize>)
    ensures
        provided(passes, s + x) == provided(passes, s).union(provided(passes, x)),
    decreases x.len(),
{
    if x.len() == 0 {
        assert(s + x =~= s);
        assert(provided(passes, s).union(Set::empty()) =~= provided(passes, s));
    } else {
        lemma_provided_concat(passes, s, x.drop_last());
        assert((s + x).drop_last() =~= s + x.drop_last());
        assert((s + x).last() == x.last());
        assert(provided(passes, s + x) =~= provided(passes, s).union(provided(passes, x)));
    }
}

pub proof fn lemma_provided_includes(passes: Seq<PassDescriptor>, s: Seq<usize>, t: int)
    requires
        0 <= t < s.len(),
    ensures
        provides_set(passes[s[t] as int]).subset_of(provided(passes, s)),
    decreases s.len(),
{
    if t < s.len() - 1 {
        lemma_provided_includes(passes, s.drop_last(), t);
    }
}

pub proof fn lemma_sweep_facts(
    passes: Seq<PassDescriptor>,
    rem: Seq<usize>,
    avail: Set<Seq<char>>,
    k: nat,
)
    requires
        k <= rem.len(),
    ensures
        ({
            let (s, l, a) = sweep(passes, rem, avail, k);
            &&& s.to_multiset().add(l.to_multiset()) == rem.take(k as int).to_multiset()
            &&& a == avail.union(provided(passes, s))
            &&& forall|t: int|
                0 <= t < s.len() ==> ready(
                    passes[#[trigger] s[t] as int],
                    avail.union(provided(passes, s.take(t))),
                )
        }),
    decreases k,
{
    broadcast use vstd::seq_lib::group_to_multiset_ensures;
    broadcast use vstd::multiset::group_multiset_axioms;

    if k == 0 {
        assert(rem.take(0) =~= Seq::<usize>::empty());
        assert(avail.union(Set::empty()) =~= avail);
    } else {
        lemma_sweep_facts(passes, rem, avail, (k - 1) as nat);
        let (s, l, a) = sweep(passes, rem, avail, (k - 1) as nat);
        let p = rem[k - 1];
        assert(rem.take(k as int) =~= rem.take(k - 1).push(p));
        if ready(passes[p as int], a) {
            let s2 = s.push(p);
            assert(s2.drop_last() =~= s);
            assert(s2.to_multiset().add(l.to_multiset()) =~= rem.take(k as int).to_multiset());
            assert(a.union(provides_set(passes[p as int])) =~= avail.union(provided(passes, s2)));
            assert forall|t: int| 0 <= t < s2.len() implies ready(
                passes[#[trigger] s2[t] as int],
                avail.union(provided(passes, s2.take(t))),
            ) by {
                if t < s.len() {
                    assert(s2.take(t) =~= s.take(t));
                    assert(s2[t] == s[t]);
                } else {
                    assert(s2.take(t) =~= s);
                }
            }
        } else {
            let l2 = l.push(p);
            assert(s.to_multiset().add(l2.to_multiset()) =~= rem.take(k as int).to_multiset());
        }
    }
}

pub proof fn lemma_first_missing(
    passes: Seq<PassDescriptor>,
    rem: Seq<usize>,
    avail: Set<Seq<char>>,
    p: PassDescriptor,
    j0: int,
)
    ensures
        first_missing_fact(passes, rem, avail, p, j0) matches Some(j) ==> 0 <= j < p.requires@.len()
            && missing(passes, rem, avail, p.requires@[j]@),
    decreases p.requires@.len() - j0,
{
    if 0 <= j0 < p.requires@.len() && !missing(passes, rem, avail, p.requires@[j0]@) {
        lemma_first_missing(passes, rem, avail, p, j0 + 1);
    }
}

pub proof fn lemma_stuck_facts(
    passes: Seq<PassDescriptor>,
    rem: Seq<usize>,
    avail: Set<Seq<char>>,
    i: int,
)
    ensures
        stuck_outcome(passes, rem, avail, i) matches Outcome::Missing(p, j) ==> rem.contains(p)
            && 0 <= j < passes[p as int].requires@.len() && missing(
            passes,
            rem,
            avail,
            passes[p as int].requires@[j]@,
        ),
    decreases rem.len() - i,
{
    if 0 <= i < rem.len() {
        lemma_first_missing(passes, rem, avail, passes[rem[i] as int], 0);
        lemma_stuck_facts(passes, rem, avail, i + 1);
        if first_missing_fact(passes, rem, avail, passes[rem[i] as int], 0) is Some {
            assert(rem[i] == rem[i]);
        }
    }
}

pub proof fn lemma_outcome_facts(passes: Seq<PassDescriptor>, rem: Seq<usize>, avail: Set<Seq<char>>)
    ensures
        outcome(passes, rem, avail) matches Outcome::Ordered(o) ==> {
            &&& o.to_multiset() == rem.to_multiset()
            &&& forall|k: int|
                0 <= k < o.len() ==> ready(
                    passes[#[trigger] o[k] as int],
                    avail.union(provided(passes, o.take(k))),
                )
        },
        outcome(passes, rem, avail) matches Outcome::Missing(p, j) ==> {
            &&& rem.contains(p)
            &&& 0 <= j < passes[p as int].requires@.len()
            &&& missing(passes, rem, avail, passes[p as int].requires@[j]@)
        },
    decreases rem.len(),
{
    broadcast use vstd::seq_lib::group_to_multiset_ensures;
    broadcast use vstd::multiset::group_multiset_axioms;

    if rem.len() == 0 {
        return;
    }
    let (s, l, a) = sweep(passes, rem, avail, rem.len());
    lemma_sweep_len(passes, rem, avail, rem.len());
    lemma_sweep_facts(passes, rem, avail, rem.len());
    assert(rem.take(rem.len() as int) =~= rem);
    if s.len() == 0 {
        lemma_stuck_facts(passes, rem, avail, 0);
        lemma_stuck_not_ordered(passes, rem, avail, 0);
        return;
    }
    lemma_outcome_facts(passes, l, a);
    match outcome(passes, l, a) {
        Outcome::Ordered(x) => {
            let o = s + x;
            vstd::seq_lib::lemma_multiset_commutative(s, x);
            assert(o.to_multiset() =~= rem.to_multiset());
            assert forall|k: int| 0 <= k < o.len() implies ready(
                passes[#[trigger] o[k] as int],
                avail.union(provided(passes, o.take(k))),
            ) by {
                if k < s.len() {
                    assert(o.take(k) =~= s.take(k));
                    assert(o[k] == s[k]);
                } else {
                    let k2 = k - s.len();
                    assert(o.take(k) =~= s + x.take(k2));
                    assert(o[k] == x[k2]);
                    lemma_provided_concat(passes, s, x.take(k2));
                    assert(avail.union(provided(passes, o.take(k))) =~= a.union(
                        provided(passes, x.take(k2)),
                    ));
                }
            }
        },
        Outcome::Missing(p, j) => {
            let f = passes[p as int].requires@[j]@;
            assert(!avail.contains(f));
            assert(l.to_multiset().count(p) > 0);
            assert(rem.to_multiset().count(p) > 0);
            assert forall|i: int, b: int|
                0 <= i < rem.len() && 0 <= b < passes[rem[i] as int].provides@.len() implies
                #[trigger] passes[rem[i] as int].provides@[b]@ != f by {
                let q = rem[i];
                assert(rem.to_multiset().count(q) > 0);
                if s.to_multiset().count(q) > 0 {
                    assert(s.contains(q));
                    let t = choose|t: int| 0 <= t < s.len() && s[t] == q;
                    lemma_provided_includes(passes, s, t);
                    assert(fact_names(passes[q as int].provides@)[b] == passes[q as int].provides@[b]@);
                    assert(provides_set(passes[q as int]).contains(passes[q as int].provides@[b]@));
                } else {
                    assert(l.to_multiset().count(q) > 0);
                    assert(l.contains(q));
                    let t = choose|t: int| 0 <= t < l.len() && l[t] == q;
                    assert(passes[l[t] as int].provides@[b]@ != f);
                }
            }
        },
        Outcome::Stuck => {},
    }
}

/// When scheduling succeeds, every pass appears exactly once in the order,
/// and each pass is placed only after every fact it requires is an initial
/// fact or is provided by a pass placed before it.
pub proof fn law_schedule_order_is_valid(passes: Seq<PassDescriptor>, initial: Seq<FactTag>)
    ensures
        schedule_outcome(passes, initial) matches Outcome::Ordered(o) ==> {
            &&& o.to_multiset() == all_indices(passes.len()).to_multiset()
            &&& forall|k: int|
                0 <= k < o.len() ==> ready(
                    passes[#[trigger] o[k] as int],
                    fact_names(initial).to_set().union(provided(passes, o.take(k))),
                )
        },
{
    lemma_outcome_facts(passes, all_indices(passes.len()), fact_names(initial).to_set());
}

/// `o` runs each of the waiting passes `rem` once, each after every fact
/// it requires is in `avail` or provided by a pass run before it.
pub open spec fn runs_in_order(passes: Seq<PassDescriptor>, rem: Seq<usize>, avail: Set<Seq<char>>, o: Seq<usize>) -> bool {
    &&& o.to_multiset() == rem.to_multiset()
    &&& forall|k: int|
        0 <= k < o.len() ==> ready(passes[#[trigger] o[k] as int], avail.union(provided(passes, o.take(k))))
}

/// The items of `o` that `l` holds, in order.
pub open spec fn kept(o: Seq<usize>, l: Seq<usize>) -> Seq<usize>
    decreases o.len(),
{
    if o.len() == 0 {
        Seq::empty()
    } else {
        kept(o.drop_last(), l) + if l.contains(o.last()) {
            seq![o.last()]
        } else {
            Seq::<usize>::empty()
        }
    }
}

/// A pass ready with some facts is ready with more.
proof fn lemma_ready_mono(p: PassDescriptor, a: Set<Seq<char>>, b: Set<Seq<char>>)
    requires
        ready(p, a),
        a.subset_of(b),
    ensures
        ready(p, b),
{
}

/// A sweep that schedules nothing found no waiting pass ready.
proof fn lemma_sweep_empty(passes: Seq<PassDescriptor>, rem: Seq<usize>, avail: Set<Seq<char>>, k: nat)
    requires
        k <= rem.len(),
        sweep(passes, rem, avail, k).0.len() == 0,
    ensures
        sweep(passes, rem, avail, k).2 == avail,
        forall|i: int| 0 <= i < k ==> !ready(passes[#[trigger] rem[i] as int], avail),
    decreases k,
{
    if k > 0 {
        lemma_sweep_empty(passes, rem, avail, (k - 1) as nat);
    }
}

/// How often `kept(o, l)` holds an item.
proof fn lemma_kept_count(o: Seq<usize>, l: Seq<usize>, x: usize)
    ensures
        kept(o, l).to_multiset().count(x) == if l.contains(x) { o.to_multiset().count(x) } else { 0 },
    decreases o.len(),
{
    broadcast use vstd::seq_lib::group_to_multiset_ensures;
    broadcast use vstd::multiset::group_multiset_axioms;

    if o.len() > 0 {
        lemma_kept_count(o.drop_last(), l, x);
        assert(o == o.drop_last().push(o.last()));
        if l.contains(o.last()) {
            assert(kept(o, l) == kept(o.drop_last(), l).push(o.last()));
        } else {
            assert(kept(o, l) =~= kept(o.drop_last(), l));
        }
    } else {
        assert(o.to_multiset() =~= vstd::multiset::Multiset::empty());
        assert(kept(o, l).to_multiset() =~= vstd::multiset::Multiset::empty());
    }
}

/// Running the prefix `o.take(n)` of an order from `avail`, where every
/// pass not kept is one of `s`: the kept passes run in order from `avail`
/// plus what `s` provides, and provide with `s` all that the prefix does.
proof fn lemma_kept_prefix(
    passes: Seq<PassDescriptor>,
    rem: Seq<usize>,
    avail: Set<Seq<char>>,
    o: Seq<usize>,
    s: Seq<usize>,
    l: Seq<usize>,
    n: int,
)
    requires
        0 <= n <= o.len(),
        runs_in_order(passes, rem, avail, o),
        forall|x: usize| #[trigger] rem.contains(x) ==> s.contains(x) || l.contains(x),
    ensures
        ({
            let a = avail.union(provided(passes, s));
            let kp = kept(o.take(n), l);
            &&& provided(passes, o.take(n)).subset_of(provided(passes, s).union(provided(passes, kp)))
            &&& forall|k: int| 0 <= k < kp.len() ==> ready(passes[#[trigger] kp[k] as int], a.union(provided(passes, kp.take(k))))
        }),
    decreases n,
{
    broadcast use vstd::seq_lib::group_to_multiset_ensures;

    let a = avail.union(provided(passes, s));
    if n == 0 {
        assert(o.take(0) =~= Seq::<usize>::empty());
        assert(kept(o.take(0), l) =~= Seq::<usize>::empty());
    } else {
        lemma_kept_prefix(passes, rem, avail, o, s, l, n - 1);
        let p = o.take(n - 1);
        let q = o.take(n);
        let x = o[n - 1];
        assert(q.drop_last() =~= p);
        assert(q.last() == x);
        let kp = kept(p, l);
        let kq = kept(q, l);
        assert(o.to_multiset().count(x) > 0) by {
            assert(o.contains(x));
        }
        assert(rem.contains(x)) by {
            assert(rem.to_multiset().count(x) > 0);
        }
        assert(ready(passes[o[n - 1] as int], avail.union(provided(passes, o.take(n - 1)))));
        if l.contains(x) {
            assert(kq == kp.push(x));
            assert(kq.drop_last() =~= kp);
            assert(provided(passes, kq) == provided(passes, kp).union(provides_set(passes[x as int])));
            lemma_ready_mono(passes[x as int], avail.union(provided(passes, p)), a.union(provided(passes, kp)));
            assert forall|k: int| 0 <= k < kq.len() implies ready(passes[#[trigger] kq[k] as int], a.union(provided(passes, kq.take(k)))) by {
                if k < kp.len() {
                    assert(kq.take(k) =~= kp.take(k));
                    assert(kq[k] == kp[k]);
                } else {
                    assert(kq.take(k) =~= kp);
                }
            }
        } else {
            assert(kq =~= kp);
            assert(s.contains(x));
            let t = choose|t: int| 0 <= t < s.len() && s[t] == x;
            lemma_provided_includes(passes, s, t);
        }
    }
}

/// Where scheduling is stuck, no order runs the waiting passes.
proof fn lemma_stuck_has_no_order(passes: Seq<PassDescriptor>, rem: Seq<usize>, avail: Set<Seq<char>>, o: Seq<usize>)
    requires
        outcome(passes, rem, avail) is Stuck,
        rem.no_duplicates(),
    ensures
        !runs_in_order(passes, rem, avail, o),
    decreases rem.len(),
{
    broadcast use vstd::seq_lib::group_to_multiset_ensures;
    broadcast use vstd::multiset::group_multiset_axioms;

    if rem.len() == 0 {
        return;
    }
    let (s, l, a) = sweep(passes, rem, avail, rem.len());
    lemma_sweep_len(passes, rem, avail, rem.len());
    lemma_sweep_facts(passes, rem, avail, rem.len());
    assert(rem.take(rem.len() as int) =~= rem);
    if runs_in_order(passes, rem, avail, o) {
        if s.len() == 0 {
            lemma_sweep_empty(passes, rem, avail, rem.len());
            o.to_multiset_ensures();
            rem.to_multiset_ensures();
            assert(o.len() == rem.len());
            assert(o.take(0) =~= Seq::<usize>::empty());
            assert(avail.union(provided(passes, o.take(0))) =~= avail);
            assert(ready(passes[o[0] as int], avail));
            assert(o.contains(o[0]));
            assert(rem.to_multiset().count(o[0]) > 0);
            let i = choose|i: int| 0 <= i < rem.len() && rem[i] == o[0];
            assert(!ready(passes[rem[i] as int], avail));
        } else {
            assert(outcome(passes, rem, avail) == prepend(s, outcome(passes, l, a)));
            assert(outcome(passes, l, a) is Stuck);
            rem.lemma_multiset_has_no_duplicates();
            assert forall|x: usize| #[trigger] rem.contains(x) implies s.contains(x) || l.contains(x) by {
                assert(rem.to_multiset().count(x) > 0);
                assert(s.to_multiset().count(x) > 0 || l.to_multiset().count(x) > 0);
            }
            assert forall|x: usize| l.to_multiset().contains(x) implies l.to_multiset().count(x) == 1 by {
                assert(rem.to_multiset().count(x) == s.to_multiset().count(x) + l.to_multiset().count(x));
                assert(rem.to_multiset().contains(x));
            }
            l.lemma_multiset_has_no_duplicates_conv();
            lemma_kept_prefix(passes, rem, avail, o, s, l, o.len() as int);
            assert(o.take(o.len() as int) =~= o);
            let ko = kept(o, l);
            assert forall|x: usize| ko.to_multiset().count(x) == l.to_multiset().count(x) by {
                lemma_kept_count(o, l, x);
                assert(rem.to_multiset().count(x) == s.to_multiset().count(x) + l.to_multiset().count(x));
                if l.contains(x) {
                    assert(l.to_multiset().count(x) > 0);
                    assert(rem.to_multiset().contains(x));
                    assert(rem.to_multiset().count(x) == 1);
                } else {
                    assert(l.to_multiset().count(x) == 0);
                }
            }
            assert(ko.to_multiset() =~= l.to_multiset());
            assert(runs_in_order(passes, l, a, ko));
            lemma_stuck_has_no_order(passes, l, a, ko);
        }
    }
}

/// Scheduling reports a cycle only when no order of all the passes runs
/// each after the facts it requires are initial or provided by a pass run
/// before it.
pub proof fn law_schedule_cycle_means_no_order(passes: Seq<PassDescriptor>, initial: Seq<FactTag>, o: Seq<usize>)
    requires
        passes.len() <= usize::MAX,
        schedule_outcome(passes, initial) is Stuck,
    ensures
        !runs_in_order(passes, all_indices(passes.len()), fact_names(initial).to_set(), o),
{
    let all = all_indices(passes.len());
    assert(all.no_duplicates()) by {
        assert forall|i: int, j: int| 0 <= i < all.len() && 0 <= j < all.len() && i != j implies all[i] != all[j] by {
            assert(all[i] == i as usize);
            assert(all[j] == j as usize);
        }
    }
    lemma_stuck_has_no_order(passes, all, fact_names(initial).to_set(), o);
}

/// A pass is reported as missing a fact only when that fact is not an
/// initial fact and no pass in the list provides it.
pub proof fn law_schedule_missing_fact_is_unprovided(
    passes: Seq<PassDescriptor>,
    initial: Seq<FactTag>,
)
    requires
        passes.len() <= usize::MAX,
    ensures
        schedule_outcome(passes, initial) matches Outcome::Missing(p, j) ==> {
            &&& 0 <= p < passes.len()
            &&& 0 <= j < passes[p as int].requires@.len()
            &&& !fact_names(initial).contains(passes[p as int].requires@[j]@)
            &&& forall|q: int, b: int|
                0 <= q < passes.len() && 0 <= b < passes[q].provides@.len() ==> #[trigger] passes[q].provides@[b]@
                    != passes[p as int].requires@[j]@
        },
{
    lemma_missing_fact_is_unprovided(passes, initial);
}

proof fn lemma_missing_fact_is_unprovided(passes: Seq<PassDescriptor>, initial: Seq<FactTag>)
    requires
        passes.len() <= usize::MAX,
    ensures
        schedule_outcome(passes, initial) matches Outcome::Missing(p, j) ==> {
            &&& 0 <= p < passes.len()
            &&& 0 <= j < passes[p as int].requires@.len()
            &&& !fact_names(initial).contains(passes[p as int].requires@[j]@)
            &&& forall|q: int, b: int|
                0 <= q < passes.len() && 0 <= b < passes[q].provides@.len() ==> #[trigger] passes[q].provides@[b]@
                    != passes[p as int].requires@[j]@
        },
{
    let all = all_indices(passes.len());
    lemma_outcome_facts(passes, all, fact_names(initial).to_set());
    if let Outcome::Missing(p, j) = schedule_outcome(passes, initial) {
        let f = passes[p as int].requires@[j]@;
        assert forall|q: int, b: int|
            0 <= q < passes.len() && 0 <= b < passes[q].provides@.len() implies #[trigger] passes[q].provides@[b]@
                != f by {
            assert(all[q] == q as usize);
            assert(passes[all[q] as int].provides@[b]@ != f);
        }
    }
}

/// A fact that some passes provide is provided by one of them.
proof fn lemma_provided_from(passes: Seq<PassDescriptor>, s: Seq<usize>, f: Seq<char>)
    requires
        provided(passes, s).contains(f),
    ensures
        exists|t: int, b: int|
            0 <= t < s.len() && 0 <= b < passes[s[t] as int].provides@.len()
                && #[trigger] passes[s[t] as int].provides@[b]@ == f,
    decreases s.len(),
{
    let p = s.drop_last();
    if provided(passes, p).contains(f) {
        lemma_provided_from(passes, p, f);
        let (t, b) = choose|t: int, b: int|
            0 <= t < p.len() && 0 <= b < passes[p[t] as int].provides@.len()
                && #[trigger] passes[p[t] as int].provides@[b]@ == f;
        assert(s[t] == p[t]);
    } else {
        let x = passes[s.last() as int];
        assert(fact_names(x.provides@).contains(f));
        let b = choose|b: int| 0 <= b < fact_names(x.provides@).len() && fact_names(x.provides@)[b] == f;
        assert(x.provides@[b]@ == f);
        assert(passes[s[s.len() - 1] as int].provides@[b]@ == f);
    }
}

/// Fact `f` is available or provided by some pass of the list.
pub open spec fn supplied(passes: Seq<PassDescriptor>, avail: Set<Seq<char>>, f: Seq<char>) -> bool {
    avail.contains(f) || exists|q: int, b: int|
        0 <= q < passes.len() && 0 <= b < passes[q].provides@.len() && #[trigger] passes[q].provides@[b]@ == f
}

proof fn lemma_first_missing_none(
    passes: Seq<PassDescriptor>,
    rem: Seq<usize>,
    avail: Set<Seq<char>>,
    p: PassDescriptor,
    j0: int,
)
    requires
        0 <= j0,
        first_missing_fact(passes, rem, avail, p, j0) is None,
    ensures
        forall|j: int| j0 <= j < p.requires@.len() ==> !missing(passes, rem, avail, #[trigger] p.requires@[j]@),
    decreases p.requires@.len() - j0,
{
    if j0 < p.requires@.len() {
        lemma_first_missing_none(passes, rem, avail, p, j0 + 1);
    }
}

proof fn lemma_stuck_none_missing(passes: Seq<PassDescriptor>, rem: Seq<usize>, avail: Set<Seq<char>>, i0: int)
    requires
        0 <= i0,
        stuck_outcome(passes, rem, avail, i0) is Stuck,
    ensures
        forall|i: int, j: int|
            i0 <= i < rem.len() && 0 <= j < passes[rem[i] as int].requires@.len() ==> !missing(
                passes,
                rem,
                avail,
                #[trigger] passes[rem[i] as int].requires@[j]@,
            ),
    decreases rem.len() - i0,
{
    if i0 < rem.len() {
        lemma_first_missing_none(passes, rem, avail, passes[rem[i0] as int], 0);
        lemma_stuck_none_missing(passes, rem, avail, i0 + 1);
    }
}

/// Where scheduling the waiting passes `rem` is stuck, every fact that a
/// waiting pass requires is available or provided by some pass.
proof fn lemma_stuck_supplied(passes: Seq<PassDescriptor>, rem: Seq<usize>, avail: Set<Seq<char>>)
    requires
        outcome(passes, rem, avail) is Stuck,
        forall|i: int| 0 <= i < rem.len() ==> #[trigger] rem[i] < passes.len(),
    ensures
        forall|i: int, j: int|
            0 <= i < rem.len() && 0 <= j < passes[rem[i] as int].requires@.len() ==> supplied(
                passes,
                avail,
                #[trigger] passes[rem[i] as int].requires@[j]@,
            ),
    decreases rem.len(),
{
    broadcast use vstd::seq_lib::group_to_multiset_ensures;
    broadcast use vstd::multiset::group_multiset_axioms;

    if rem.len() == 0 {
        return;
    }
    let (s, l, a) = sweep(passes, rem, avail, rem.len());
    lemma_sweep_len(passes, rem, avail, rem.len());
    lemma_sweep_facts(passes, rem, avail, rem.len());
    assert(rem.take(rem.len() as int) =~= rem);
    if s.len() == 0 {
        lemma_stuck_none_missing(passes, rem, avail, 0);
        assert forall|i: int, j: int|
            0 <= i < rem.len() && 0 <= j < passes[rem[i] as int].requires@.len() implies supplied(
                passes,
                avail,
                #[trigger] passes[rem[i] as int].requires@[j]@,
            ) by {
            let f = passes[rem[i] as int].requires@[j]@;
            assert(!missing(passes, rem, avail, f));
            if !avail.contains(f) {
                let (i2, b) = choose|i2: int, b: int|
                    0 <= i2 < rem.len() && 0 <= b < passes[rem[i2] as int].provides@.len()
                        && #[trigger] passes[rem[i2] as int].provides@[b]@ == f;
                assert(passes[rem[i2] as int].provides@[b]@ == f);
            }
        }
    } else {
        assert(outcome(passes, rem, avail) == prepend(s, outcome(passes, l, a)));
        assert(outcome(passes, l, a) is Stuck);
        assert forall|i: int| 0 <= i < l.len() implies #[trigger] l[i] < passes.len() by {
            assert(l.contains(l[i]));
            assert(l.to_multiset().count(l[i]) > 0);
            assert(rem.to_multiset().count(l[i]) > 0);
            assert(rem.contains(l[i]));
        }
        lemma_stuck_supplied(passes, l, a);
        assert forall|i: int, j: int|
            0 <= i < rem.len() && 0 <= j < passes[rem[i] as int].requires@.len() implies supplied(
                passes,
                avail,
                #[trigger] passes[rem[i] as int].requires@[j]@,
            ) by {
            let x = rem[i];
            let f = passes[x as int].requires@[j]@;
            assert(rem.contains(x));
            assert(rem.to_multiset().count(x) > 0);
            let in_prov = if s.to_multiset().count(x) > 0 {
                assert(s.contains(x));
                let t = choose|t: int| 0 <= t < s.len() && s[t] == x;
                assert(ready(passes[s[t] as int], avail.union(provided(passes, s.take(t)))));
                assert(avail.union(provided(passes, s.take(t))).contains(f));
                if !avail.contains(f) {
                    lemma_provided_from(passes, s.take(t), f);
                    let (t2, b) = choose|t2: int, b: int|
                        0 <= t2 < s.take(t).len() && 0 <= b < passes[s.take(t)[t2] as int].provides@.len()
                            && #[trigger] passes[s.take(t)[t2] as int].provides@[b]@ == f;
                    let q = s[t2];
                    assert(s.contains(q));
                    assert(s.to_multiset().count(q) > 0);
                    assert(rem.to_multiset().count(q) > 0);
                    assert(rem.contains(q));
                    let u = choose|u: int| 0 <= u < rem.len() && rem[u] == q;
                    assert(q < passes.len());
                    assert(passes[q as int].provides@[b]@ == f);
                }
                true
            } else {
                assert(l.to_multiset().count(x) > 0);
                assert(l.contains(x));
                let k = choose|k: int| 0 <= k < l.len() && l[k] == x;
                assert(supplied(passes, a, passes[l[k] as int].requires@[j]@));
                if !avail.contains(f) && a.contains(f) {
                    assert(provided(passes, s).contains(f));
                    lemma_provided_from(passes, s, f);
                    let (t2, b) = choose|t2: int, b: int|
                        0 <= t2 < s.len() && 0 <= b < passes[s[t2] as int].provides@.len()
                            && #[trigger] passes[s[t2] as int].provides@[b]@ == f;
                    let q = s[t2];
                    assert(s.contains(q));
                    assert(s.to_multiset().count(q) > 0);
                    assert(rem.to_multiset().count(q) > 0);
                    assert(rem.contains(q));
                    let u = choose|u: int| 0 <= u < rem.len() && rem[u] == q;
                    assert(q < passes.len());
                    assert(passes[q as int].provides@[b]@ == f);
                }
                false
            };
        }
    }
}

/// Scheduling reports a cycle only when every fact that some pass requires
/// is an initial fact or is provided by some pass: nothing is missing
/// outright.
pub proof fn law_schedule_cycle_means_all_supplied(passes: Seq<PassDescriptor>, initial: Seq<FactTag>)
    requires
        passes.len() <= usize::MAX,
        schedule_outcome(passes, initial) is Stuck,
    ensures
        forall|q: int, j: int|
            0 <= q < passes.len() && 0 <= j < passes[q].requires@.len() ==> fact_names(initial).contains(
                #[trigger] passes[q].requires@[j]@,
            ) || exists|q2: int, b: int|
                0 <= q2 < passes.len() && 0 <= b < passes[q2].provides@.len() && #[trigger] passes[q2].provides@[b]@
                    == passes[q].requires@[j]@,
{
    let all = all_indices(passes.len());
    let avail = fact_names(initial).to_set();
    assert forall|i: int| 0 <= i < all.len() implies #[trigger] all[i] < passes.len() by {}
    lemma_stuck_supplied(passes, all, avail);
    assert forall|q: int, j: int| 0 <= q < passes.len() && 0 <= j < passes[q].requires@.len() implies fact_names(
        initial,
    ).contains(#[trigger] passes[q].requires@[j]@) || exists|q2: int, b: int|
        0 <= q2 < passes.len() && 0 <= b < passes[q2].provides@.len() && #[trigger] passes[q2].provides@[b]@
            == passes[q].requires@[j]@ by {
        assert(all[q] == q as usize);
        assert(supplied(passes, avail, passes[all[q] as int].requires@[j]@));
    }
}

/// Scheduling succeeds exactly when some order of all the passes runs each
/// of them once, after every fact it requires is an initial fact or is
/// provided by a pass run before it.
pub proof fn law_schedule_succeeds_iff_order_exists(passes: Seq<PassDescriptor>, initial: Seq<FactTag>)
    requires
        passes.len() <= usize::MAX,
    ensures
        schedule_outcome(passes, initial) is Ordered <==> exists|o: Seq<usize>|
            #[trigger] runs_in_order(passes, all_indices(passes.len()), fact_names(initial).to_set(), o),
{
    broadcast use vstd::seq_lib::group_to_multiset_ensures;

    let all = all_indices(passes.len());
    let avail = fact_names(initial).to_set();
    law_schedule_order_is_valid(passes, initial);
    match schedule_outcome(passes, initial) {
        Outcome::Ordered(o) => {
            assert(runs_in_order(passes, all, avail, o));
        },
        Outcome::Stuck => {
            assert forall|o: Seq<usize>| !#[trigger] runs_in_order(passes, all, avail, o) by {
                law_schedule_cycle_means_no_order(passes, initial, o);
            }
        },
        Outcome::Missing(p, j) => {
            lemma_missing_fact_is_unprovided(passes, initial);
            let f = passes[p as int].requires@[j]@;
            assert forall|o: Seq<usize>| !#[trigger] runs_in_order(passes, all, avail, o) by {
                if runs_in_order(passes, all, avail, o) {
                    assert(all[p as int] == p);
                    assert(all.contains(p));
                    assert(all.to_multiset().count(p) > 0);
                    assert(o.to_multiset().count(p) > 0);
                    assert(o.contains(p));
                    let k = choose|k: int| 0 <= k < o.len() && o[k] == p;
                    assert(ready(passes[o[k] as int], avail.union(provided(passes, o.take(k)))));
                    assert(avail.union(provided(passes, o.take(k))).contains(f));
                    if avail.contains(f) {
                        let i = choose|i: int| 0 <= i < initial.len() && #[trigger] initial[i]@ == f;
                        assert(fact_names(initial)[i] == f);
                        assert(fact_names(initial).contains(f));
                    } else {
                        lemma_provided_from(passes, o.take(k), f);
                        let (t, b) = choose|t: int, b: int|
                            0 <= t < o.take(k).len() && 0 <= b < passes[o.take(k)[t] as int].provides@.len()
                                && #[trigger] passes[o.take(k)[t] as int].provides@[b]@ == f;
                        let q = o[t];
                        assert(o.contains(q));
                        assert(o.to_multiset().count(q) > 0);
                        assert(all.to_multiset().count(q) > 0);
                        assert(all.contains(q));
                        let u = choose|u: int| 0 <= u < all.len() && all[u] == q;
                        assert(passes[q as int].provides@[b]@ == f);
                    }
                }
            }
        },
    }
}

} // verus!

verus! {

/// The view of a pass descriptor: name, required facts and provided facts.
pub open spec fn pass_view(p: PassDescriptor) -> (Seq<char>, Seq<Seq<char>>, Seq<Seq<char>>) {
    (p.name@, fact_names(p.requires@), fact_names(p.provides@))
}

/// The analysis passes of phase 2 with their dependencies.
pub open spec fn phase2_table() -> Seq<(Seq<char>, Seq<Seq<char>>, Seq<Seq<char>>)> {
    seq![
        ("dominators"@, seq!["cfg"@], seq!["dominators"@]),
        ("ssa"@, seq!["cfg"@, "dominators"@], seq!["ssa_form"@]),
        ("vsa"@, seq!["ssa_form"@], seq!["value_sets"@]),
        ("pointer_provenance"@, seq!["ssa_form"@], seq!["pointer_provenance"@]),
        ("stack_vars"@, seq!["ssa_form"@, "value_sets"@], seq!["stack_frame"@]),
        ("primitive_types"@, seq!["ssa_form"@], seq!["primitive_types"@]),
        (
            "calling_conventions"@,
            seq!["ssa_form"@, "value_sets"@, "primitive_types"@],
            seq!["calling_conventions"@],
        ),
        ("semantic_lowering"@, seq!["ssa_form"@, "pointer_provenance"@], seq!["semantic_ir"@]),
        ("structuring"@, seq!["cfg"@, "dominators"@], seq!["high_level_cfg"@]),
        (
            "mlil_lowering"@,
            seq!["ssa_form"@, "calling_conventions"@, "semantic_ir"@, "pointer_provenance"@, "stack_frame"@],
            seq!["mlil"@],
        ),
    ]
}

fn pass(name: &'static str, reqs: Vec<FactTag>, provs: Vec<FactTag>) -> (p: PassDescriptor)
    ensures
        p.name == name,
        p.requires == reqs,
        p.provides == provs,
{
    PassDescriptor { name, requires: reqs, provides: provs }
}

fn tags1(a: FactTag) -> (v: Vec<FactTag>)
    ensures
        fact_names(v@) == seq![a@],
{
    let mut v = Vec::new();
    v.push(a);
    assert(fact_names(v@) =~= seq![a@]);
    v
}

fn tags2(a: FactTag, b: FactTag) -> (v: Vec<FactTag>)
    ensures
        fact_names(v@) == seq![a@, b@],
{
    let mut v = Vec::new();
    v.push(a);
    v.push(b);
    assert(fact_names(v@) =~= seq![a@, b@]);
    v
}

fn tags3(a: FactTag, b: FactTag, c: FactTag) -> (v: Vec<FactTag>)
    ensures
        fact_names(v@) == seq![a@, b@, c@],
{
    let mut v = Vec::new();
    v.push(a);
    v.push(b);
    v.push(c);
    assert(fact_names(v@) =~= seq![a@, b@, c@]);
    v
}

fn tags4(a: FactTag, b: FactTag, c: FactTag, d: FactTag) -> (v: Vec<FactTag>)
    ensures
        fact_names(v@) == seq![a@, b@, c@, d@],
{
    let mut v = Vec::new();
    v.push(a);
    v.push(b);
    v.push(c);
    v.push(d);
    assert(fact_names(v@) =~= seq![a@, b@, c@, d@]);
    v
}

fn tags5(a: FactTag, b: FactTag, c: FactTag, d: FactTag, e: FactTag) -> (v: Vec<FactTag>)
    ensures
        fact_names(v@) == seq![a@, b@, c@, d@, e@],
{
    let mut v = Vec::new();
    v.push(a);
    v.push(b);
    v.push(c);
    v.push(d);
    v.push(e);
    assert(fact_names(v@) =~= seq![a@, b@, c@, d@, e@]);
    v
}

/// Every fact that pass `i` of `t` requires is `cfg` or is provided by a
/// pass declared before it.
pub open spec fn declared_after_inputs(t: Seq<(Seq<char>, Seq<Seq<char>>, Seq<Seq<char>>)>, i: int) -> bool {
    forall|k: int|
        0 <= k < t[i].1.len() ==> #[trigger] t[i].1[k] == "cfg"@ || exists|j: int|
            0 <= j < i && #[trigger] t[j].2.contains(t[i].1[k])
}

/// The phase-2 passes are declared in an order that runs each after the
/// facts it requires, from the control-flow graph alone; in particular
/// MLIL lowering comes after the stack-frame recovery whose variables it
/// reads.
pub proof fn law_phase2_declaration_order_is_valid()
    ensures
        forall|i: int| 0 <= i < phase2_table().len() ==> declared_after_inputs(phase2_table(), i),
        phase2_table()[9].1.contains("stack_frame"@),
{
    let t = phase2_table();
    assert(t[0].2.contains("dominators"@)) by { assert(t[0].2[0] == "dominators"@); }
    assert(t[1].2.contains("ssa_form"@)) by { assert(t[1].2[0] == "ssa_form"@); }
    assert(t[2].2.contains("value_sets"@)) by { assert(t[2].2[0] == "value_sets"@); }
    assert(t[3].2.contains("pointer_provenance"@)) by { assert(t[3].2[0] == "pointer_provenance"@); }
    assert(t[4].2.contains("stack_frame"@)) by { assert(t[4].2[0] == "stack_frame"@); }
    assert(t[5].2.contains("primitive_types"@)) by { assert(t[5].2[0] == "primitive_types"@); }
    assert(t[6].2.contains("calling_conventions"@)) by { assert(t[6].2[0] == "calling_conventions"@); }
    assert(t[7].2.contains("semantic_ir"@)) by { assert(t[7].2[0] == "semantic_ir"@); }
    assert(t[9].1[4] == "stack_frame"@);
    assert forall|i: int| 0 <= i < t.len() implies declared_after_inputs(t, i) by {
        assert forall|k: int| 0 <= k < t[i].1.len() implies #[trigger] t[i].1[k] == "cfg"@ || exists|j: int|
            0 <= j < i && #[trigger] t[j].2.contains(t[i].1[k]) by {
            let f = t[i].1[k];
            if f == "dominators"@ {
                assert(t[0].2.contains(f));
            } else if f == "ssa_form"@ {
                assert(t[1].2.contains(f));
            } else if f == "value_sets"@ {
                assert(t[2].2.contains(f));
            } else if f == "pointer_provenance"@ {
                assert(t[3].2.contains(f));
            } else if f == "stack_frame"@ {
                assert(t[4].2.contains(f));
            } else if f == "primitive_types"@ {
                assert(t[5].2.contains(f));
            } else if f == "calling_conventions"@ {
                assert(t[6].2.contains(f));
            } else if f == "semantic_ir"@ {
                assert(t[7].2.contains(f));
            }
        }
    }
}

/// The phase-2 analysis passes, in declaration order.
pub fn phase2_passes() -> (r: Vec<PassDescriptor>)
    ensures
        r@.len() == phase2_table().len(),
        forall|i: int| 0 <= i < r@.len() ==> #[trigger] pass_view(r@[i]) == phase2_table()[i],
{
    let mut v: Vec<PassDescriptor> = Vec::new();
    v.push(pass("dominators", tags1(facts::cfg()), tags1(facts::dominators())));
    v.push(pass("ssa", tags2(facts::cfg(), facts::dominators()), tags1(facts::ssa_form())));
    v.push(pass("vsa", tags1(facts::ssa_form()), tags1(facts::value_sets())));
    v.push(pass("pointer_provenance", tags1(facts::ssa_form()), tags1(facts::pointer_provenance())));
    v.push(pass("stack_vars", tags2(facts::ssa_form(), facts::value_sets()), tags1(facts::stack_frame())));
    v.push(pass("primitive_types", tags1(facts::ssa_form()), tags1(facts::primitive_types())));
    v.push(
        pass(
            "calling_conventions",
            tags3(facts::ssa_form(), facts::value_sets(), facts::primitive_types()),
            tags1(facts::calling_conventions()),
        ),
    );
    v.push(pass("semantic_lowering", tags2(facts::ssa_form(), facts::pointer_provenance()), tags1(facts::semantic_ir())));
    v.push(pass("structuring", tags2(facts::cfg(), facts::dominators()), tags1(facts::high_level_cfg())));
    v.push(
        pass(
            "mlil_lowering",
            tags5(
                facts::ssa_form(),
                facts::calling_conventions(),
                facts::semantic_ir(),
                facts::pointer_provenance(),
                facts::stack_frame(),
            ),
            tags1(facts::mlil()),
        ),
    );
    assert forall|i: int| 0 <= i < v@.len() implies #[trigger] pass_view(v@[i]) == phase2_table()[i] by {
        reveal_strlit("dominators");
        reveal_strlit("ssa");
        reveal_strlit("vsa");
    }
    v
}

} // verus!
