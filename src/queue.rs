use vstd::prelude::*;
use crate::record::{FetchTarget, target_urls};
use crate::tracker::CompletedSet;

verus! {

/// The targets of `universe` whose URL is not in `done`, in their order.
pub open spec fn pending(universe: Seq<FetchTarget>, done: Set<Seq<char>>) -> Seq<FetchTarget> {
    universe.filter(|t: FetchTarget| !done.contains(t.url@))
}

/// Where the universe names each URL once, so does its pending part, whose
/// URLs all come from the universe.
pub proof fn lemma_pending_urls_unique(universe: Seq<FetchTarget>, done: Set<Seq<char>>)
    requires
        target_urls(universe).no_duplicates(),
    ensures
        target_urls(pending(universe, done)).no_duplicates(),
        forall|u: Seq<char>| #[trigger] target_urls(pending(universe, done)).contains(u) ==> target_urls(
            universe,
        ).contains(u),
    decreases universe.len(),
{
    if universe.len() > 0 {
        let rest = universe.drop_last();
        let x = universe.last();
        let f = |t: FetchTarget| !done.contains(t.url@);
        assert(universe =~= rest.push(x));
        assert(target_urls(universe) =~= target_urls(rest).push(x.url@));
        assert(target_urls(rest).no_duplicates()) by {
            assert forall|i: int, j: int| 0 <= i < target_urls(rest).len() && 0 <= j < target_urls(rest).len()
                && i != j implies target_urls(rest)[i] != target_urls(rest)[j] by {
                assert(target_urls(rest)[i] == target_urls(universe)[i]);
                assert(target_urls(rest)[j] == target_urls(universe)[j]);
            }
        }
        lemma_pending_urls_unique(rest, done);
        rest.lemma_filter_push(x, f);
        let pr = pending(rest, done);
        assert(!target_urls(rest).contains(x.url@)) by {
            if target_urls(rest).contains(x.url@) {
                let k = choose|k: int| 0 <= k < target_urls(rest).len() && target_urls(rest)[k] == x.url@;
                assert(target_urls(universe)[k] == target_urls(universe)[universe.len() - 1]);
            }
        }
        if f(x) {
            assert(pending(universe, done) == pr.push(x));
            assert(target_urls(pending(universe, done)) =~= target_urls(pr).push(x.url@));
            assert(!target_urls(pr).contains(x.url@));
            let pu = target_urls(pending(universe, done));
            assert forall|i: int, j: int| 0 <= i < pu.len() && 0 <= j < pu.len() && i != j implies pu[i] != pu[j] by {
                if i < pr.len() && j < pr.len() {
                    assert(pu[i] == target_urls(pr)[i]);
                    assert(pu[j] == target_urls(pr)[j]);
                } else if i < pr.len() {
                    assert(pu[i] == target_urls(pr)[i]);
                } else {
                    assert(pu[j] == target_urls(pr)[j]);
                }
            }
            assert forall|u: Seq<char>| #[trigger] target_urls(pending(universe, done)).contains(u) implies target_urls(
                universe,
            ).contains(u) by {
                let k = choose|k: int| 0 <= k < target_urls(pending(universe, done)).len() && target_urls(pending(universe, done))[k] == u;
                if k < pr.len() {
                    assert(target_urls(pr)[k] == u);
                    assert(target_urls(pr).contains(u));
                    let m = choose|m: int| 0 <= m < target_urls(rest).len() && target_urls(rest)[m] == u;
                    assert(target_urls(universe)[m] == u);
                } else {
                    assert(target_urls(universe)[universe.len() - 1] == u);
                }
            }
        } else {
            assert(pending(universe, done) == pr);
            assert forall|u: Seq<char>| #[trigger] target_urls(pending(universe, done)).contains(u) implies target_urls(
                universe,
            ).contains(u) by {
                let m = choose|m: int| 0 <= m < target_urls(rest).len() && target_urls(rest)[m] == u;
                assert(target_urls(universe)[m] == u);
            }
        }
    } else {
        assert(target_urls(pending(universe, done)) =~= Seq::<Seq<char>>::empty());
    }
}

/// How often progress is worth reporting: at each positive multiple of this
/// many remaining targets.
pub const PROGRESS_STEP: usize = 1000;

/// Whether a count of remaining targets is a milestone worth reporting.
pub fn is_progress_milestone(remaining: usize) -> (r: bool)
    ensures
        r == (remaining > 0 && remaining % PROGRESS_STEP == 0),
{
    remaining > 0 && remaining % PROGRESS_STEP == 0
}

/// The targets still to be fetched by a run, shared by its workers, which
/// take them one at a time.
pub struct WorkQueue {
    items: Vec<FetchTarget>,
    /// The targets handed out so far, the latest first.
    taken: Ghost<Seq<FetchTarget>>,
    /// The targets the queue was built with.
    initial: Ghost<Seq<FetchTarget>>,
}

impl WorkQueue {
    /// The targets not yet handed out; the last is the next to go.
    pub closed spec fn remaining(&self) -> Seq<FetchTarget> {
        self.items@
    }

    /// The targets handed out so far, the latest first.
    pub closed spec fn taken(&self) -> Seq<FetchTarget> {
        self.taken@
    }

    /// The targets the queue was built with.
    pub closed spec fn initial(&self) -> Seq<FetchTarget> {
        self.initial@
    }

    /// Every target the queue was built with is either still in it or was
    /// handed out, once.
    pub closed spec fn wf(&self) -> bool {
        self.initial@ == self.items@ + self.taken@
    }

    /// Builds the queue of a run: the targets of the universe whose URL is
    /// not completed, in the universe's order.
    pub fn new(universe: &Vec<FetchTarget>, done: &CompletedSet) -> (r: WorkQueue)
        ensures
            r.wf(),
            r.initial() == pending(universe@, done@),
            r.remaining() == r.initial(),
            r.taken() == Seq::<FetchTarget>::empty(),
    {
        let mut items: Vec<FetchTarget> = Vec::new();
        let mut i: usize = 0;
        while i < universe.len()
            invariant
                i <= universe.len(),
                items@ == pending(universe@.subrange(0, i as int), done@),
            decreases universe.len() - i,
        {
            let target = &universe[i];
            let is_done = done.contains(&target.url);
            proof {
                let f = |t: FetchTarget| !done@.contains(t.url@);
                assert(universe@.subrange(0, i + 1) =~= universe@.subrange(0, i as int).push(universe@[i as int]));
                universe@.subrange(0, i as int).lemma_filter_push(universe@[i as int], f);
            }
            if !is_done {
                items.push(target.duplicate());
            }
            i = i + 1;
        }
        proof {
            assert(universe@.subrange(0, universe@.len() as int) =~= universe@);
        }
        let ghost initial = items@;
        WorkQueue { items, taken: Ghost(Seq::empty()), initial: Ghost(initial) }
    }

    /// Takes one target, or signals that none is left; returns as well how
    /// many remain after the pop, observed in the same step.
    pub fn pop(&mut self) -> (r: (Option<FetchTarget>, usize))
        requires
            old(self).wf(),
        ensures
            final(self).wf(),
            final(self).initial() == old(self).initial(),
            r.1 == final(self).remaining().len(),
            old(self).remaining().len() == 0 ==> {
                &&& r.0 is None
                &&& final(self).remaining() == old(self).remaining()
                &&& final(self).taken() == old(self).taken()
            },
            old(self).remaining().len() > 0 ==> {
                &&& r.0 == Some(old(self).remaining().last())
                &&& final(self).remaining() == old(self).remaining().drop_last()
                &&& final(self).taken() == seq![old(self).remaining().last()] + old(self).taken()
            },
    {
        let next = self.items.pop();
        proof {
            if next is Some {
                self.taken@ = seq![next->0] + self.taken@;
                assert(self.initial@ =~= self.items@ + self.taken@);
            }
        }
        let remaining = self.items.len();
        (next, remaining)
    }

    /// Once a queue is empty, it has handed out every target it was built with.
    pub proof fn lemma_drained(&self)
        requires
            self.wf(),
            self.remaining().len() == 0,
        ensures
            self.taken() == self.initial(),
    {
        assert(self.items@ + self.taken@ =~= self.taken@);
    }

    /// How many targets remain.
    pub fn len(&self) -> (r: usize)
        ensures
            r == self.remaining().len(),
    {
        self.items.len()
    }
}

} // verus!
