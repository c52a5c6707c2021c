use vstd::prelude::*;
use crate::queue::{WorkQueue, lemma_pending_urls_unique, pending};
use crate::record::{FetchResult, FetchTarget, all_results, result_count, result_urls, target_urls};
use crate::worker::{Phase, Worker, lemma_finished_worker};

verus! {

broadcast use {vstd::seq_lib::group_to_multiset_ensures, vstd::seq_lib::group_filter_ensures};

/// Why a configuration is refused.
#[derive(PartialEq, Eq, Structural, Debug)]
pub enum ConfigError {
    /// No worker would run, and nothing would be fetched.
    NoWorkers,
    /// A bundle must hold at least one result.
    EmptyBundles,
}

/// The settings of a run.
pub struct PipelineConfig {
    /// How many workers fetch at once.
    pub parallelism: usize,
    /// How long each fetch may take, in seconds.
    pub timeout_seconds: u64,
    /// How many results each bundle holds, but the last of each worker.
    pub bundle_size: usize,
}

impl PipelineConfig {
    /// A configuration, refused where it has no worker or empty bundles.
    pub fn new(parallelism: usize, timeout_seconds: u64, bundle_size: usize) -> (r: Result<PipelineConfig, ConfigError>)
        ensures
            parallelism == 0 ==> r == Err::<PipelineConfig, ConfigError>(ConfigError::NoWorkers),
            parallelism > 0 && bundle_size == 0 ==> r == Err::<PipelineConfig, ConfigError>(ConfigError::EmptyBundles),
            parallelism > 0 && bundle_size > 0 ==> (r matches Ok(c) && c.parallelism == parallelism
                && c.timeout_seconds == timeout_seconds && c.bundle_size == bundle_size),
    {
        if parallelism == 0 {
            Err(ConfigError::NoWorkers)
        } else if bundle_size == 0 {
            Err(ConfigError::EmptyBundles)
        } else {
            Ok(PipelineConfig { parallelism, timeout_seconds, bundle_size })
        }
    }
}

/// The first error among the ends of a run's workers, in the order they
/// were joined.
pub open spec fn first_error<E>(ends: Seq<Result<(), E>>) -> Option<E>
    decreases ends.len(),
{
    if ends.len() == 0 {
        None
    } else {
        match ends[0] {
            Err(e) => Some(e),
            Ok(()) => first_error(ends.drop_first()),
        }
    }
}

/// How a run ends, from how each of its workers ended, in the order they
/// were joined: the first error, or success where every worker succeeded.
pub fn first_failure<E>(ends: Vec<Result<(), E>>) -> (r: Result<(), E>)
    ensures
        r == match first_error(ends@) {
            None => Ok::<(), E>(()),
            Some(e) => Err(e),
        },
{
    let mut ends = ends;
    let ghost all = ends@;
    let mut first: Option<E> = None;
    // Walk the ends from the back, keeping the earliest error seen.
    let mut i: usize = ends.len();
    proof {
        assert(all.subrange(i as int, all.len() as int) =~= Seq::<Result<(), E>>::empty());
    }
    while i > 0
        invariant
            i <= all.len(),
            ends@ == all.subrange(0, i as int),
            first == first_error(all.subrange(i as int, all.len() as int)),
        decreases i,
    {
        let end = ends.pop().unwrap();
        i = i - 1;
        proof {
            assert(all.subrange(i as int, all.len() as int).drop_first() =~= all.subrange(i + 1, all.len() as int));
            assert(all.subrange(i as int, all.len() as int)[0] == end);
        }
        match end {
            Ok(()) => {},
            Err(e) => {
                first = Some(e);
            },
        }
    }
    proof {
        assert(all.subrange(0, all.len() as int) =~= all);
    }
    match first {
        None => Ok(()),
        Some(e) => Err(e),
    }
}

/// The bundles handed out by a run's workers, worker after worker.
pub open spec fn run_bundles(workers: Seq<Worker>) -> Seq<Seq<FetchResult>>
    decreases workers.len(),
{
    if workers.len() == 0 {
        Seq::empty()
    } else {
        run_bundles(workers.drop_last()) + workers.last().written()
    }
}

/// The URLs popped by a run's workers, worker after worker.
pub open spec fn run_popped(workers: Seq<Worker>) -> Seq<Seq<char>>
    decreases workers.len(),
{
    if workers.len() == 0 {
        Seq::empty()
    } else {
        run_popped(workers.drop_last()) + workers.last().popped()
    }
}

/// The URLs of every result a run's workers handed out.
pub open spec fn run_result_urls(workers: Seq<Worker>) -> Seq<Seq<char>> {
    result_urls(all_results(run_bundles(workers)))
}

/// Every worker of the run has finished.
pub open spec fn all_finished(workers: Seq<Worker>) -> bool {
    forall|i: int| 0 <= i < workers.len() ==> #[trigger] workers[i].wf() && workers[i].phase() == Phase::Done
}

/// A completed run of a queue: the queue is empty, every worker finished,
/// and each target the queue handed out went to exactly one worker.
pub open spec fn completed_run(queue: WorkQueue, workers: Seq<Worker>) -> bool {
    &&& queue.wf()
    &&& queue.remaining().len() == 0
    &&& all_finished(workers)
    &&& run_popped(workers).to_multiset() == target_urls(queue.taken()).to_multiset()
}

/// Concurrency safety: however many workers a run has, the results in the
/// bundles they hand out are exactly as many as the targets they popped, and
/// carry the popped URLs.
pub proof fn lemma_results_match_pops(workers: Seq<Worker>)
    requires
        all_finished(workers),
    ensures
        run_result_urls(workers) == run_popped(workers),
        result_count(run_bundles(workers)) == run_popped(workers).len(),
    decreases workers.len(),
{
    if workers.len() > 0 {
        let rest = workers.drop_last();
        let last = workers.last();
        assert forall|i: int| 0 <= i < rest.len() implies #[trigger] rest[i].wf() && rest[i].phase() == Phase::Done by {
            assert(rest[i] == workers[i]);
            assert(workers[i].wf() && workers[i].phase() == Phase::Done);
        }
        assert(all_finished(rest));
        assert(workers[workers.len() - 1].wf() && workers[workers.len() - 1].phase() == Phase::Done);
        lemma_results_match_pops(rest);
        lemma_finished_worker(last);
        vstd::seq_lib::lemma_flatten_concat(run_bundles(rest), last.written());
        assert(run_result_urls(workers) =~= run_result_urls(rest) + result_urls(all_results(last.written())));
    } else {
        assert(run_result_urls(workers) =~= Seq::<Seq<char>>::empty());
    }
}

/// No loss: after a completed run, the URLs of the results its workers
/// handed out are, counted with multiplicity, exactly those of the targets
/// the queue was built with; so a URL has a result in the run if and only
/// if the universe holds it and it was not completed at the start. Where the
/// universe names each URL once, no URL has two results in the run.
pub proof fn lemma_run_covers_pending(
    universe: Seq<FetchTarget>,
    done: Set<Seq<char>>,
    queue: WorkQueue,
    workers: Seq<Worker>,
)
    requires
        queue.initial() == pending(universe, done),
        completed_run(queue, workers),
    ensures
        run_result_urls(workers).to_multiset() == target_urls(pending(universe, done)).to_multiset(),
        forall|u: Seq<char>| #[trigger] run_result_urls(workers).contains(u) <==> (target_urls(universe).contains(u)
            && !done.contains(u)),
        target_urls(universe).no_duplicates() ==> run_result_urls(workers).no_duplicates(),
{
    lemma_results_match_pops(workers);
    queue.lemma_drained();
    let f = |t: FetchTarget| !done.contains(t.url@);
    assert forall|u: Seq<char>| #[trigger] run_result_urls(workers).contains(u) <==> (target_urls(universe).contains(u)
        && !done.contains(u)) by {
        let ps = pending(universe, done);
        assert(run_result_urls(workers).contains(u) <==> target_urls(ps).contains(u)) by {
            assert(run_result_urls(workers).to_multiset().count(u) == target_urls(ps).to_multiset().count(u));
        }
        if target_urls(ps).contains(u) {
            let k = choose|k: int| 0 <= k < target_urls(ps).len() && target_urls(ps)[k] == u;
            assert(ps.contains(ps[k]));
            universe.lemma_filter_contains_rev(f, ps[k]);
            let m = choose|m: int| 0 <= m < universe.len() && universe[m] == ps[k];
            assert(target_urls(universe)[m] == u);
        }
        if target_urls(universe).contains(u) && !done.contains(u) {
            let m = choose|m: int| 0 <= m < target_urls(universe).len() && target_urls(universe)[m] == u;
            universe.lemma_filter_contains(f, m);
            let k = choose|k: int| 0 <= k < ps.len() && ps[k] == universe[m];
            assert(target_urls(ps)[k] == u);
        }
    }
    if target_urls(universe).no_duplicates() {
        let ps = pending(universe, done);
        lemma_pending_urls_unique(universe, done);
        target_urls(ps).lemma_multiset_has_no_duplicates();
        run_result_urls(workers).lemma_multiset_has_no_duplicates_conv();
    }
}

/// Idempotent resumption: once a run has completed, the queue built from
/// the same universe, with the URLs of that run's results added to the
/// completed ones, is empty.
pub proof fn lemma_rerun_fetches_nothing(
    universe: Seq<FetchTarget>,
    done: Set<Seq<char>>,
    queue: WorkQueue,
    workers: Seq<Worker>,
)
    requires
        queue.initial() == pending(universe, done),
        completed_run(queue, workers),
    ensures
        pending(universe, done.union(run_result_urls(workers).to_set())) == Seq::<FetchTarget>::empty(),
{
    lemma_run_covers_pending(universe, done, queue, workers);
    let done2 = done.union(run_result_urls(workers).to_set());
    let g = |t: FetchTarget| !done2.contains(t.url@);
    let again = pending(universe, done2);
    if again.len() > 0 {
        let t = again[0];
        assert(again.contains(t));
        universe.lemma_filter_contains_rev(g, t);
        assert(g(again[0]));
        let m = choose|m: int| 0 <= m < universe.len() && universe[m] == t;
        assert(target_urls(universe)[m] == t.url@);
        assert(run_result_urls(workers).contains(t.url@));
        assert(false);
    }
    assert(again =~= Seq::<FetchTarget>::empty());
}

} // verus!
