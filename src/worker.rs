use vstd::prelude::*;
use vstd::string::StringExecFns;
use crate::numeral::{decimal, push_decimal};
use crate::clock::now_nanos;
use crate::record::{FetchOutcome, FetchResult, FetchTarget, all_results, result_count, result_urls};

verus! {

/// Where a worker stands between two steps.
#[derive(PartialEq, Eq, Structural)]
pub enum Phase {
    /// It waits for the result of a pop from the queue.
    Popping,
    /// It waits for the outcome of the fetch it asked for.
    Fetching,
    /// It waits for a bundle to be written; more work follows.
    Flushing,
    /// It waits for its last bundle to be written.
    FinalFlushing,
    /// The queue was empty and nothing is left buffered.
    Done,
}

/// A batch of results to be written as one bundle.
pub struct Bundle {
    /// The worker that filled it.
    pub worker: usize,
    /// How many bundles that worker handed out before this one.
    pub sequence: u64,
    /// The results, in the order they were fetched.
    pub results: Vec<FetchResult>,
}

/// The file name of a bundle written at `stamp_nanos` (not negative) by
/// worker `worker` as its bundle number `sequence`: the three numbers in
/// decimal, joined by `-`. The time keeps names of different runs apart,
/// the worker and the number those of one run.
pub open spec fn bundle_name_of(stamp_nanos: nat, worker: nat, sequence: nat) -> Seq<char> {
    decimal(stamp_nanos) + "-"@ + decimal(worker) + "-"@ + decimal(sequence)
}

/// The file name of a bundle written at `stamp_nanos`, see `bundle_name_of`.
pub fn bundle_file_name(stamp_nanos: i64, worker: usize, sequence: u64) -> (r: String)
    requires
        stamp_nanos >= 0,
    ensures
        r@ == bundle_name_of(stamp_nanos as nat, worker as nat, sequence as nat),
{
    let mut name = String::new();
    push_decimal(&mut name, stamp_nanos as u64);
    name.append("-");
    push_decimal(&mut name, worker as u64);
    name.append("-");
    push_decimal(&mut name, sequence);
    name
}

impl Bundle {
    /// A file name for this bundle, from the time now.
    pub fn file_name(&self) -> (r: String)
        ensures
            exists|stamp: nat| r@ == bundle_name_of(stamp, self.worker as nat, self.sequence as nat),
    {
        let stamp = now_nanos();
        let r = bundle_file_name(stamp, self.worker, self.sequence);
        proof {
            assert(r@ == bundle_name_of(stamp as nat, self.worker as nat, self.sequence as nat));
        }
        r
    }
}

/// What a worker asks its runner to do next.
pub enum WorkerAction {
    /// Pop one target from the queue, and hand the result to `on_popped`.
    Pop,
    /// Fetch this URL, and hand the outcome to `on_fetched`.
    Fetch(String),
    /// Write this bundle, and call `on_flushed` once it is written.
    Flush(Bundle),
    /// Nothing is left to do.
    Finished,
}

/// The decisions of one fetch worker: it takes targets one at a time,
/// buffers their results, and hands a bundle out for writing when the buffer
/// reaches the threshold, and once more, with what is left, when the queue is
/// empty.
pub struct Worker {
    id: usize,
    threshold: usize,
    buffer: Vec<FetchResult>,
    phase: Phase,
    in_flight: String,
    flushes: u64,
    popped: Ghost<Seq<Seq<char>>>,
    written: Ghost<Seq<Seq<FetchResult>>>,
}

/// The number of results at which a buffer is handed out: the threshold, and
/// at least one.
pub open spec fn flush_size(threshold: usize) -> nat {
    if threshold == 0 { 1 } else { threshold as nat }
}

/// `after` is `before` with one more result at its end, for `url`, fetched
/// at `at`, ending in `outcome`.
pub open spec fn appends_result(
    after: Seq<FetchResult>,
    before: Seq<FetchResult>,
    url: Seq<char>,
    at: i64,
    outcome: FetchOutcome,
) -> bool {
    &&& after.len() == before.len() + 1
    &&& after.subrange(0, before.len() as int) == before
    &&& after.last().url@ == url
    &&& after.last().fetched_at_nanos == at
    &&& after.last().outcome == outcome
}

/// The URLs of the results in bundles `written` followed by `b`: those of
/// `written`, then those of `b`.
pub proof fn lemma_written_push(written: Seq<Seq<FetchResult>>, b: Seq<FetchResult>)
    ensures
        result_urls(all_results(written.push(b))) == result_urls(all_results(written)) + result_urls(b),
        result_count(written.push(b)) == result_count(written) + b.len(),
{
    written.lemma_flatten_push(b);
    assert(result_urls(all_results(written.push(b))) =~= result_urls(all_results(written)) + result_urls(b));
}

/// A finished worker has handed out, bundle after bundle, one result for
/// each target it popped, in the order it popped them.
pub proof fn lemma_finished_worker(w: Worker)
    requires
        w.wf(),
        w.phase() == Phase::Done,
    ensures
        result_urls(all_results(w.written())) == w.popped(),
        result_count(w.written()) == w.popped().len(),
{
    assert(result_urls(w.buffer@) =~= Seq::<Seq<char>>::empty());
    assert(result_urls(all_results(w.written@)) + result_urls(w.buffer@) =~= result_urls(all_results(w.written@)));
}

impl Worker {
    pub closed spec fn id(&self) -> usize {
        self.id
    }

    pub closed spec fn threshold(&self) -> usize {
        self.threshold
    }

    /// The results fetched and not yet handed out, in the order fetched.
    pub closed spec fn buffer(&self) -> Seq<FetchResult> {
        self.buffer@
    }

    pub closed spec fn phase(&self) -> Phase {
        self.phase
    }

    /// The URL being fetched, while the phase is `Fetching`.
    pub closed spec fn in_flight(&self) -> Seq<char> {
        self.in_flight@
    }

    /// The URLs of the targets this worker popped, in order.
    pub closed spec fn popped(&self) -> Seq<Seq<char>> {
        self.popped@
    }

    /// The bundles this worker handed out for writing, in order.
    pub closed spec fn written(&self) -> Seq<Seq<FetchResult>> {
        self.written@
    }

    /// Every popped target is accounted for exactly once and in order: in a
    /// bundle handed out, in the buffer, or (last) being fetched.
    pub closed spec fn wf(&self) -> bool {
        &&& self.phase == Phase::Fetching ==> result_urls(all_results(self.written@)) + result_urls(
            self.buffer@,
        ) + seq![self.in_flight@] == self.popped@
        &&& self.phase != Phase::Fetching ==> result_urls(all_results(self.written@)) + result_urls(
            self.buffer@,
        ) == self.popped@
        &&& self.buffer@.len() < flush_size(self.threshold)
        &&& (self.phase == Phase::FinalFlushing || self.phase == Phase::Done) ==> self.buffer@.len()
            == 0
        &&& forall|k: int| 0 <= k < self.written@.len() ==> #[trigger] self.written@[k].len() > 0
    }

    /// A worker that has popped nothing yet; its first action is `Pop`.
    pub fn new(id: usize, threshold: usize) -> (r: Worker)
        ensures
            r.wf(),
            r.id() == id,
            r.threshold() == threshold,
            r.phase() == Phase::Popping,
            r.buffer().len() == 0,
            r.popped().len() == 0,
            r.written().len() == 0,
    {
        let r = Worker {
            id,
            threshold,
            buffer: Vec::new(),
            phase: Phase::Popping,
            in_flight: String::new(),
            flushes: 0,
            popped: Ghost(Seq::empty()),
            written: Ghost(Seq::empty()),
        };
        proof {
            assert(all_results(Seq::<Seq<FetchResult>>::empty()) =~= Seq::<FetchResult>::empty());
            assert(result_urls(Seq::<FetchResult>::empty()) + result_urls(Seq::<FetchResult>::empty())
                =~= Seq::<Seq<char>>::empty());
        }
        r
    }

    /// Takes the result of a pop. A target is to be fetched next; an empty
    /// queue ends the work, after one last bundle with everything still
    /// buffered, if anything is.
    pub fn on_popped(&mut self, popped: Option<FetchTarget>) -> (r: WorkerAction)
        requires
            old(self).wf(),
            old(self).phase() == Phase::Popping,
        ensures
            final(self).wf(),
            final(self).id() == old(self).id(),
            final(self).threshold() == old(self).threshold(),
            match popped {
                Some(t) => {
                    &&& r matches WorkerAction::Fetch(u) && u@ == t.url@
                    &&& final(self).phase() == Phase::Fetching
                    &&& final(self).in_flight() == t.url@
                    &&& final(self).popped() == old(self).popped().push(t.url@)
                    &&& final(self).buffer() == old(self).buffer()
                    &&& final(self).written() == old(self).written()
                },
                None => {
                    &&& final(self).popped() == old(self).popped()
                    &&& final(self).buffer().len() == 0
                    &&& if old(self).buffer().len() == 0 {
                        &&& r is Finished
                        &&& final(self).phase() == Phase::Done
                        &&& final(self).written() == old(self).written()
                    } else {
                        &&& r matches WorkerAction::Flush(b) && b.results@ == old(self).buffer()
                            && b.worker == old(self).id()
                        &&& final(self).phase() == Phase::FinalFlushing
                        &&& final(self).written() == old(self).written().push(old(self).buffer())
                    }
                },
            },
    {
        match popped {
            Some(target) => {
                proof {
                    self.popped@ = self.popped@.push(target.url@);
                }
                self.in_flight = target.url.clone();
                self.phase = Phase::Fetching;
                proof {
                    assert(result_urls(all_results(self.written@)) + result_urls(self.buffer@)
                        + seq![self.in_flight@] =~= self.popped@);
                }
                WorkerAction::Fetch(target.url)
            },
            None => {
                if self.buffer.len() == 0 {
                    self.phase = Phase::Done;
                    WorkerAction::Finished
                } else {
                    proof {
                        lemma_written_push(self.written@, self.buffer@);
                        assert(result_urls(Seq::<FetchResult>::empty()) =~= Seq::<Seq<char>>::empty());
                        assert(result_urls(all_results(self.written@)) + result_urls(self.buffer@)
                            + result_urls(Seq::<FetchResult>::empty())
                            =~= result_urls(all_results(self.written@)) + result_urls(self.buffer@));
                    }
                    let bundle = self.take_bundle();
                    self.phase = Phase::FinalFlushing;
                    WorkerAction::Flush(bundle)
                }
            },
        }
    }

    /// Takes the outcome of the fetch in flight, fetched at `fetched_at_nanos`,
    /// and buffers its result. A buffer that reaches the threshold is handed
    /// out whole as a bundle; otherwise the next action is a pop.
    pub fn on_fetched(&mut self, outcome: FetchOutcome, fetched_at_nanos: i64) -> (r: WorkerAction)
        requires
            old(self).wf(),
            old(self).phase() == Phase::Fetching,
        ensures
            final(self).wf(),
            final(self).id() == old(self).id(),
            final(self).threshold() == old(self).threshold(),
            final(self).popped() == old(self).popped(),
            if old(self).buffer().len() + 1 >= flush_size(old(self).threshold()) {
                &&& r matches WorkerAction::Flush(b) && b.worker == old(self).id() && appends_result(
                    b.results@,
                    old(self).buffer(),
                    old(self).in_flight(),
                    fetched_at_nanos,
                    outcome,
                ) && final(self).written() == old(self).written().push(b.results@)
                &&& final(self).buffer().len() == 0
                &&& final(self).phase() == Phase::Flushing
            } else {
                &&& r is Pop
                &&& appends_result(
                    final(self).buffer(),
                    old(self).buffer(),
                    old(self).in_flight(),
                    fetched_at_nanos,
                    outcome,
                )
                &&& final(self).written() == old(self).written()
                &&& final(self).phase() == Phase::Popping
            },
    {
        let ghost before = self.buffer@;
        let url = self.in_flight.clone();
        self.buffer.push(FetchResult { url, fetched_at_nanos, outcome });
        proof {
            assert(self.buffer@.subrange(0, before.len() as int) =~= before);
            assert(result_urls(self.buffer@) =~= result_urls(before).push(self.in_flight@));
            assert(result_urls(all_results(self.written@)) + result_urls(self.buffer@)
                =~= result_urls(all_results(self.written@)) + result_urls(before) + seq![self.in_flight@]);
        }
        if self.buffer.len() >= self.threshold {
            proof {
                lemma_written_push(self.written@, self.buffer@);
                assert(result_urls(Seq::<FetchResult>::empty()) =~= Seq::<Seq<char>>::empty());
                assert(result_urls(all_results(self.written@)) + result_urls(self.buffer@)
                    + result_urls(Seq::<FetchResult>::empty())
                    =~= result_urls(all_results(self.written@)) + result_urls(self.buffer@));
            }
            let bundle = self.take_bundle();
            self.phase = Phase::Flushing;
            WorkerAction::Flush(bundle)
        } else {
            self.phase = Phase::Popping;
            WorkerAction::Pop
        }
    }

    /// Takes word that the last bundle handed out was written: the work goes
    /// on with a pop, or ends if that bundle was the last.
    pub fn on_flushed(&mut self) -> (r: WorkerAction)
        requires
            old(self).wf(),
            old(self).phase() == Phase::Flushing || old(self).phase() == Phase::FinalFlushing,
        ensures
            final(self).wf(),
            final(self).id() == old(self).id(),
            final(self).threshold() == old(self).threshold(),
            final(self).popped() == old(self).popped(),
            final(self).buffer() == old(self).buffer(),
            final(self).written() == old(self).written(),
            old(self).phase() == Phase::Flushing ==> r is Pop && final(self).phase() == Phase::Popping,
            old(self).phase() == Phase::FinalFlushing ==> r is Finished && final(self).phase()
                == Phase::Done,
    {
        if self.phase == Phase::Flushing {
            self.phase = Phase::Popping;
            WorkerAction::Pop
        } else {
            self.phase = Phase::Done;
            WorkerAction::Finished
        }
    }

    /// Hands the whole buffer out as a bundle.
    fn take_bundle(&mut self) -> (r: Bundle)
        requires
            old(self).buffer@.len() > 0,
        ensures
            r.results@ == old(self).buffer@,
            r.worker == old(self).id,
            r.sequence == old(self).flushes,
            final(self).buffer@.len() == 0,
            final(self).written@ == old(self).written@.push(old(self).buffer@),
            final(self).id == old(self).id,
            final(self).threshold == old(self).threshold,
            final(self).phase == old(self).phase,
            final(self).in_flight == old(self).in_flight,
            final(self).popped == old(self).popped,
    {
        let mut results: Vec<FetchResult> = Vec::new();
        std::mem::swap(&mut results, &mut self.buffer);
        let sequence = self.flushes;
        self.flushes = self.flushes.saturating_add(1);
        proof {
            self.written@ = self.written@.push(results@);
        }
        Bundle { worker: self.id, sequence, results }
    }
}

} // verus!
