//! The bounded handoff queue and its exactly-once accounting.
//!
//! One producer enqueues jobs (a file path plus its loaded bytes) into a
//! bounded queue; a pool of symmetric workers drains it, scans each job
//! against the shared immutable rule set, and emits a match result for
//! every job that matched at least one rule. The model below carries the
//! whole protocol as plain data: the queue with its capacity bound, the
//! closed flag, the collected results, and ghost histories of what was
//! sent, what is held by a worker, and what has been scanned. Its
//! invariant says that every job sent is in exactly one of the three
//! places, so a completed run has scanned every job exactly once; the
//! lemmas at the end say that the collected results do not depend on the
//! order in which workers took the jobs.

use vstd::prelude::*;
use vstd::multiset::Multiset;
use vstd::multiset::group_multiset_axioms;
use vstd::multiset::lemma_multiset_empty_len;
use vstd::seq_lib::group_to_multiset_ensures;
use crate::rule::scan_bytes;

verus! {

/// The unit of work handed through the queue: a file path and its bytes.
pub struct Job {
    pub path: String,
    pub content: Vec<u8>,
}

/// The mathematical value of a `Job`.
pub struct JobView {
    pub path: Seq<char>,
    pub content: Seq<u8>,
}

impl View for Job {
    type V = JobView;

    open spec fn view(&self) -> JobView {
        JobView { path: self.path@, content: self.content@ }
    }
}

/// A file that matched, with the identifiers of the rules it matched, in
/// the engine's discovery order.
pub struct MatchResult {
    pub path: String,
    pub rule_ids: Vec<String>,
}

/// The mathematical value of a `MatchResult`.
pub struct MatchResultView {
    pub path: Seq<char>,
    pub rule_ids: Seq<Seq<char>>,
}

impl View for MatchResult {
    type V = MatchResultView;

    open spec fn view(&self) -> MatchResultView {
        MatchResultView { path: self.path@, rule_ids: id_views(self.rule_ids@) }
    }
}

/// One worker's record of one scanned job: the job, and the matched rule
/// identifiers — `None` where the engine failed on that job.
pub struct ScanRecord {
    pub job: JobView,
    pub ids: Option<Seq<Seq<char>>>,
}

pub open spec fn id_views(ids: Seq<String>) -> Seq<Seq<char>> {
    ids.map_values(|s: String| s@)
}

pub open spec fn ids_view(ids: Option<Vec<String>>) -> Option<Seq<Seq<char>>> {
    match ids {
        Some(v) => Some(id_views(v@)),
        None => None,
    }
}

pub open spec fn job_views(q: Seq<Job>) -> Seq<JobView> {
    q.map_values(|j: Job| j@)
}

pub open spec fn result_views(v: Seq<MatchResult>) -> Seq<MatchResultView> {
    v.map_values(|m: MatchResult| m@)
}

pub open spec fn jobs_of(recs: Seq<ScanRecord>) -> Seq<JobView> {
    recs.map_values(|r: ScanRecord| r.job)
}

/// What one scanned job contributes to the run's results: one match result
/// when the engine succeeded and at least one rule matched, nothing
/// otherwise.
pub open spec fn emitted(rec: ScanRecord) -> Multiset<MatchResultView> {
    match rec.ids {
        Some(ids) => if ids.len() > 0 {
            Multiset::empty().insert(MatchResultView { path: rec.job.path, rule_ids: ids })
        } else {
            Multiset::empty()
        },
        None => Multiset::empty(),
    }
}

/// The results of a whole run, as a multiset: scanning is commutative over
/// the job set, so no order is imposed here.
pub open spec fn results_of(recs: Seq<ScanRecord>) -> Multiset<MatchResultView>
    decreases recs.len(),
{
    if recs.len() == 0 {
        Multiset::empty()
    } else {
        results_of(recs.drop_last()).add(emitted(recs.last()))
    }
}

/// What the producer may learn from one send attempt.
pub enum SendOutcome {
    /// The job was placed at the back of the queue.
    Sent,
    /// The queue held `capacity` jobs; the producer must wait for a worker
    /// to free a slot. This is the system's sole backpressure mechanism.
    Full,
}

/// What the dispatcher does with one enumerated file.
pub enum DispatchOutcome {
    /// The file's bytes were read and the job joined the queue.
    Sent,
    /// The file could not be read: logged by the caller and skipped, and
    /// the run continues with the next file.
    Skipped,
    /// The queue is full; the job is handed back so the producer can
    /// suspend and try the same file again once a worker frees a slot.
    Blocked(Job),
}

/// What a worker may learn from one receive attempt.
pub enum RecvOutcome {
    /// The job at the front of the queue, now held by this worker.
    Received(Job),
    /// The queue is empty but not closed: the worker must wait.
    Empty,
    /// The queue is closed and drained: the worker terminates.
    Finished,
}

/// The state of one scanning run.
pub struct Pipeline {
    /// The bounded handoff queue, front at index zero.
    pub queue: Vec<Job>,
    /// The queue's capacity; sends suspend at this bound.
    pub cap: usize,
    /// Whether the sending side has been closed.
    pub closed: bool,
    /// The match results collected so far, across all workers.
    pub results: Vec<MatchResult>,
    /// Every job the producer has sent, in send order.
    pub sent: Ghost<Seq<JobView>>,
    /// The jobs currently held by workers, received and not yet scanned.
    pub in_flight: Ghost<Multiset<JobView>>,
    /// Every scanned job with its outcome, in scan-completion order.
    pub processed: Ghost<Seq<ScanRecord>>,
}

impl Pipeline {
    /// Every job sent is in exactly one place — still queued, held by a
    /// worker, or scanned — and the collected results are exactly what the
    /// scanned jobs contributed.
    pub open spec fn wf(self) -> bool {
        &&& self.cap >= 1
        &&& self.queue@.len() <= self.cap
        &&& self.sent@.to_multiset() == job_views(self.queue@).to_multiset().add(
            self.in_flight@,
        ).add(jobs_of(self.processed@).to_multiset())
        &&& result_views(self.results@).to_multiset() == results_of(self.processed@)
    }

    /// A run that has ended: the channel is closed, drained, and no worker
    /// still holds a job.
    pub open spec fn done(self) -> bool {
        &&& self.closed
        &&& self.queue@.len() == 0
        &&& self.in_flight@ == Multiset::<JobView>::empty()
    }

    /// A fresh pipeline with the given queue capacity.
    pub fn new(cap: usize) -> (p: Pipeline)
        requires
            cap >= 1,
        ensures
            p.wf(),
            p.cap == cap,
            !p.closed,
            p.queue@.len() == 0,
            p.results@.len() == 0,
            p.sent@ == Seq::<JobView>::empty(),
            p.in_flight@ == Multiset::<JobView>::empty(),
            p.processed@ == Seq::<ScanRecord>::empty(),
    {
        let p = Pipeline {
            queue: Vec::new(),
            cap,
            closed: false,
            results: Vec::new(),
            sent: Ghost(Seq::empty()),
            in_flight: Ghost(Multiset::empty()),
            processed: Ghost(Seq::empty()),
        };
        proof {
            broadcast use group_to_multiset_ensures, group_multiset_axioms;

            assert(job_views(p.queue@) =~= Seq::<JobView>::empty());
            assert(jobs_of(p.processed@) =~= Seq::<JobView>::empty());
            assert(result_views(p.results@) =~= Seq::<MatchResultView>::empty());
            lemma_multiset_empty_len(Seq::<JobView>::empty().to_multiset());
            lemma_multiset_empty_len(Seq::<MatchResultView>::empty().to_multiset());
            assert(p.sent@.to_multiset() =~= job_views(p.queue@).to_multiset().add(
                p.in_flight@,
            ).add(jobs_of(p.processed@).to_multiset()));
        }
        p
    }

    /// One send attempt by the producer. The attempt is refused exactly
    /// when the queue already holds `cap` jobs; the producer then suspends
    /// and retries, which bounds the in-flight work.
    pub fn try_send(&mut self, job: Job) -> (r: SendOutcome)
        requires
            old(self).wf(),
            !old(self).closed,
    ensures
            final(self).wf(),
            final(self).cap == old(self).cap,
            final(self).closed == old(self).closed,
            final(self).results@ == old(self).results@,
            final(self).processed@ == old(self).processed@,
            final(self).in_flight@ == old(self).in_flight@,
            r is Full <==> old(self).queue@.len() == old(self).cap,
            r is Full ==> final(self).queue@ == old(self).queue@ && final(self).sent@ == old(self).sent@,
            r is Sent ==> final(self).queue@ == old(self).queue@.push(job) && final(self).sent@ == old(self).sent@.push(job@),
    {
        broadcast use group_to_multiset_ensures, group_multiset_axioms;

        if self.queue.len() == self.cap {
            return SendOutcome::Full;
        }
        let ghost jv = job@;
        let ghost q0 = self.queue@;
        self.queue.push(job);
        proof {
            self.sent@ = self.sent@.push(jv);
            assert(job_views(self.queue@) =~= job_views(q0).push(jv));
            assert(self.sent@.to_multiset() =~= job_views(self.queue@).to_multiset().add(
                self.in_flight@,
            ).add(jobs_of(self.processed@).to_multiset()));
        }
        SendOutcome::Sent
    }

    /// Closes the sending side: the signal that no further jobs will come.
    pub fn close(&mut self)
        requires
            old(self).wf(),
        ensures
            final(self).wf(),
            final(self).closed,
            final(self).cap == old(self).cap,
            final(self).queue@ == old(self).queue@,
            final(self).results@ == old(self).results@,
            final(self).sent@ == old(self).sent@,
            final(self).in_flight@ == old(self).in_flight@,
            final(self).processed@ == old(self).processed@,
    {
        self.closed = true;
    }

    /// One receive attempt by a worker. The front job is handed over when
    /// one is queued; an empty open queue makes the worker wait; an empty
    /// closed queue ends the worker — so after the close, every worker
    /// terminates once the queue drains, and none terminates earlier.
    pub fn recv(&mut self) -> (r: RecvOutcome)
        requires
            old(self).wf(),
        ensures
            final(self).wf(),
            final(self).cap == old(self).cap,
            final(self).closed == old(self).closed,
            final(self).results@ == old(self).results@,
            final(self).processed@ == old(self).processed@,
            final(self).sent@ == old(self).sent@,
            r is Finished <==> (old(self).closed && old(self).queue@.len() == 0),
            r is Empty <==> (!old(self).closed && old(self).queue@.len() == 0),
            (r is Finished || r is Empty) ==> final(self).queue@ == old(self).queue@
                && final(self).in_flight@ == old(self).in_flight@,
            r matches RecvOutcome::Received(j) ==> old(self).queue@.len() > 0 && j == old(self).queue@[0]
                && final(self).queue@ == old(self).queue@.drop_first() && final(self).in_flight@ == old(self).in_flight@.insert(j@),
    {
        broadcast use group_to_multiset_ensures, group_multiset_axioms;

        if self.queue.len() == 0 {
            if self.closed {
                RecvOutcome::Finished
            } else {
                RecvOutcome::Empty
            }
        } else {
            let ghost q0 = self.queue@;
            let j = self.queue.remove(0);
            proof {
                self.in_flight@ = self.in_flight@.insert(j@);
                assert(job_views(self.queue@) =~= job_views(q0).remove(0));
                assert(job_views(q0)[0] == j@);
                assert(job_views(q0).to_multiset().contains(j@));
                assert(self.sent@.to_multiset() =~= job_views(self.queue@).to_multiset().add(
                    self.in_flight@,
                ).add(jobs_of(self.processed@).to_multiset()));
                assert(self.queue@ =~= q0.drop_first());
            }
            RecvOutcome::Received(j)
        }
    }

    /// One worker finishing one job: the scan outcome is recorded, and a
    /// match result is collected exactly when the engine succeeded and at
    /// least one rule matched. A failed scan is dropped — logged by the
    /// caller — and never retried.
    pub fn finish(&mut self, job: Job, ids: Option<Vec<String>>)
        requires
            old(self).wf(),
            old(self).in_flight@.count(job@) > 0,
        ensures
            final(self).wf(),
            final(self).cap == old(self).cap,
            final(self).closed == old(self).closed,
            final(self).queue@ == old(self).queue@,
            final(self).sent@ == old(self).sent@,
            final(self).in_flight@ == old(self).in_flight@.remove(job@),
            final(self).processed@ == old(self).processed@.push(
                ScanRecord { job: job@, ids: ids_view(ids) },
            ),
            (ids matches Some(v) && v@.len() > 0) ==> result_views(final(self).results@)
                == result_views(old(self).results@).push(
                MatchResultView { path: job.path@, rule_ids: id_views(ids.unwrap()@) },
            ),
            !(ids matches Some(v) && v@.len() > 0) ==> final(self).results@ == old(self).results@,
    {
        broadcast use group_to_multiset_ensures, group_multiset_axioms;

        let ghost jv = job@;
        let ghost rec = ScanRecord { job: job@, ids: ids_view(ids) };
        let ghost r0 = self.results@;
        let ghost p0 = self.processed@;
        match ids {
            Some(v) => {
                if v.len() > 0 {
                    self.results.push(MatchResult { path: job.path, rule_ids: v });
                    proof {
                        assert(result_views(self.results@) =~= result_views(r0).push(
                            self.results@.last()@,
                        ));
                    }
                }
            },
            None => {},
        }
        proof {
            self.in_flight@ = self.in_flight@.remove(jv);
            self.processed@ = self.processed@.push(rec);
            assert(self.processed@.drop_last() =~= p0);
            assert(results_of(self.processed@) == results_of(p0).add(emitted(rec)));
            assert(jobs_of(self.processed@) =~= jobs_of(p0).push(jv));
            assert(result_views(self.results@).to_multiset() =~= results_of(self.processed@));
            assert(self.sent@.to_multiset() =~= job_views(self.queue@).to_multiset().add(
                self.in_flight@,
            ).add(jobs_of(self.processed@).to_multiset()));
        }
    }
}

impl Pipeline {
    /// One dispatcher step for one enumerated file: a file whose bytes
    /// could not be read is skipped — this unit-level failure never aborts
    /// the run — and a file that was read becomes a job for the queue,
    /// blocking the producer exactly when the queue is at capacity.
    pub fn dispatch_step(&mut self, path: String, read: Option<Vec<u8>>) -> (r: DispatchOutcome)
        requires
            old(self).wf(),
            !old(self).closed,
        ensures
            final(self).wf(),
            final(self).cap == old(self).cap,
            final(self).closed == old(self).closed,
            final(self).results@ == old(self).results@,
            final(self).processed@ == old(self).processed@,
            final(self).in_flight@ == old(self).in_flight@,
            r is Skipped <==> read is None,
            r is Blocked <==> (read is Some && old(self).queue@.len() == old(self).cap),
            (r is Skipped || r is Blocked) ==> final(self).queue@ == old(self).queue@
                && final(self).sent@ == old(self).sent@,
            r matches DispatchOutcome::Blocked(j) ==> j.path@ == path@ && j.content@
                == read.unwrap()@,
            r is Sent ==> final(self).queue@.len() == old(self).queue@.len() + 1
                && final(self).queue@.last().path@ == path@ && final(self).queue@.last().content@
                == read.unwrap()@ && final(self).sent@ == old(self).sent@.push(
                final(self).queue@.last()@,
            ),
    {
        match read {
            None => DispatchOutcome::Skipped,
            Some(content) => {
                let job = Job { path, content };
                if self.queue.len() == self.cap {
                    return DispatchOutcome::Blocked(job);
                }
                let r = self.try_send(job);
                proof {
                    assert(r is Sent);
                }
                DispatchOutcome::Sent
            },
        }
    }

    /// One worker draining the queue: receive the front job, scan it with
    /// a fresh context against the shared rule set, emit or skip, and
    /// repeat until the queue is empty — terminating when the closed queue
    /// drains, waiting (here: returning) when an open queue is merely
    /// empty. Every drained job is scanned exactly once, in queue order,
    /// and a worker failing on one job never aborts the others.
    #[verifier::loop_isolation(false)]
    pub fn worker_drain(&mut self, rules: &yara_x::Rules)
        requires
            old(self).wf(),
        ensures
            final(self).wf(),
            final(self).cap == old(self).cap,
            final(self).closed == old(self).closed,
            final(self).sent@ == old(self).sent@,
            final(self).in_flight@ == old(self).in_flight@,
            final(self).queue@.len() == 0,
            jobs_of(final(self).processed@) == jobs_of(old(self).processed@) + job_views(
                old(self).queue@,
            ),
            forall|k: int|
                old(self).processed@.len() <= k < final(self).processed@.len() ==> scan_ok(
                    #[trigger] final(self).processed@[k],
                    crate::rule::rules_texts(*rules),
                ),
    {
        broadcast use group_to_multiset_ensures, group_multiset_axioms;

        loop
            invariant
                self.wf(),
                self.cap == old(self).cap,
                self.closed == old(self).closed,
                self.sent@ == old(self).sent@,
                self.in_flight@ == old(self).in_flight@,
                jobs_of(self.processed@) + job_views(self.queue@) == jobs_of(
                    old(self).processed@,
                ) + job_views(old(self).queue@),
                old(self).processed@.len() <= self.processed@.len(),
                forall|k: int|
                    old(self).processed@.len() <= k < self.processed@.len() ==> scan_ok(
                        #[trigger] self.processed@[k],
                        crate::rule::rules_texts(*rules),
                    ),
            decreases self.queue@.len(),
        {
            let ghost p_pre = self.processed@;
            let ghost q_pre = self.queue@;
            match self.recv() {
                RecvOutcome::Received(j) => {
                    let ghost jv = j@;
                    let ids = match scan_bytes(rules, &j.content) {
                        Ok(v) => Some(v),
                        Err(_) => None,
                    };
                    self.finish(j, ids);
                    proof {
                        assert(scan_ok(
                            self.processed@.last(),
                            crate::rule::rules_texts(*rules),
                        ));
                        assert(self.in_flight@ =~= old(self).in_flight@);
                        assert(jobs_of(self.processed@) =~= jobs_of(p_pre).push(jv));
                        assert(job_views(q_pre)[0] == jv);
                        assert(jobs_of(p_pre).push(jv) + job_views(q_pre).drop_first() =~= jobs_of(
                            p_pre,
                        ) + job_views(q_pre));
                        assert(job_views(self.queue@) =~= job_views(q_pre).drop_first());
                    }
                },
                _ => {
                    proof {
                        assert(job_views(self.queue@).len() == 0);
                        assert(jobs_of(self.processed@) + job_views(self.queue@) =~= jobs_of(
                            self.processed@,
                        ));
                    }
                    return ;
                },
            }
        }
    }
}

/// A run that has ended scanned every sent job exactly once, and its
/// collected results are exactly the contributions of those scans: no job
/// is lost, duplicated, or left with a worker.
pub proof fn lemma_completed_run(p: Pipeline)
    requires
        p.wf(),
        p.done(),
    ensures
        jobs_of(p.processed@).to_multiset() == p.sent@.to_multiset(),
        result_views(p.results@).to_multiset() == results_of(p.processed@),
{
    broadcast use group_to_multiset_ensures, group_multiset_axioms;

    assert(job_views(p.queue@).len() == 0);
    lemma_multiset_empty_len(job_views(p.queue@).to_multiset());
    assert(p.sent@.to_multiset() =~= jobs_of(p.processed@).to_multiset());
}

proof fn lemma_results_of_remove(recs: Seq<ScanRecord>, i: int)
    requires
        0 <= i < recs.len(),
    ensures
        results_of(recs) == results_of(recs.remove(i)).add(emitted(recs[i])),
    decreases recs.len(),
{
    broadcast use group_multiset_axioms;

    if i == recs.len() - 1 {
        assert(recs.remove(i) =~= recs.drop_last());
    } else {
        let r2 = recs.remove(i);
        assert(r2.drop_last() =~= recs.drop_last().remove(i));
        assert(r2.last() == recs.last());
        lemma_results_of_remove(recs.drop_last(), i);
        assert(results_of(recs) =~= results_of(r2).add(emitted(recs[i])));
    }
}

/// Scanning is commutative over the job set: two runs that scan the same
/// jobs with the same outcomes — in whatever order, interleaving, or
/// number of workers — collect exactly the same results.
pub proof fn lemma_schedule_invariance(a: Seq<ScanRecord>, b: Seq<ScanRecord>)
    requires
        a.to_multiset() == b.to_multiset(),
    ensures
        results_of(a) == results_of(b),
    decreases b.len(),
{
    broadcast use group_to_multiset_ensures, group_multiset_axioms;

    if b.len() == 0 {
        vstd::seq_lib::to_multiset_len(a);
        vstd::seq_lib::to_multiset_len(b);
        assert(a.len() == b.len());
    } else {
        let x = b.last();
        assert(b.to_multiset().count(x) > 0) by {
            assert(b.contains(x));
        }
        assert(a.contains(x));
        let i = choose|i: int| 0 <= i < a.len() && a[i] == x;
        lemma_results_of_remove(a, i);
        assert(b.drop_last() =~= b.remove(b.len() - 1));
        assert(a.remove(i).to_multiset() == b.drop_last().to_multiset());
        lemma_schedule_invariance(a.remove(i), b.drop_last());
    }
}

/// One worker's record agrees with the engine: what was recorded for the
/// job is exactly what scanning its bytes against the rule set built from
/// the given texts yields — identifiers on success, nothing on failure.
pub open spec fn scan_ok(rec: ScanRecord, srcs: Seq<Seq<char>>) -> bool {
    rec.ids == crate::rule::scan_outcome(srcs, rec.job.content)
}

/// Every record follows a given outcome function of the job's bytes.
pub open spec fn records_follow(
    recs: Seq<ScanRecord>,
    outcome: spec_fn(Seq<u8>) -> Option<Seq<Seq<char>>>,
) -> bool {
    forall|i: int|
        0 <= i < recs.len() ==> (#[trigger] recs[i]).ids == outcome(recs[i].job.content)
}

/// Worker-count invariance: when each job's recorded outcome is a
/// function of its bytes — as the engine here guarantees, failures
/// included — the results of a run are a function of the scanned job
/// multiset alone. Two runs over the same jobs, under any worker counts
/// and any schedules, collect exactly the same results.
pub proof fn lemma_worker_count_invariance(
    a: Seq<ScanRecord>,
    b: Seq<ScanRecord>,
    outcome: spec_fn(Seq<u8>) -> Option<Seq<Seq<char>>>,
)
    requires
        records_follow(a, outcome),
        records_follow(b, outcome),
        jobs_of(a).to_multiset() == jobs_of(b).to_multiset(),
    ensures
        results_of(a) == results_of(b),
    decreases b.len(),
{
    broadcast use group_to_multiset_ensures, group_multiset_axioms;

    if b.len() == 0 {
        vstd::seq_lib::to_multiset_len(jobs_of(a));
        vstd::seq_lib::to_multiset_len(jobs_of(b));
        assert(jobs_of(a).len() == jobs_of(b).len());
        assert(a.len() == 0);
    } else {
        let x = b.last();
        let jx = x.job;
        assert(jobs_of(b)[b.len() - 1] == jx);
        assert(jobs_of(b).to_multiset().count(jx) > 0) by {
            assert(jobs_of(b).contains(jx));
        }
        assert(jobs_of(a).contains(jx));
        let i = choose|i: int| 0 <= i < jobs_of(a).len() && jobs_of(a)[i] == jx;
        assert(a[i].job == jx);
        assert(a[i] == x) by {
            assert(a[i].ids == outcome(a[i].job.content));
            assert(x.ids == outcome(x.job.content));
        }
        lemma_results_of_remove(a, i);
        assert(jobs_of(a.remove(i)) =~= jobs_of(a).remove(i));
        assert(jobs_of(b.drop_last()) =~= jobs_of(b).remove(b.len() - 1));
        assert(jobs_of(a.remove(i)).to_multiset() == jobs_of(b.drop_last()).to_multiset());
        assert(records_follow(a.remove(i), outcome)) by {
            assert(forall|k: int| 0 <= k < a.remove(i).len() ==> #[trigger] a.remove(i)[k] == if k
                < i {
                a[k]
            } else {
                a[k + 1]
            });
        }
        assert(records_follow(b.drop_last(), outcome)) by {
            assert(forall|k: int| 0 <= k < b.len() - 1 ==> #[trigger] b.drop_last()[k] == b[k]);
        }
        lemma_worker_count_invariance(a.remove(i), b.drop_last(), outcome);
        assert(results_of(b) == results_of(b.drop_last()).add(emitted(x)));
    }
}

/// Two runs that ended over the same set of sent jobs, with each job's
/// recorded outcome following one outcome function of its bytes — which
/// the engine's determinism grants, engine failures included — collected
/// exactly the same results, whether their workers numbered 1, 4, or 64,
/// and however their schedules interleaved.
pub proof fn lemma_runs_agree(
    p1: Pipeline,
    p2: Pipeline,
    outcome: spec_fn(Seq<u8>) -> Option<Seq<Seq<char>>>,
)
    requires
        p1.wf(),
        p2.wf(),
        p1.done(),
        p2.done(),
        p1.sent@.to_multiset() == p2.sent@.to_multiset(),
        records_follow(p1.processed@, outcome),
        records_follow(p2.processed@, outcome),
    ensures
        result_views(p1.results@).to_multiset() == result_views(p2.results@).to_multiset(),
{
    lemma_completed_run(p1);
    lemma_completed_run(p2);
    lemma_worker_count_invariance(p1.processed@, p2.processed@, outcome);
}

} // verus!
