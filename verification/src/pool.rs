//! The worker pool: bounded task queue, worker lifecycle, cooperative
//! shutdown.
//!
//! N workers pull tasks from one bounded FIFO queue of capacity N. A worker
//! is `Running` between tasks, `Processing` while one recognition call is in
//! flight, and `Terminated` once it has taken a poison pill and acknowledged
//! it. A failed task returns its worker to `Running`: task failures never
//! terminate a worker. The producer sends every work task, then one poison
//! pill per worker, and counts the acknowledgements.
//!
//! [`Pool`] is this protocol as one state machine: each step method carries
//! the contract of the corresponding queue or worker action, and the pool
//! invariant accounts for every task ever sent — still queued, in flight,
//! completed, or failed. The pool laws at the end of the module state the
//! guarantees of the design: bounded concurrency, serial processing per
//! worker, no task loss, failure isolation, and clean shutdown. The loop
//! that drives a real run performs the same steps with real channels and
//! tasks.

use vstd::prelude::*;

use crate::batch::Payload;
use crate::batch::PayloadV;
use crate::batch::WorkItem;
use crate::batch::WorkV;
use crate::batch::distinct_dests;
use crate::batch::payloads_view;
use vstd::assert_multisets_equal;
use vstd::multiset::Multiset;

verus! {

broadcast use vstd::multiset::group_multiset_axioms, vstd::multiset::group_multiset_properties, vstd::seq_lib::group_to_multiset_ensures;

/// One worker's lifecycle state.
pub enum WorkerState {
    /// Between tasks, ready to receive.
    Running,
    /// One recognition call in flight for this item.
    Processing(WorkItem),
    /// Took the poison pill; receives nothing further.
    Terminated,
}

/// The mathematical value of a worker state.
pub ghost enum WorkerStateV {
    Running,
    Processing(WorkV),
    Terminated,
}

impl View for WorkerState {
    type V = WorkerStateV;

    open spec fn view(&self) -> WorkerStateV {
        match self {
            WorkerState::Running => WorkerStateV::Running,
            WorkerState::Processing(w) => WorkerStateV::Processing(w@),
            WorkerState::Terminated => WorkerStateV::Terminated,
        }
    }
}

/// The views of a sequence of worker states.
pub open spec fn workers_view(s: Seq<WorkerState>) -> Seq<WorkerStateV> {
    s.map_values(|w: WorkerState| w@)
}

/// The work item a task carries, as a multiset: one item for a work task,
/// nothing for a poison pill.
pub open spec fn work_contrib(p: PayloadV) -> Multiset<WorkV> {
    match p {
        PayloadV::File(w) => Multiset::empty().insert(w),
        PayloadV::Close => Multiset::empty(),
    }
}

/// The work items of a sequence of tasks, as a multiset.
pub open spec fn works_ms(s: Seq<PayloadV>) -> Multiset<WorkV>
    decreases s.len(),
{
    if s.len() == 0 {
        Multiset::empty()
    } else {
        works_ms(s.drop_last()).add(work_contrib(s.last()))
    }
}

/// The number of poison pills in a sequence of tasks.
pub open spec fn count_closes(s: Seq<PayloadV>) -> nat
    decreases s.len(),
{
    if s.len() == 0 {
        0
    } else {
        count_closes(s.drop_last()) + (if s.last() is Close {
            1nat
        } else {
            0nat
        })
    }
}

/// The work item a worker holds, as a multiset: one item while processing,
/// nothing otherwise.
pub open spec fn proc_contrib(w: WorkerStateV) -> Multiset<WorkV> {
    match w {
        WorkerStateV::Processing(x) => Multiset::empty().insert(x),
        _ => Multiset::empty(),
    }
}

/// The work items held by the workers, as a multiset: the work in flight.
pub open spec fn processing_ms(ws: Seq<WorkerStateV>) -> Multiset<WorkV>
    decreases ws.len(),
{
    if ws.len() == 0 {
        Multiset::empty()
    } else {
        processing_ms(ws.drop_last()).add(proc_contrib(ws.last()))
    }
}

/// The number of terminated workers.
pub open spec fn count_terminated(ws: Seq<WorkerStateV>) -> nat
    decreases ws.len(),
{
    if ws.len() == 0 {
        0
    } else {
        count_terminated(ws.drop_last()) + (if ws.last() is Terminated {
            1nat
        } else {
            0nat
        })
    }
}

/// The number of workers whose recognition call is in flight.
pub open spec fn count_processing(ws: Seq<WorkerStateV>) -> nat
    decreases ws.len(),
{
    if ws.len() == 0 {
        0
    } else {
        count_processing(ws.drop_last()) + (if ws.last() is Processing {
            1nat
        } else {
            0nat
        })
    }
}

/// Extending a task sequence by one task adds that task's contribution.
proof fn lemma_sent_take_succ(s: Seq<PayloadV>, j: int)
    requires
        0 <= j < s.len(),
    ensures
        works_ms(s.take(j + 1)) == works_ms(s.take(j)).add(work_contrib(s[j])),
        count_closes(s.take(j + 1)) == count_closes(s.take(j)) + (if s[j] is Close {
            1nat
        } else {
            0nat
        }),
{
    assert(s.take(j + 1).drop_last() =~= s.take(j));
    assert(s.take(j + 1).last() == s[j]);
}

/// Replacing one worker's state exchanges its contributions and leaves the
/// other workers' alone.
proof fn lemma_workers_update(ws: Seq<WorkerStateV>, i: int, v: WorkerStateV)
    requires
        0 <= i < ws.len(),
    ensures
        processing_ms(ws.update(i, v)).add(proc_contrib(ws[i])) == processing_ms(ws).add(
            proc_contrib(v),
        ),
        count_terminated(ws.update(i, v)) + (if ws[i] is Terminated {
            1nat
        } else {
            0nat
        }) == count_terminated(ws) + (if v is Terminated {
            1nat
        } else {
            0nat
        }),
    decreases ws.len(),
{
    let u = ws.update(i, v);
    if i == ws.len() - 1 {
        assert(u.drop_last() =~= ws.drop_last());
        assert(u.last() == v);
        assert(ws.last() == ws[i]);
        assert(processing_ms(u) == processing_ms(ws.drop_last()).add(proc_contrib(v)));
        assert(processing_ms(ws) == processing_ms(ws.drop_last()).add(proc_contrib(ws[i])));
        assert_multisets_equal!(
            processing_ms(u).add(proc_contrib(ws[i])),
            processing_ms(ws).add(proc_contrib(v))
        );
    } else {
        assert(u.drop_last() =~= ws.drop_last().update(i, v));
        assert(u.last() == ws.last());
        assert(ws.drop_last()[i] == ws[i]);
        lemma_workers_update(ws.drop_last(), i, v);
        assert(processing_ms(u) == processing_ms(ws.drop_last().update(i, v)).add(
            proc_contrib(ws.last()),
        ));
        assert(processing_ms(ws) == processing_ms(ws.drop_last()).add(proc_contrib(ws.last())));
        assert forall|x: WorkV|
            processing_ms(u).add(proc_contrib(ws[i])).count(x) == processing_ms(ws).add(
                proc_contrib(v),
            ).count(x) by {
            assert(processing_ms(ws.drop_last().update(i, v)).add(
                proc_contrib(ws.drop_last()[i]),
            ).count(x) == processing_ms(ws.drop_last()).add(proc_contrib(v)).count(x));
        }
        assert(processing_ms(u).add(proc_contrib(ws[i])) =~= processing_ms(ws).add(
            proc_contrib(v),
        ));
    }
}

/// A pool of workers none of which has terminated or holds work contributes
/// nothing.
proof fn lemma_workers_all_running(ws: Seq<WorkerStateV>)
    requires
        forall|i: int| 0 <= i < ws.len() ==> ws[i] is Running,
    ensures
        processing_ms(ws) == Multiset::<WorkV>::empty(),
        count_terminated(ws) == 0,
    decreases ws.len(),
{
    if ws.len() > 0 {
        assert(forall|i: int|
            0 <= i < ws.drop_last().len() ==> ws.drop_last()[i] == ws[i]);
        lemma_workers_all_running(ws.drop_last());
        assert(processing_ms(ws) =~= Multiset::<WorkV>::empty());
    }
}

/// No more workers terminate than exist.
proof fn lemma_count_terminated_le(ws: Seq<WorkerStateV>)
    ensures
        count_terminated(ws) <= ws.len(),
    decreases ws.len(),
{
    if ws.len() > 0 {
        lemma_count_terminated_le(ws.drop_last());
    }
}

/// A worker that has not terminated keeps the terminated count strictly
/// below the worker count.
proof fn lemma_count_terminated_bound(ws: Seq<WorkerStateV>, i: int)
    requires
        0 <= i < ws.len(),
        !(ws[i] is Terminated),
    ensures
        count_terminated(ws) < ws.len(),
    decreases ws.len(),
{
    if i == ws.len() - 1 {
        lemma_count_terminated_le(ws.drop_last());
    } else {
        lemma_count_terminated_bound(ws.drop_last(), i);
    }
}

/// When every worker counts as terminated, every worker is.
proof fn lemma_count_terminated_full(ws: Seq<WorkerStateV>)
    requires
        count_terminated(ws) == ws.len(),
    ensures
        forall|i: int| 0 <= i < ws.len() ==> ws[i] is Terminated,
    decreases ws.len(),
{
    if ws.len() > 0 {
        lemma_count_terminated_le(ws.drop_last());
        assert(ws.last() is Terminated);
        lemma_count_terminated_full(ws.drop_last());
        assert(forall|i: int|
            0 <= i < ws.len() - 1 ==> ws[i] == ws.drop_last()[i]);
    }
}

/// Terminated workers hold no work.
proof fn lemma_processing_all_terminated(ws: Seq<WorkerStateV>)
    requires
        forall|i: int| 0 <= i < ws.len() ==> ws[i] is Terminated,
    ensures
        processing_ms(ws) == Multiset::<WorkV>::empty(),
    decreases ws.len(),
{
    if ws.len() > 0 {
        assert(forall|i: int|
            0 <= i < ws.drop_last().len() ==> ws.drop_last()[i] == ws[i]);
        lemma_processing_all_terminated(ws.drop_last());
        assert(processing_ms(ws) =~= Multiset::<WorkV>::empty());
    }
}

/// At most one recognition call is in flight per worker.
proof fn lemma_processing_le(ws: Seq<WorkerStateV>)
    ensures
        processing_ms(ws).len() <= ws.len(),
    decreases ws.len(),
{
    if ws.len() > 0 {
        lemma_processing_le(ws.drop_last());
    }
}

/// Task contributions split over concatenation.
proof fn lemma_sent_concat(a: Seq<PayloadV>, b: Seq<PayloadV>)
    ensures
        works_ms(a + b) == works_ms(a).add(works_ms(b)),
        count_closes(a + b) == count_closes(a) + count_closes(b),
    decreases b.len(),
{
    if b.len() == 0 {
        assert(a + b =~= a);
        assert(works_ms(a + b).add(works_ms(b)) =~= works_ms(a).add(works_ms(b)));
        assert(works_ms(a + b) =~= works_ms(a).add(works_ms(b)));
    } else {
        lemma_sent_concat(a, b.drop_last());
        assert((a + b).drop_last() =~= a + b.drop_last());
        assert((a + b).last() == b.last());
        assert(works_ms(a + b) =~= works_ms(a).add(works_ms(b)));
    }
}

/// A sequence of work tasks holds no poison pill and one work item per task.
proof fn lemma_all_files(s: Seq<PayloadV>)
    requires
        forall|i: int| 0 <= i < s.len() ==> s[i] is File,
    ensures
        count_closes(s) == 0,
        works_ms(s).len() == s.len(),
    decreases s.len(),
{
    if s.len() > 0 {
        assert(forall|i: int|
            0 <= i < s.drop_last().len() ==> s.drop_last()[i] == s[i]);
        lemma_all_files(s.drop_last());
    }
}

/// A run of poison pills holds that many and no work.
proof fn lemma_all_closes(n: nat)
    ensures
        count_closes(Seq::new(n, |i: int| PayloadV::Close)) == n,
        works_ms(Seq::new(n, |i: int| PayloadV::Close)) == Multiset::<WorkV>::empty(),
    decreases n,
{
    let s = Seq::new(n, |i: int| PayloadV::Close);
    if n > 0 {
        lemma_all_closes((n - 1) as nat);
        assert(s.drop_last() =~= Seq::new((n - 1) as nat, |i: int| PayloadV::Close));
        assert(works_ms(s) =~= Multiset::<WorkV>::empty());
    }
}

/// A task sequence with a poison pill somewhere counts at least one.
proof fn lemma_count_closes_at(s: Seq<PayloadV>, i: int)
    requires
        0 <= i < s.len(),
        s[i] is Close,
    ensures
        count_closes(s) >= 1,
    decreases s.len(),
{
    if i < s.len() - 1 {
        lemma_count_closes_at(s.drop_last(), i);
    }
}

/// The whole pool protocol as one state machine.
///
/// `workers` and `queue` are the pool's visible state; `acks` counts the
/// poison-pill acknowledgements the producer has collected; `files` records
/// every transcription written, in completion order, as destination/text
/// pairs. The ghost history — every task ever sent, every work item
/// completed or failed — ties the visible state to the pool laws below.
pub struct Pool {
    pub workers: Vec<WorkerState>,
    pub queue: Vec<Payload>,
    pub acks: usize,
    pub files: Vec<(Vec<u8>, String)>,
    pub sent: Ghost<Seq<PayloadV>>,
    pub completed: Ghost<Seq<WorkV>>,
    pub failed: Ghost<Multiset<WorkV>>,
}

impl Pool {
    /// The number of tasks already taken off the queue.
    pub open spec fn popped(self) -> int {
        self.sent@.len() - self.queue@.len()
    }

    /// The tasks already taken off the queue: what the workers have seen.
    pub open spec fn consumed(self) -> Seq<PayloadV> {
        self.sent@.take(self.popped())
    }

    /// The pool invariant.
    ///
    /// The queue never outgrows the worker count and holds exactly the sent
    /// tasks not yet received. Every work item received is either in flight,
    /// completed or failed; every poison pill received has terminated one
    /// worker, and the producer's acknowledgement count equals the number of
    /// terminated workers. The recorded files name the completed items'
    /// destinations, in order.
    pub open spec fn wf(self) -> bool {
        &&& self.queue@.len() <= self.workers@.len()
        &&& self.queue@.len() <= self.sent@.len()
        &&& payloads_view(self.queue@) == self.sent@.skip(self.popped())
        &&& works_ms(self.consumed()) == processing_ms(workers_view(self.workers@)).add(
            self.completed@.to_multiset(),
        ).add(self.failed@)
        &&& count_closes(self.consumed()) == count_terminated(workers_view(self.workers@))
        &&& self.acks == count_terminated(workers_view(self.workers@))
        &&& self.files@.len() == self.completed@.len()
        &&& forall|i: int|
            0 <= i < self.files@.len() ==> (#[trigger] self.files@[i]).0@
                == self.completed@[i].dest
    }

    /// Starts a pool of `count` workers, all running, with an empty queue
    /// and no history.
    pub fn new(count: usize) -> (p: Pool)
        ensures
            p.wf(),
            p.workers@.len() == count,
            forall|i: int| 0 <= i < count ==> workers_view(p.workers@)[i] is Running,
            p.queue@.len() == 0,
            p.acks == 0,
            p.files@.len() == 0,
            p.sent@ == Seq::<PayloadV>::empty(),
            p.completed@ == Seq::<WorkV>::empty(),
            p.failed@ == Multiset::<WorkV>::empty(),
    {
        let mut workers: Vec<WorkerState> = Vec::new();
        let mut i: usize = 0;
        while i < count
            invariant
                i <= count,
                workers@.len() == i,
                forall|j: int| 0 <= j < i ==> workers@[j]@ is Running,
            decreases count - i,
        {
            workers.push(WorkerState::Running);
            i += 1;
        }
        let p = Pool {
            workers,
            queue: Vec::new(),
            acks: 0,
            files: Vec::new(),
            sent: Ghost(Seq::empty()),
            completed: Ghost(Seq::empty()),
            failed: Ghost(Multiset::empty()),
        };
        proof {
            let wv = workers_view(p.workers@);
            assert(forall|j: int| 0 <= j < wv.len() ==> wv[j] is Running);
            lemma_workers_all_running(wv);
            assert(payloads_view(p.queue@) =~= p.sent@.skip(0));
            assert(p.consumed() =~= Seq::<PayloadV>::empty());
            assert(p.completed@.to_multiset() =~= Multiset::<WorkV>::empty());
            assert(works_ms(p.consumed()).add(Multiset::<WorkV>::empty()) =~= works_ms(
                p.consumed(),
            ));
            assert(works_ms(p.consumed()) =~= processing_ms(wv).add(
                p.completed@.to_multiset(),
            ).add(p.failed@));
        }
        p
    }

    /// Sends one task: it joins the back of the queue. The producer may
    /// send only while a queue slot is free — this precondition is the
    /// backpressure that suspends a real producer.
    pub fn send(&mut self, t: Payload)
        requires
            old(self).wf(),
            old(self).queue@.len() < old(self).workers@.len(),
        ensures
            final(self).wf(),
            final(self).workers@ == old(self).workers@,
            final(self).queue@ == old(self).queue@.push(t),
            final(self).sent@ == old(self).sent@.push(t@),
            final(self).acks == old(self).acks,
            final(self).files@ == old(self).files@,
            final(self).completed@ == old(self).completed@,
            final(self).failed@ == old(self).failed@,
    {
        let ghost p0 = *self;
        self.queue.push(t);
        proof {
            self.sent@ = self.sent@.push(t@);
            assert(self.popped() == p0.popped());
            assert(self.consumed() =~= p0.consumed());
            assert(payloads_view(self.queue@) =~= payloads_view(p0.queue@).push(t@));
            assert(self.sent@.skip(self.popped()) =~= p0.sent@.skip(p0.popped()).push(t@));
        }
    }

    /// Worker `w`, running and with a task available, receives the task at
    /// the front of the queue. A work task puts the worker to processing; a
    /// poison pill terminates it and its acknowledgement reaches the
    /// producer at once.
    pub fn recv(&mut self, w: usize)
        requires
            old(self).wf(),
            w < old(self).workers@.len(),
            workers_view(old(self).workers@)[w as int] is Running,
            old(self).queue@.len() > 0,
        ensures
            final(self).wf(),
            final(self).workers@.len() == old(self).workers@.len(),
            final(self).queue@ == old(self).queue@.skip(1),
            final(self).sent@ == old(self).sent@,
            final(self).files@ == old(self).files@,
            final(self).completed@ == old(self).completed@,
            final(self).failed@ == old(self).failed@,
            match old(self).queue@[0]@ {
                PayloadV::File(item) => workers_view(final(self).workers@) == workers_view(
                    old(self).workers@,
                ).update(w as int, WorkerStateV::Processing(item)) && final(self).acks == old(
                    self,
                ).acks,
                PayloadV::Close => workers_view(final(self).workers@) == workers_view(
                    old(self).workers@,
                ).update(w as int, WorkerStateV::Terminated) && final(self).acks == old(self).acks
                    + 1,
            },
    {
        let ghost p0 = *self;
        let ghost wv0 = workers_view(p0.workers@);
        let worker_total = self.workers.len();
        proof {
            lemma_count_terminated_bound(wv0, w as int);
            assert(p0.acks < worker_total);
        }
        let t = self.queue.remove(0);
        proof {
            assert(self.queue@ =~= p0.queue@.skip(1));
            assert(self.popped() == p0.popped() + 1);
            assert(payloads_view(p0.queue@)[0] == p0.sent@[p0.popped()]);
            assert(p0.queue@[0]@ == p0.sent@[p0.popped()]);
            lemma_sent_take_succ(p0.sent@, p0.popped());
            assert(self.consumed() == p0.sent@.take(p0.popped() + 1));
            assert forall|k: int|
                0 <= k < self.queue@.len() implies payloads_view(self.queue@)[k] == self.sent@.skip(
                self.popped(),
            )[k] by {
                assert(self.queue@[k] == p0.queue@[k + 1]);
                assert(payloads_view(p0.queue@)[k + 1] == p0.sent@.skip(p0.popped())[k + 1]);
            }
            assert(payloads_view(self.queue@) =~= self.sent@.skip(self.popped()));
        }
        match t {
            Payload::File(item) => {
                let ghost iv = item@;
                self.workers[w] = WorkerState::Processing(item);
                proof {
                    let wv1 = workers_view(self.workers@);
                    assert(wv1 =~= wv0.update(w as int, WorkerStateV::Processing(iv)));
                    lemma_workers_update(wv0, w as int, WorkerStateV::Processing(iv));
                    assert forall|x: WorkV|
                        works_ms(self.consumed()).count(x) == processing_ms(wv1).add(
                            self.completed@.to_multiset(),
                        ).add(self.failed@).count(x) by {
                        assert(works_ms(p0.consumed()).count(x) == processing_ms(wv0).add(
                            p0.completed@.to_multiset(),
                        ).add(p0.failed@).count(x));
                        assert(works_ms(p0.consumed()).add(
                            work_contrib(p0.sent@[p0.popped()]),
                        ).count(x) == works_ms(p0.consumed()).count(x) + work_contrib(
                            p0.sent@[p0.popped()],
                        ).count(x));
                        assert(processing_ms(wv1).add(proc_contrib(wv0[w as int])).count(x)
                            == processing_ms(wv0).add(
                            proc_contrib(WorkerStateV::Processing(iv)),
                        ).count(x));
                    }
                    assert(works_ms(self.consumed()) =~= processing_ms(wv1).add(
                        self.completed@.to_multiset(),
                    ).add(self.failed@));
                }
            },
            Payload::Close => {
                self.workers[w] = WorkerState::Terminated;
                self.acks = self.acks + 1;
                proof {
                    let wv1 = workers_view(self.workers@);
                    assert(wv1 =~= wv0.update(w as int, WorkerStateV::Terminated));
                    lemma_workers_update(wv0, w as int, WorkerStateV::Terminated);
                    assert forall|x: WorkV|
                        works_ms(self.consumed()).count(x) == processing_ms(wv1).add(
                            self.completed@.to_multiset(),
                        ).add(self.failed@).count(x) by {
                        assert(works_ms(p0.consumed()).count(x) == processing_ms(wv0).add(
                            p0.completed@.to_multiset(),
                        ).add(p0.failed@).count(x));
                        assert(works_ms(p0.consumed()).add(
                            work_contrib(p0.sent@[p0.popped()]),
                        ).count(x) == works_ms(p0.consumed()).count(x) + work_contrib(
                            p0.sent@[p0.popped()],
                        ).count(x));
                        assert(processing_ms(wv1).add(proc_contrib(wv0[w as int])).count(x)
                            == processing_ms(wv0).add(
                            proc_contrib(WorkerStateV::Terminated),
                        ).count(x));
                    }
                    assert(works_ms(self.consumed()) =~= processing_ms(wv1).add(
                        self.completed@.to_multiset(),
                    ).add(self.failed@));
                }
            },
        }
    }

    /// Worker `w` finishes its item: with the transcription text the item
    /// completes and its text is recorded under the item's destination; with
    /// nothing the item failed and is abandoned. Either way the worker runs
    /// on — a task's failure never terminates its worker.
    pub fn finish(&mut self, w: usize, text: Option<String>)
        requires
            old(self).wf(),
            w < old(self).workers@.len(),
            workers_view(old(self).workers@)[w as int] is Processing,
        ensures
            final(self).wf(),
            final(self).workers@.len() == old(self).workers@.len(),
            workers_view(final(self).workers@) == workers_view(old(self).workers@).update(
                w as int,
                WorkerStateV::Running,
            ),
            final(self).queue@ == old(self).queue@,
            final(self).sent@ == old(self).sent@,
            final(self).acks == old(self).acks,
            ({
                let item = workers_view(old(self).workers@)[w as int]->Processing_0;
                match text {
                    Some(t) => final(self).files@.len() == old(self).files@.len() + 1
                        && final(self).files@.last().0@ == item.dest && final(self).files@.last().1@
                        == t@ && (forall|i: int|
                        0 <= i < old(self).files@.len() ==> final(self).files@[i] == old(
                            self,
                        ).files@[i]) && final(self).completed@ == old(self).completed@.push(item)
                        && final(self).failed@ == old(self).failed@,
                    None => final(self).files@ == old(self).files@ && final(self).completed@ == old(
                        self,
                    ).completed@ && final(self).failed@ == old(self).failed@.insert(item),
                }
            }),
    {
        let ghost p0 = *self;
        let ghost wv0 = workers_view(p0.workers@);
        let ghost item = wv0[w as int]->Processing_0;
        let dest = match &self.workers[w] {
            WorkerState::Processing(it) => it.dest.clone(),
            _ => unreached(),
        };
        self.workers[w] = WorkerState::Running;
        proof {
            assert(workers_view(self.workers@) =~= wv0.update(w as int, WorkerStateV::Running));
            lemma_workers_update(wv0, w as int, WorkerStateV::Running);
        }
        match text {
            Some(t) => {
                self.files.push((dest, t));
                proof {
                    self.completed@ = self.completed@.push(item);
                    assert(self.completed@.to_multiset() =~= p0.completed@.to_multiset().insert(
                        item,
                    ));
                }
            },
            None => {
                proof {
                    self.failed@ = self.failed@.insert(item);
                }
            },
        }
        proof {
            let wv1 = workers_view(self.workers@);
            assert(self.consumed() =~= p0.consumed());
            assert forall|x: WorkV|
                works_ms(self.consumed()).count(x) == processing_ms(wv1).add(
                    self.completed@.to_multiset(),
                ).add(self.failed@).count(x) by {
                assert(works_ms(p0.consumed()).count(x) == processing_ms(wv0).add(
                    p0.completed@.to_multiset(),
                ).add(p0.failed@).count(x));
                assert(processing_ms(wv1).add(proc_contrib(wv0[w as int])).count(x)
                    == processing_ms(wv0).add(proc_contrib(WorkerStateV::Running)).count(x));
                assert(proc_contrib(wv0[w as int]).count(x) == Multiset::<WorkV>::empty().insert(
                    item,
                ).count(x));
            }
            assert(works_ms(self.consumed()) =~= processing_ms(wv1).add(
                self.completed@.to_multiset(),
            ).add(self.failed@));
        }
    }
}

impl Pool {
    /// The number of workers currently processing, hence the number of
    /// recognition calls in flight.
    pub fn processing_count(&self) -> (n: usize)
        ensures
            n == processing_ms(workers_view(self.workers@)).len(),
    {
        let total = self.workers.len();
        let mut n: usize = 0;
        let mut i: usize = 0;
        proof {
            assert(workers_view(self.workers@).take(0) =~= Seq::<WorkerStateV>::empty());
        }
        while i < total
            invariant
                i <= total,
                total == self.workers@.len(),
                n <= i,
                n == processing_ms(workers_view(self.workers@).take(i as int)).len(),
            decreases total - i,
        {
            proof {
                let wv = workers_view(self.workers@);
                assert(wv.take(i + 1).drop_last() =~= wv.take(i as int));
                assert(wv.take(i + 1).last() == wv[i as int]);
            }
            if matches!(&self.workers[i], WorkerState::Processing(_)) {
                n = n + 1;
            }
            i += 1;
        }
        proof {
            assert(workers_view(self.workers@).take(total as int) =~= workers_view(
                self.workers@,
            ));
        }
        n
    }

    /// The number of workers in the pool.
    pub fn worker_count(&self) -> (n: usize)
        ensures
            n == self.workers@.len(),
    {
        self.workers.len()
    }

    /// The number of poison-pill acknowledgements the producer holds.
    pub fn ack_count(&self) -> (n: usize)
        ensures
            n == self.acks,
    {
        self.acks
    }

    /// The number of tasks waiting in the queue.
    pub fn queue_len(&self) -> (n: usize)
        ensures
            n == self.queue@.len(),
    {
        self.queue.len()
    }

    /// The transcriptions written so far, in completion order, as
    /// destination/text pairs.
    pub fn files(&self) -> (r: &Vec<(Vec<u8>, String)>)
        ensures
            r == self.files,
    {
        &self.files
    }

    /// Whether worker `w` has terminated.
    pub fn is_terminated(&self, w: usize) -> (b: bool)
        requires
            w < self.workers@.len(),
        ensures
            b == (workers_view(self.workers@)[w as int] is Terminated),
    {
        matches!(&self.workers[w], WorkerState::Terminated)
    }
}

/// Bounded concurrency: a pool of K workers never has more than K
/// recognition calls in flight, whatever has been sent, received or
/// finished so far.
pub proof fn lemma_bounded_concurrency(p: Pool)
    requires
        p.wf(),
    ensures
        processing_ms(workers_view(p.workers@)).len() <= p.workers@.len(),
{
    lemma_processing_le(workers_view(p.workers@));
}

/// Serial processing per worker: the work in flight is exactly one item per
/// worker in the processing state, never more. A worker state holds at most
/// one item, and `recv` admits only `Running` workers, so no worker pulls a
/// second task while its recognition call is in flight; only `finish` —
/// completing or abandoning the item — lets it receive again.
pub proof fn lemma_serial_per_worker(ws: Seq<WorkerStateV>)
    ensures
        processing_ms(ws).len() == count_processing(ws),
    decreases ws.len(),
{
    if ws.len() > 0 {
        lemma_serial_per_worker(ws.drop_last());
        assert(processing_ms(ws).len() == processing_ms(ws.drop_last()).len() + proc_contrib(
            ws.last(),
        ).len());
    }
}

/// Clean shutdown: once the producer holds one acknowledgement per worker,
/// every worker has terminated — none is left blocked on the queue.
pub proof fn lemma_clean_shutdown(p: Pool)
    requires
        p.wf(),
        p.acks == p.workers@.len(),
    ensures
        forall|i: int|
            0 <= i < p.workers@.len() ==> workers_view(p.workers@)[i] is Terminated,
{
    lemma_count_terminated_full(workers_view(p.workers@));
}

/// A complete run: the producer sent its whole plan — work tasks, then one
/// poison pill per worker — and holds one acknowledgement per worker. Then
/// the queue is empty and every work item sent was either completed or
/// failed.
pub proof fn lemma_run_complete(p: Pool, works: Seq<PayloadV>)
    requires
        p.wf(),
        p.workers@.len() > 0,
        p.sent@ == works + Seq::new(p.workers@.len(), |i: int| PayloadV::Close),
        forall|i: int| 0 <= i < works.len() ==> (#[trigger] works[i]) is File,
        p.acks == p.workers@.len(),
    ensures
        p.queue@.len() == 0,
        p.completed@.to_multiset().add(p.failed@) == works_ms(works),
{
    let k = p.workers@.len();
    let closes = Seq::new(k, |i: int| PayloadV::Close);
    let wv = workers_view(p.workers@);
    lemma_sent_concat(works, closes);
    lemma_all_files(works);
    lemma_all_closes(k);
    if p.queue@.len() > 0 {
        assert(p.sent@[p.sent@.len() - 1] == closes[k - 1]);
        assert(p.sent@.skip(p.popped()).len() == p.queue@.len());
        assert(p.sent@.skip(p.popped())[p.queue@.len() - 1] == p.sent@[p.sent@.len() - 1]);
        assert(p.sent@.take(p.popped()) + p.sent@.skip(p.popped()) =~= p.sent@);
        lemma_sent_concat(p.sent@.take(p.popped()), p.sent@.skip(p.popped()));
        lemma_count_closes_at(p.sent@.skip(p.popped()), p.queue@.len() - 1);
        assert(count_closes(p.sent@) == k);
        assert(count_closes(p.consumed()) == k);
        assert(false);
    }
    assert(p.consumed() =~= p.sent@);
    lemma_count_terminated_full(wv);
    lemma_processing_all_terminated(wv);
    assert(works_ms(p.sent@) == works_ms(works).add(works_ms(closes)));
    assert forall|x: WorkV|
        p.completed@.to_multiset().add(p.failed@).count(x) == works_ms(works).count(x) by {
        assert(works_ms(p.consumed()).count(x) == processing_ms(wv).add(
            p.completed@.to_multiset(),
        ).add(p.failed@).count(x));
        assert(works_ms(works).add(works_ms(closes)).count(x) == works_ms(works).count(x)
            + works_ms(closes).count(x));
    }
    assert(p.completed@.to_multiset().add(p.failed@) =~= works_ms(works));
}

/// No task loss: after a complete run in which no task failed, the
/// completed items are exactly the work items sent — one transcription file
/// stands recorded per work item, each under that item's destination with
/// the text its recognition call returned.
pub proof fn lemma_no_task_loss(p: Pool, works: Seq<PayloadV>)
    requires
        p.wf(),
        p.workers@.len() > 0,
        p.sent@ == works + Seq::new(p.workers@.len(), |i: int| PayloadV::Close),
        forall|i: int| 0 <= i < works.len() ==> (#[trigger] works[i]) is File,
        p.acks == p.workers@.len(),
        p.failed@ == Multiset::<WorkV>::empty(),
    ensures
        p.queue@.len() == 0,
        p.completed@.to_multiset() == works_ms(works),
        p.files@.len() == works.len(),
        forall|i: int|
            0 <= i < p.files@.len() ==> (#[trigger] p.files@[i]).0@ == p.completed@[i].dest,
{
    lemma_run_complete(p, works);
    assert(p.completed@.to_multiset().add(p.failed@) =~= p.completed@.to_multiset());
    lemma_all_files(works);
    assert(p.completed@.to_multiset().len() == p.completed@.len());
}

/// Failure isolation: after a complete run in which exactly one work item
/// failed, every other work item was completed, and — the destinations
/// being distinct — nothing was recorded under the failed item's
/// destination.
pub proof fn lemma_failure_isolation(p: Pool, works: Seq<PayloadV>, f: WorkV)
    requires
        p.wf(),
        p.workers@.len() > 0,
        p.sent@ == works + Seq::new(p.workers@.len(), |i: int| PayloadV::Close),
        forall|i: int| 0 <= i < works.len() ==> (#[trigger] works[i]) is File,
        p.acks == p.workers@.len(),
        p.failed@ == Multiset::<WorkV>::empty().insert(f),
        works_ms(works).count(f) == 1,
        distinct_dests(works),
    ensures
        p.queue@.len() == 0,
        p.completed@.to_multiset() == works_ms(works).remove(f),
        p.files@.len() + 1 == works.len(),
        forall|i: int| 0 <= i < p.files@.len() ==> (#[trigger] p.files@[i]).0@ != f.dest,
{
    lemma_run_complete(p, works);
    assert forall|x: WorkV|
        p.completed@.to_multiset().count(x) == works_ms(works).remove(f).count(x) by {
        assert(p.completed@.to_multiset().add(p.failed@).count(x) == works_ms(works).count(
            x,
        ));
        assert(p.failed@.count(x) == Multiset::<WorkV>::empty().insert(f).count(x));
    }
    assert(p.completed@.to_multiset() =~= works_ms(works).remove(f));
    lemma_all_files(works);
    assert(p.completed@.to_multiset().len() == p.completed@.len());
    assert(works_ms(works).remove(f).len() + 1 == works_ms(works).len());
    assert forall|i: int|
        0 <= i < p.completed@.len() implies (#[trigger] p.completed@[i]).dest != f.dest by {
        let wv = p.completed@[i];
        assert(p.completed@.contains(wv));
        assert(p.completed@.to_multiset().count(wv) > 0);
        assert(works_ms(works).count(wv) > 0);
        if wv == f {
            assert(p.completed@.to_multiset().count(f) == 0);
        } else {
            lemma_works_ms_mem(works, wv);
            lemma_works_ms_mem(works, f);
            let a = choose|a: int| 0 <= a < works.len() && works[a] == PayloadV::File(wv);
            let b = choose|b: int| 0 <= b < works.len() && works[b] == PayloadV::File(f);
            assert(a != b);
            assert(works[a]->File_0.dest != works[b]->File_0.dest);
        }
    }
    assert(forall|i: int|
        0 <= i < p.files@.len() ==> (#[trigger] p.files@[i]).0@ == p.completed@[i].dest);
}

/// What one receive tells a worker to do: process the work task, or
/// acknowledge the poison pill and stop, or — the queue having closed —
/// stop outright. Task processing never maps to a stop: failures are the
/// processing's to log, not the loop's to die of.
#[derive(Debug)]
pub enum WorkerAction {
    /// Transcribe this item, then receive again.
    Process(WorkItem),
    /// Acknowledge the poison pill, then stop receiving.
    AckAndStop,
    /// The queue closed without a poison pill; stop receiving.
    Stop,
}

/// The worker loop's one decision, applied to each receive.
pub fn worker_on_event(event: Option<Payload>) -> (a: WorkerAction)
    ensures
        match event {
            Some(p) => match p@ {
                PayloadV::File(item) => a matches WorkerAction::Process(it) && it@ == item,
                PayloadV::Close => a is AckAndStop,
            },
            None => a is Stop,
        },
{
    match event {
        Some(Payload::File(item)) => WorkerAction::Process(item),
        Some(Payload::Close) => WorkerAction::AckAndStop,
        None => WorkerAction::Stop,
    }
}

/// A work item counted in a task sequence stands in it as a work task.
proof fn lemma_works_ms_mem(s: Seq<PayloadV>, wv: WorkV)
    requires
        works_ms(s).count(wv) > 0,
    ensures
        exists|k: int| 0 <= k < s.len() && s[k] == PayloadV::File(wv),
    decreases s.len(),
{
    if s.len() > 0 {
        if s.last() == PayloadV::File(wv) {
            assert(s[s.len() - 1] == PayloadV::File(wv));
        } else {
            assert(work_contrib(s.last()).count(wv) == 0);
            lemma_works_ms_mem(s.drop_last(), wv);
            let k = choose|k: int|
                0 <= k < s.drop_last().len() && s.drop_last()[k] == PayloadV::File(wv);
            assert(s[k] == PayloadV::File(wv));
        }
    }
}

} // verus!
