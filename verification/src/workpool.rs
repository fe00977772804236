//! The worker pool, as a state machine over plain values.
//!
//! A pool is a fixed set of workers sharing one FIFO queue of jobs
//! (identified here by number; running a job's code and blocking on the
//! queue are the embedding program's part). Submitting enqueues; a worker
//! claims the front job when one is idle; completing frees the worker.
//! The conservation invariant says no job is ever lost: everything
//! submitted is still queued, executing, or finished.

use vstd::multiset::Multiset;
use vstd::prelude::*;

verus! {

/// One worker: its identifier and the job it is executing, if any.
pub struct Worker {
    pub id: usize,
    pub job: Option<u64>,
}

impl Worker {
    /// An idle worker.
    pub fn new(id: usize) -> (r: Self)
        ensures
            r.id == id,
            r.job is None,
    {
        Worker { id, job: None }
    }
}

/// How many workers are executing a job.
pub open spec fn count_busy(ws: Seq<Worker>) -> nat
    decreases ws.len(),
{
    if ws.len() == 0 {
        0
    } else {
        (if ws[0].job is Some {
            1nat
        } else {
            0nat
        }) + count_busy(ws.skip(1))
    }
}

/// The jobs the workers are executing, with multiplicity.
pub open spec fn running_jobs(ws: Seq<Worker>) -> Multiset<u64>
    decreases ws.len(),
{
    if ws.len() == 0 {
        Multiset::empty()
    } else {
        match ws[0].job {
            Some(j) => running_jobs(ws.skip(1)).insert(j),
            None => running_jobs(ws.skip(1)),
        }
    }
}

/// No more workers are busy than exist.
pub proof fn lemma_count_busy_le_len(ws: Seq<Worker>)
    ensures
        count_busy(ws) <= ws.len(),
    decreases ws.len(),
{
    if ws.len() > 0 {
        lemma_count_busy_le_len(ws.skip(1));
    }
}

/// Giving the idle worker `w` the job `j` raises the busy count by one and
/// adds `j` to the running jobs.
proof fn lemma_assign_job(ws: Seq<Worker>, w: int, j: u64)
    requires
        0 <= w < ws.len(),
        ws[w].job is None,
    ensures
        count_busy(ws.update(w, Worker { id: ws[w].id, job: Some(j) })) == count_busy(ws) + 1,
        running_jobs(ws.update(w, Worker { id: ws[w].id, job: Some(j) })) =~= running_jobs(
            ws,
        ).insert(j),
    decreases ws.len(),
{
    let nws = ws.update(w, Worker { id: ws[w].id, job: Some(j) });
    if w == 0 {
        assert(nws.skip(1) =~= ws.skip(1));
    } else {
        assert(nws[0] == ws[0]);
        assert(nws.skip(1) =~= ws.skip(1).update(w - 1, Worker { id: ws[w].id, job: Some(j) }));
        assert(ws.skip(1)[w - 1] == ws[w]);
        lemma_assign_job(ws.skip(1), w - 1, j);
        match ws[0].job {
            Some(j0) => {
                assert(running_jobs(nws) =~= running_jobs(ws).insert(j)) by {
                    assert(running_jobs(nws) == running_jobs(nws.skip(1)).insert(j0));
                    assert(running_jobs(ws) == running_jobs(ws.skip(1)).insert(j0));
                }
            },
            None => {},
        }
    }
}

/// Taking worker `w`'s job away lowers the busy count by one and removes
/// the job from the running jobs.
proof fn lemma_clear_job(ws: Seq<Worker>, w: int, j: u64)
    requires
        0 <= w < ws.len(),
        ws[w].job == Some(j),
    ensures
        count_busy(ws.update(w, Worker { id: ws[w].id, job: None })) + 1 == count_busy(ws),
        running_jobs(ws) =~= running_jobs(ws.update(w, Worker { id: ws[w].id, job: None })).insert(
            j,
        ),
    decreases ws.len(),
{
    let nws = ws.update(w, Worker { id: ws[w].id, job: None });
    if w == 0 {
        assert(nws.skip(1) =~= ws.skip(1));
    } else {
        assert(nws[0] == ws[0]);
        assert(nws.skip(1) =~= ws.skip(1).update(w - 1, Worker { id: ws[w].id, job: None }));
        assert(ws.skip(1)[w - 1] == ws[w]);
        lemma_clear_job(ws.skip(1), w - 1, j);
        match ws[0].job {
            Some(j0) => {
                assert(running_jobs(ws) =~= running_jobs(nws).insert(j)) by {
                    assert(running_jobs(nws) == running_jobs(nws.skip(1)).insert(j0));
                    assert(running_jobs(ws) == running_jobs(ws.skip(1)).insert(j0));
                }
            },
            None => {},
        }
    }
}

/// The pool: a fixed set of workers, the FIFO queue of submitted jobs not
/// yet claimed, the finished jobs, and whether submission is still open.
pub struct WorkerPool {
    pub workers: Vec<Worker>,
    pub queue: Vec<u64>,
    pub finished: Vec<u64>,
    pub accepting: bool,
    pub submitted: Ghost<Seq<u64>>,
}

impl WorkerPool {
    /// The pool's size: fixed at construction.
    pub open spec fn size(self) -> nat {
        self.workers@.len()
    }

    /// Conservation: every submitted job is queued, executing, or
    /// finished — with multiplicity, nothing lost and nothing invented.
    pub open spec fn conserves(self) -> bool {
        self.submitted@.to_multiset() == self.queue@.to_multiset().add(
            running_jobs(self.workers@),
        ).add(self.finished@.to_multiset())
    }

    /// A pool as construction leaves it and every operation keeps it.
    pub open spec fn wf(self) -> bool {
        &&& self.size() >= 1
        &&& forall|i: int| 0 <= i < self.workers@.len() ==> (#[trigger] self.workers@[i]).id == i
        &&& self.conserves()
    }

    /// All queued jobs taken and all workers finished: nothing left to do.
    pub open spec fn is_stopped(self) -> bool {
        &&& !self.accepting
        &&& self.queue@.len() == 0
        &&& count_busy(self.workers@) == 0
    }

    /// A pool of `size` idle workers with an empty queue.
    pub fn new(size: usize) -> (r: Self)
        requires
            size >= 1,
        ensures
            r.wf(),
            r.size() == size,
            r.accepting,
            r.queue@.len() == 0,
            r.finished@.len() == 0,
            r.submitted@.len() == 0,
            count_busy(r.workers@) == 0,
    {
        let mut workers: Vec<Worker> = Vec::new();
        let mut id: usize = 0;
        while id < size
            invariant
                id <= size,
                workers@.len() == id,
                forall|i: int| 0 <= i < id ==> (#[trigger] workers@[i]).id == i,
                forall|i: int| 0 <= i < id ==> (#[trigger] workers@[i]).job is None,
                count_busy(workers@) == 0,
            decreases size - id,
        {
            let ghost old_ws = workers@;
            workers.push(Worker::new(id));
            proof {
                lemma_busy_push(old_ws, workers@[id as int]);
            }
            id += 1;
        }
        let r = WorkerPool {
            workers,
            queue: Vec::new(),
            finished: Vec::new(),
            accepting: true,
            submitted: Ghost(Seq::empty()),
        };
        proof {
            lemma_running_all_idle(r.workers@);
            broadcast use vstd::seq_lib::group_to_multiset_ensures;

            assert(r.conserves()) by {
                assert(r.submitted@.to_multiset() =~= r.queue@.to_multiset().add(
                    running_jobs(r.workers@),
                ).add(r.finished@.to_multiset()));
            }
        }
        r
    }

    /// Enqueues one job while the submission side is open. The queue is
    /// unbounded; only execution is bounded, by the worker count.
    pub fn execute(&mut self, job: u64)
        requires
            old(self).wf(),
            old(self).accepting,
        ensures
            final(self).wf(),
            final(self).queue@ == old(self).queue@.push(job),
            final(self).submitted@ == old(self).submitted@.push(job),
            final(self).workers == old(self).workers,
            final(self).finished == old(self).finished,
            final(self).accepting,
    {
        self.queue.push(job);
        proof {
            self.submitted@ = self.submitted@.push(job);
            broadcast use vstd::seq_lib::group_to_multiset_ensures;

            assert(self.conserves()) by {
                assert(self.submitted@.to_multiset() =~= self.queue@.to_multiset().add(
                    running_jobs(self.workers@),
                ).add(self.finished@.to_multiset()));
            }
        }
    }

    /// Hands the front job to the first idle worker: `Some((worker, job))`
    /// exactly when a job waits and a worker is idle; jobs leave the queue
    /// in submission order.
    pub fn claim(&mut self) -> (r: Option<(usize, u64)>)
        requires
            old(self).wf(),
        ensures
            final(self).wf(),
            final(self).accepting == old(self).accepting,
            final(self).submitted == old(self).submitted,
            final(self).finished == old(self).finished,
            final(self).size() == old(self).size(),
            match r {
                Some((w, j)) => {
                    &&& old(self).queue@.len() > 0
                    &&& count_busy(old(self).workers@) < old(self).size()
                    &&& j == old(self).queue@[0]
                    &&& final(self).queue@ == old(self).queue@.skip(1)
                    &&& w < old(self).workers@.len()
                    &&& old(self).workers@[w as int].job is None
                    &&& final(self).workers@ == old(self).workers@.update(
                        w as int,
                        Worker { id: w, job: Some(j) },
                    )
                    &&& count_busy(final(self).workers@) == count_busy(old(self).workers@) + 1
                },
                None => {
                    &&& old(self).queue@.len() == 0 || count_busy(old(self).workers@) == old(
                        self,
                    ).size()
                    &&& *final(self) == *old(self)
                },
            },
    {
        if self.queue.len() == 0 {
            return None;
        }
        let n = self.workers.len();
        let mut w: usize = 0;
        while w < n
            invariant
                w <= n,
                n == self.workers@.len(),
                *self == *old(self),
                old(self).wf(),
                old(self).queue@.len() > 0,
                forall|i: int| 0 <= i < w ==> (#[trigger] self.workers@[i]).job is Some,
            decreases n - w,
        {
            if self.workers[w].job.is_none() {
                let job = self.queue.remove(0);
                let ghost old_ws = self.workers@;
                let ghost oldq = self.queue@;
                self.workers.set(w, Worker { id: w, job: Some(job) });
                proof {
                    assert(old_ws[w as int].id == w as int);
                    lemma_assign_job(old_ws, w as int, job);
                    broadcast use vstd::seq_lib::group_to_multiset_ensures;

                    assert(old(self).queue@ =~= seq![job] + self.queue@);
                    lemma_to_multiset_cons(job, self.queue@);
                    assert(self.conserves()) by {
                        assert(self.submitted@.to_multiset() =~= self.queue@.to_multiset().add(
                            running_jobs(self.workers@),
                        ).add(self.finished@.to_multiset()));
                    }
                    lemma_busy_lt_of_idle(old_ws, w as int);
                }
                return Some((w, job));
            }
            w += 1;
        }
        proof {
            lemma_busy_all_some(self.workers@, n as int);
        }
        None
    }

    /// The named worker finishes its job: the job is recorded as done and
    /// the worker is idle again.
    pub fn complete(&mut self, w: usize)
        requires
            old(self).wf(),
            w < old(self).workers@.len(),
            old(self).workers@[w as int].job is Some,
        ensures
            final(self).wf(),
            final(self).accepting == old(self).accepting,
            final(self).submitted == old(self).submitted,
            final(self).queue == old(self).queue,
            final(self).size() == old(self).size(),
            final(self).finished@ == old(self).finished@.push(
                old(self).workers@[w as int].job.unwrap(),
            ),
            final(self).workers@ == old(self).workers@.update(w as int, Worker { id: w, job: None }),
            count_busy(final(self).workers@) + 1 == count_busy(old(self).workers@),
    {
        let job = self.workers[w].job.unwrap();
        let ghost old_ws = self.workers@;
        self.workers.set(w, Worker { id: w, job: None });
        self.finished.push(job);
        proof {
            assert(old_ws[w as int].id == w as int);
            lemma_clear_job(old_ws, w as int, job);
            broadcast use vstd::seq_lib::group_to_multiset_ensures;

            assert(self.conserves()) by {
                assert(self.submitted@.to_multiset() =~= self.queue@.to_multiset().add(
                    running_jobs(self.workers@),
                ).add(self.finished@.to_multiset()));
            }
        }
    }

    /// Closes the submission side: nothing more is accepted; everything
    /// already queued or executing is untouched.
    pub fn close(&mut self)
        requires
            old(self).wf(),
        ensures
            final(self).wf(),
            !final(self).accepting,
            final(self).workers == old(self).workers,
            final(self).queue == old(self).queue,
            final(self).finished == old(self).finished,
            final(self).submitted == old(self).submitted,
            final(self).size() == old(self).size(),
    {
        self.accepting = false;
    }

    /// Pool bound: hands out queued jobs while any worker is idle. Once it
    /// returns, the number of jobs executing concurrently is exactly the
    /// smaller of (jobs available) and (pool size) — a fresh pool given M
    /// jobs runs min(M, size) of them at once.
    pub fn dispatch_idle(&mut self)
        requires
            old(self).wf(),
        ensures
            final(self).wf(),
            final(self).accepting == old(self).accepting,
            final(self).submitted == old(self).submitted,
            final(self).finished == old(self).finished,
            final(self).size() == old(self).size(),
            count_busy(final(self).workers@) + final(self).queue@.len() == count_busy(
                old(self).workers@,
            ) + old(self).queue@.len(),
            count_busy(final(self).workers@) == if count_busy(old(self).workers@) + old(
                self,
            ).queue@.len() <= old(self).size() {
                count_busy(old(self).workers@) + old(self).queue@.len()
            } else {
                old(self).size()
            },
    {
        loop
            invariant
                self.wf(),
                self.accepting == old(self).accepting,
                self.submitted == old(self).submitted,
                self.finished == old(self).finished,
                self.size() == old(self).size(),
                count_busy(self.workers@) + self.queue@.len() == count_busy(old(self).workers@)
                    + old(self).queue@.len(),
            decreases self.queue@.len(),
        {
            proof {
                lemma_count_busy_le_len(self.workers@);
            }
            match self.claim() {
                Some(_) => {},
                None => {
                    return ;
                },
            }
        }
    }

    /// Graceful shutdown: closes the submission side, then lets the workers
    /// run everything already queued or in flight to completion. When it
    /// returns, the pool is fully stopped and every job ever submitted has
    /// finished — none was dropped.
    pub fn shutdown(&mut self)
        requires
            old(self).wf(),
        ensures
            final(self).wf(),
            final(self).is_stopped(),
            final(self).size() == old(self).size(),
            final(self).submitted == old(self).submitted,
            final(self).finished@.to_multiset() == old(self).submitted@.to_multiset(),
    {
        self.close();
        // let every busy worker finish its current job
        let n = self.workers.len();
        let mut w: usize = 0;
        while w < n
            invariant
                w <= n,
                n == self.workers@.len(),
                self.wf(),
                !self.accepting,
                self.submitted == old(self).submitted,
                self.queue == old(self).queue,
                self.size() == old(self).size(),
                forall|i: int| 0 <= i < w ==> (#[trigger] self.workers@[i]).job is None,
            decreases n - w,
        {
            if self.workers[w].job.is_some() {
                let ghost before = self.workers@;
                self.complete(w);
                proof {
                    assert(forall|i: int|
                        0 <= i < w ==> (#[trigger] self.workers@[i]) == before[i]);
                }
            }
            w += 1;
        }
        proof {
            lemma_busy_none(self.workers@);
        }
        // drain the queue: claim one job at a time and run it to the end
        while self.queue.len() > 0
            invariant
                self.wf(),
                !self.accepting,
                self.submitted == old(self).submitted,
                self.size() == old(self).size(),
                count_busy(self.workers@) == 0,
            decreases self.queue@.len(),
        {
            let claimed = self.claim();
            match claimed {
                Some((w, _)) => {
                    self.complete(w);
                },
                None => {
                    proof {
                        assert(false);
                    }
                },
            }
        }
        proof {
            broadcast use vstd::seq_lib::group_to_multiset_ensures;

            lemma_running_no_busy(self.workers@);
            assert(self.finished@.to_multiset() =~= old(self).submitted@.to_multiset()) by {
                assert(self.queue@.to_multiset().len() == 0);
                assert(self.submitted@.to_multiset() == self.queue@.to_multiset().add(
                    running_jobs(self.workers@),
                ).add(self.finished@.to_multiset()));
            }
        }
    }
}

/// A pool with an idle worker is not saturated.
proof fn lemma_busy_lt_of_idle(ws: Seq<Worker>, w: int)
    requires
        0 <= w < ws.len(),
        ws[w].job is None,
    ensures
        count_busy(ws) < ws.len(),
    decreases ws.len(),
{
    if w == 0 {
        lemma_count_busy_le_len(ws.skip(1));
    } else {
        assert(ws.skip(1)[w - 1] == ws[w]);
        lemma_busy_lt_of_idle(ws.skip(1), w - 1);
    }
}

/// Pushing an idle or busy worker extends the busy count accordingly.
proof fn lemma_busy_push(ws: Seq<Worker>, nw: Worker)
    ensures
        count_busy(ws.push(nw)) == count_busy(ws) + (if nw.job is Some {
            1nat
        } else {
            0nat
        }),
    decreases ws.len(),
{
    let p = ws.push(nw);
    if ws.len() == 0 {
        assert(p[0] == nw);
        assert(p.skip(1) =~= Seq::<Worker>::empty());
        assert(count_busy(p.skip(1)) == 0);
    } else {
        assert(p[0] == ws[0]);
        assert(p.skip(1) =~= ws.skip(1).push(nw));
        lemma_busy_push(ws.skip(1), nw);
    }
}

/// Workers without jobs run nothing.
proof fn lemma_running_all_idle(ws: Seq<Worker>)
    requires
        forall|i: int| 0 <= i < ws.len() ==> (#[trigger] ws[i]).job is None,
    ensures
        running_jobs(ws) =~= Multiset::empty(),
    decreases ws.len(),
{
    if ws.len() > 0 {
        assert(forall|i: int| 0 <= i < ws.skip(1).len() ==> ws.skip(1)[i] == ws[i + 1]);
        lemma_running_all_idle(ws.skip(1));
    }
}

/// When the first `w` workers are all busy and the rest are checked too,
/// the busy count is the length.
proof fn lemma_busy_all_some(ws: Seq<Worker>, w: int)
    requires
        0 <= w <= ws.len(),
        forall|i: int| 0 <= i < w ==> (#[trigger] ws[i]).job is Some,
        w == ws.len(),
    ensures
        count_busy(ws) == ws.len(),
    decreases ws.len(),
{
    if ws.len() > 0 {
        assert(ws[0].job is Some);
        assert(forall|i: int| 0 <= i < ws.skip(1).len() ==> ws.skip(1)[i] == ws[i + 1]);
        lemma_busy_all_some(ws.skip(1), w - 1);
    }
}

/// A zero busy count means every worker is idle.
proof fn lemma_busy_none(ws: Seq<Worker>)
    requires
        forall|i: int| 0 <= i < ws.len() ==> (#[trigger] ws[i]).job is None,
    ensures
        count_busy(ws) == 0,
    decreases ws.len(),
{
    if ws.len() > 0 {
        assert(forall|i: int| 0 <= i < ws.skip(1).len() ==> ws.skip(1)[i] == ws[i + 1]);
        lemma_busy_none(ws.skip(1));
    }
}

/// No busy workers, no running jobs.
proof fn lemma_running_no_busy(ws: Seq<Worker>)
    requires
        count_busy(ws) == 0,
    ensures
        running_jobs(ws) =~= Multiset::empty(),
    decreases ws.len(),
{
    if ws.len() > 0 {
        lemma_running_no_busy(ws.skip(1));
    }
}

/// The multiset of a sequence splits off its head.
proof fn lemma_to_multiset_cons(j: u64, rest: Seq<u64>)
    ensures
        (seq![j] + rest).to_multiset() =~= rest.to_multiset().insert(j),
{
    broadcast use vstd::seq_lib::group_to_multiset_ensures;

    vstd::seq_lib::lemma_multiset_commutative(seq![j], rest);
    assert(seq![j] =~= Seq::<u64>::empty().push(j));
    assert(Seq::<u64>::empty().to_multiset().len() == 0);
    assert(Seq::<u64>::empty().to_multiset() =~= Multiset::<u64>::empty());
    assert(seq![j].to_multiset() =~= Multiset::<u64>::empty().insert(j));
}

} // verus!
