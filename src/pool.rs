use std::collections::VecDeque;
use vstd::prelude::*;

verus! {

/// A message on the dispatch queue: a job with the ticket it was accepted under,
/// or the signal that tells exactly one worker to stop.
pub enum Message<J> {
    /// A job and its ticket.
    NewJob(u64, J),
    /// Stop after taking this message.
    Terminate,
}

/// Where a worker stands in its receive loop.
#[derive(PartialEq, Eq, Structural, Clone, Copy, Debug)]
pub enum WorkerState {
    /// Waiting for the next message.
    Idle,
    /// Running the job with this ticket.
    Busy(u64),
    /// Took a `Terminate` message and left its loop.
    Stopped,
}

/// What a worker that asked for a message is to do next.
pub enum Action<J> {
    /// Run this job (accepted under this ticket), then report back with `finish_job`.
    Run(u64, J),
    /// The queue is empty: wait until something is sent, then ask again.
    Wait,
    /// Leave the receive loop.
    Exit,
}

/// Why the pool refused a request.
#[derive(PartialEq, Eq, Structural, Clone, Copy, Debug)]
pub enum PoolError {
    /// A pool must have at least one worker.
    ZeroSize,
    /// Shutdown has begun: no more jobs are accepted.
    ShuttingDown,
}

/// Number of workers in `s` that have not stopped.
pub open spec fn live_count(s: Seq<WorkerState>) -> nat
    decreases s.len(),
{
    if s.len() == 0 {
        0
    } else {
        live_count(s.drop_last()) + if s.last() is Stopped {
            0nat
        } else {
            1nat
        }
    }
}

/// `n` stop signals in a row.
pub open spec fn stops<J>(n: nat) -> Seq<Message<J>> {
    Seq::new(n, |i: int| Message::Terminate)
}

/// `n` idle workers.
pub open spec fn idle_workers(n: nat) -> Seq<WorkerState> {
    Seq::new(n, |i: int| WorkerState::Idle)
}

proof fn lemma_live_count_update(s: Seq<WorkerState>, i: int, v: WorkerState)
    requires
        0 <= i < s.len(),
    ensures
        live_count(s.update(i, v)) + (if s[i] is Stopped { 0int } else { 1int })
            == live_count(s) + (if v is Stopped { 0int } else { 1int }),
    decreases s.len(),
{
    if i == s.len() - 1 {
        assert(s.update(i, v).drop_last() =~= s.drop_last());
    } else {
        assert(s.update(i, v).drop_last() =~= s.drop_last().update(i, v));
        lemma_live_count_update(s.drop_last(), i, v);
    }
}

proof fn lemma_live_count_all(s: Seq<WorkerState>)
    requires
        forall|i: int| 0 <= i < s.len() ==> !(s[i] is Stopped),
    ensures
        live_count(s) == s.len(),
    decreases s.len(),
{
    if s.len() > 0 {
        lemma_live_count_all(s.drop_last());
    }
}

proof fn lemma_live_count_zero(s: Seq<WorkerState>, i: int)
    requires
        live_count(s) == 0,
        0 <= i < s.len(),
    ensures
        s[i] is Stopped,
    decreases s.len(),
{
    if i < s.len() - 1 {
        lemma_live_count_zero(s.drop_last(), i);
    }
}

/// The bookkeeping of a fixed-size worker pool: the FIFO dispatch queue, the
/// state of each worker, and the tickets of the jobs accepted and handed out.
/// Whoever shares one value of it among workers holds it under a lock; each
/// method is one step taken under that lock.
pub struct PoolCore<J> {
    queue: VecDeque<Message<J>>,
    workers: Vec<WorkerState>,
    submitted: u64,
    dispatched: u64,
    closed: bool,
}

impl<J> PoolCore<J> {
    /// Messages waiting, oldest first.
    pub closed spec fn queue(&self) -> Seq<Message<J>> {
        self.queue@
    }

    /// State of each worker, by id.
    pub closed spec fn workers(&self) -> Seq<WorkerState> {
        self.workers@
    }

    /// Number of jobs accepted; the next job gets this ticket.
    pub closed spec fn submitted(&self) -> nat {
        self.submitted as nat
    }

    /// Number of jobs handed to a worker; the next one handed out has this ticket.
    pub closed spec fn dispatched(&self) -> nat {
        self.dispatched as nat
    }

    /// Whether shutdown has begun.
    pub closed spec fn closed(&self) -> bool {
        self.closed
    }

    /// Number of jobs accepted and not yet handed out.
    pub open spec fn pending_jobs(&self) -> nat {
        (self.submitted() - self.dispatched()) as nat
    }

    /// The pool's invariant. The queue holds the pending jobs in ticket order,
    /// followed by one stop signal for each worker still running (none before
    /// shutdown). No two workers run the same job, and no worker stops while jobs wait.
    pub closed spec fn wf(&self) -> bool {
        let q = self.queue@;
        let w = self.workers@;
        let k = self.pending_jobs();
        &&& w.len() > 0
        &&& self.dispatched <= self.submitted
        &&& k <= q.len()
        &&& forall|i: int|
            0 <= i < k ==> #[trigger] q[i] is NewJob && q[i]->NewJob_0 == self.dispatched + i
        &&& forall|i: int| k <= i < q.len() ==> #[trigger] q[i] is Terminate
        &&& !self.closed ==> q.len() == k
        &&& self.closed ==> q.len() - k == live_count(w)
        &&& !self.closed ==> forall|i: int| 0 <= i < w.len() ==> !(#[trigger] w[i] is Stopped)
        &&& forall|i: int| 0 <= i < w.len() && #[trigger] w[i] is Stopped ==> k == 0
        &&& forall|i: int| 0 <= i < w.len() && #[trigger] w[i] is Busy ==> w[i]->Busy_0 < self.dispatched
        &&& forall|i: int, j: int|
            0 <= i < w.len() && 0 <= j < w.len() && i != j && #[trigger] w[i] is Busy
                && #[trigger] w[j] is Busy ==> w[i]->Busy_0 != w[j]->Busy_0
    }

    /// A pool of `size` idle workers with ids `0..size` and an empty queue.
    /// A pool without workers is refused.
    pub fn new(size: usize) -> (r: Result<PoolCore<J>, PoolError>)
        ensures
            r is Err <==> size == 0,
            r is Err ==> r->Err_0 == PoolError::ZeroSize,
            r matches Ok(p) ==> {
                &&& p.wf()
                &&& p.workers() == idle_workers(size as nat)
                &&& p.queue() == Seq::<Message<J>>::empty()
                &&& p.submitted() == 0
                &&& p.dispatched() == 0
                &&& !p.closed()
            },
    {
        if size == 0 {
            return Err(PoolError::ZeroSize);
        }
        let mut workers: Vec<WorkerState> = Vec::with_capacity(size);
        let mut id: usize = 0;
        while id < size
            invariant
                id <= size,
                workers@ == idle_workers(id as nat),
            decreases size - id,
        {
            workers.push(WorkerState::Idle);
            id = id + 1;
            assert(workers@ =~= idle_workers(id as nat));
        }
        let p = PoolCore { queue: VecDeque::new(), workers, submitted: 0, dispatched: 0, closed: false };
        assert(p.queue@ =~= Seq::<Message<J>>::empty());
        Ok(p)
    }

    /// Accepts `job` under the next ticket and puts it at the back of the queue.
    /// After shutdown has begun the job is refused and nothing changes.
    pub fn execute(&mut self, job: J) -> (r: Result<u64, PoolError>)
        requires
            old(self).wf(),
            old(self).submitted() < u64::MAX,
        ensures
            final(self).wf(),
            final(self).workers() == old(self).workers(),
            final(self).dispatched() == old(self).dispatched(),
            final(self).closed() == old(self).closed(),
            old(self).closed() ==> {
                &&& r == Err::<u64, PoolError>(PoolError::ShuttingDown)
                &&& final(self).queue() == old(self).queue()
                &&& final(self).submitted() == old(self).submitted()
            },
            !old(self).closed() ==> {
                &&& r == Ok::<u64, PoolError>(old(self).submitted() as u64)
                &&& final(self).queue() == old(self).queue().push(
                    Message::NewJob(old(self).submitted() as u64, job),
                )
                &&& final(self).submitted() == old(self).submitted() + 1
            },
    {
        if self.closed {
            return Err(PoolError::ShuttingDown);
        }
        let ticket = self.submitted;
        self.queue.push_back(Message::NewJob(ticket, job));
        self.submitted = ticket + 1;
        Ok(ticket)
    }

    /// Begins shutdown: puts one stop signal per worker behind every job already
    /// queued, and refuses jobs from then on. A second call changes nothing.
    pub fn shutdown(&mut self)
        requires
            old(self).wf(),
        ensures
            final(self).wf(),
            final(self).closed(),
            final(self).workers() == old(self).workers(),
            final(self).submitted() == old(self).submitted(),
            final(self).dispatched() == old(self).dispatched(),
            old(self).closed() ==> final(self).queue() == old(self).queue(),
            !old(self).closed() ==> final(self).queue() == old(self).queue() + stops::<J>(
                old(self).workers().len(),
            ),
    {
        if self.closed {
            return;
        }
        let n = self.workers.len();
        let ghost q0 = self.queue@;
        let mut i: usize = 0;
        while i < n
            invariant
                i <= n,
                n == self.workers@.len(),
                self.queue@ == q0 + stops::<J>(i as nat),
                q0 == old(self).queue@,
                old(self).wf(),
                !old(self).closed,
                self.workers == old(self).workers,
                self.submitted == old(self).submitted,
                self.dispatched == old(self).dispatched,
                self.closed == old(self).closed,
            decreases n - i,
        {
            self.queue.push_back(Message::Terminate);
            i = i + 1;
            assert(self.queue@ =~= q0 + stops::<J>(i as nat));
        }
        self.closed = true;
        proof {
            lemma_live_count_all(self.workers@);
            let k = self.pending_jobs();
            assert forall|j: int| 0 <= j < k implies #[trigger] self.queue@[j] is NewJob
                && self.queue@[j]->NewJob_0 == self.dispatched + j by {
                assert(self.queue@[j] == q0[j]);
            }
            assert forall|j: int| k <= j < self.queue@.len() implies #[trigger] self.queue@[j] is Terminate by {
                if j < q0.len() {
                    assert(self.queue@[j] == q0[j]);
                }
            }
        }
    }
    /// One turn of the receive loop of the idle worker `worker`: takes the
    /// oldest message, if any. A job makes the worker busy with it; a stop
    /// signal stops the worker; an empty queue leaves everything as it was.
    pub fn next_message(&mut self, worker: usize) -> (r: Action<J>)
        requires
            old(self).wf(),
            worker < old(self).workers().len(),
            old(self).workers()[worker as int] == WorkerState::Idle,
        ensures
            final(self).wf(),
            final(self).submitted() == old(self).submitted(),
            final(self).closed() == old(self).closed(),
            r is Wait ==> {
                &&& old(self).queue().len() == 0
                &&& final(self).queue() == old(self).queue()
                &&& final(self).workers() == old(self).workers()
                &&& final(self).dispatched() == old(self).dispatched()
            },
            r matches Action::Run(t, job) ==> {
                &&& old(self).queue().len() > 0
                &&& old(self).queue()[0] == Message::NewJob(t, job)
                &&& t == old(self).dispatched()
                &&& final(self).queue() == old(self).queue().drop_first()
                &&& final(self).workers() == old(self).workers().update(
                    worker as int,
                    WorkerState::Busy(t),
                )
                &&& final(self).dispatched() == old(self).dispatched() + 1
            },
            r is Exit ==> {
                &&& old(self).queue().len() > 0
                &&& old(self).queue()[0] is Terminate
                &&& final(self).queue() == old(self).queue().drop_first()
                &&& final(self).workers() == old(self).workers().update(
                    worker as int,
                    WorkerState::Stopped,
                )
                &&& final(self).dispatched() == old(self).dispatched()
            },
    {
        let ghost q0 = self.queue@;
        let ghost w0 = self.workers@;
        match self.queue.pop_front() {
            None => Action::Wait,
            Some(Message::NewJob(t, job)) => {
                proof {
                    assert(q0[0] is NewJob);
                }
                self.workers.set(worker, WorkerState::Busy(t));
                self.dispatched = t + 1;
                proof {
                    lemma_live_count_update(w0, worker as int, WorkerState::Busy(t));
                    let q = self.queue@;
                    let w = self.workers@;
                    assert forall|i: int| 0 <= i < self.pending_jobs() implies #[trigger] q[i] is NewJob
                        && q[i]->NewJob_0 == self.dispatched + i by {
                        assert(q[i] == q0[i + 1]);
                    }
                    assert forall|i: int| self.pending_jobs() <= i < q.len() implies #[trigger] q[i] is Terminate by {
                        assert(q[i] == q0[i + 1]);
                    }
                    assert forall|i: int, j: int|
                        0 <= i < w.len() && 0 <= j < w.len() && i != j && #[trigger] w[i] is Busy
                            && #[trigger] w[j] is Busy implies w[i]->Busy_0 != w[j]->Busy_0 by {
                        if i != worker && j != worker {
                            assert(w[i] == w0[i] && w[j] == w0[j]);
                        }
                    }
                    assert forall|i: int| 0 <= i < w.len() && #[trigger] w[i] is Stopped implies self.pending_jobs() == 0 by {
                        assert(w[i] == w0[i]);
                    }
                }
                Action::Run(t, job)
            },
            Some(Message::Terminate) => {
                self.workers.set(worker, WorkerState::Stopped);
                proof {
                    if self.pending_jobs() > 0 {
                        assert(q0[0] is NewJob);
                    }
                    lemma_live_count_update(w0, worker as int, WorkerState::Stopped);
                    let q = self.queue@;
                    let w = self.workers@;
                    assert forall|i: int| self.pending_jobs() <= i < q.len() implies #[trigger] q[i] is Terminate by {
                        assert(q[i] == q0[i + 1]);
                    }
                    assert forall|i: int, j: int|
                        0 <= i < w.len() && 0 <= j < w.len() && i != j && #[trigger] w[i] is Busy
                            && #[trigger] w[j] is Busy implies w[i]->Busy_0 != w[j]->Busy_0 by {
                        assert(w[i] == w0[i] && w[j] == w0[j]);
                    }
                    assert forall|i: int| 0 <= i < w.len() && #[trigger] w[i] is Busy implies w[i]->Busy_0 < self.dispatched by {
                        assert(w[i] == w0[i]);
                    }
                }
                Action::Exit
            },
        }
    }

    /// The busy worker `worker` reports that its job has run to completion;
    /// it becomes idle and nothing else changes.
    pub fn finish_job(&mut self, worker: usize)
        requires
            old(self).wf(),
            worker < old(self).workers().len(),
            old(self).workers()[worker as int] is Busy,
        ensures
            final(self).wf(),
            final(self).workers() == old(self).workers().update(worker as int, WorkerState::Idle),
            final(self).queue() == old(self).queue(),
            final(self).submitted() == old(self).submitted(),
            final(self).dispatched() == old(self).dispatched(),
            final(self).closed() == old(self).closed(),
    {
        let ghost w0 = self.workers@;
        self.workers.set(worker, WorkerState::Idle);
        proof {
            lemma_live_count_update(w0, worker as int, WorkerState::Idle);
            let w = self.workers@;
            assert forall|i: int, j: int|
                0 <= i < w.len() && 0 <= j < w.len() && i != j && #[trigger] w[i] is Busy
                    && #[trigger] w[j] is Busy implies w[i]->Busy_0 != w[j]->Busy_0 by {
                assert(w[i] == w0[i] && w[j] == w0[j]);
            }
            assert forall|i: int| 0 <= i < w.len() && #[trigger] w[i] is Busy implies w[i]->Busy_0 < self.dispatched by {
                assert(w[i] == w0[i]);
            }
            assert forall|i: int| 0 <= i < w.len() && #[trigger] w[i] is Stopped implies self.pending_jobs() == 0 by {
                assert(w[i] == w0[i]);
            }
        }
    }
    /// Number of workers, fixed when the pool was made.
    pub fn size(&self) -> (r: usize)
        ensures
            r == self.workers().len(),
    {
        self.workers.len()
    }

    /// State of the worker `worker`.
    pub fn worker_state(&self, worker: usize) -> (r: WorkerState)
        requires
            worker < self.workers().len(),
        ensures
            r == self.workers()[worker as int],
    {
        self.workers[worker]
    }

    /// Whether shutdown has begun.
    pub fn is_closed(&self) -> (r: bool)
        ensures
            r == self.closed(),
    {
        self.closed
    }

    /// Number of messages waiting, jobs and stop signals together.
    pub fn queued(&self) -> (r: usize)
        ensures
            r == self.queue().len(),
    {
        self.queue.len()
    }

    /// Number of jobs accepted so far.
    pub fn submitted_count(&self) -> (r: u64)
        ensures
            r == self.submitted(),
    {
        self.submitted
    }

    /// Number of jobs handed to a worker so far.
    pub fn dispatched_count(&self) -> (r: u64)
        ensures
            r == self.dispatched(),
    {
        self.dispatched
    }

    /// Whether every worker has stopped.
    pub fn all_stopped(&self) -> (r: bool)
        ensures
            r == forall|i: int| 0 <= i < self.workers().len() ==> #[trigger] self.workers()[i] is Stopped,
    {
        let n = self.workers.len();
        let mut i: usize = 0;
        while i < n
            invariant
                i <= n,
                n == self.workers@.len(),
                forall|j: int| 0 <= j < i ==> #[trigger] self.workers@[j] is Stopped,
            decreases n - i,
        {
            match self.workers[i] {
                WorkerState::Stopped => {},
                _ => {
                    return false;
                },
            }
            i = i + 1;
        }
        true
    }
}

/// Every accepted job is handed out at most once and never lost: a job whose
/// ticket is below the dispatch count has left the queue for good, and every
/// other accepted job waits in the queue exactly once, at the place its ticket
/// gives it.
pub proof fn lemma_each_job_once<J>(p: &PoolCore<J>, t: nat)
    requires
        p.wf(),
        t < p.submitted(),
    ensures
        t < p.dispatched() ==> forall|i: int|
            0 <= i < p.queue().len() ==> !(#[trigger] p.queue()[i] matches Message::NewJob(u, _) && u == t),
        t >= p.dispatched() ==> {
            &&& p.queue()[t - p.dispatched()] matches Message::NewJob(u, _) && u == t
            &&& forall|i: int|
                0 <= i < p.queue().len() && (#[trigger] p.queue()[i] matches Message::NewJob(u, _) && u == t)
                    ==> i == t - p.dispatched()
        },
{
    if t >= p.dispatched() {
        let i = t - p.dispatched();
        assert(p.queue@[i] is NewJob);
    }
}

/// Jobs are handed out in the order they were accepted: each turn that hands
/// out a job hands out the lowest ticket not yet handed out, so no ticket
/// is handed out twice.
pub proof fn lemma_fifo_dispatch<J>(p: &PoolCore<J>)
    requires
        p.wf(),
        p.pending_jobs() > 0,
    ensures
        p.queue()[0] matches Message::NewJob(u, _) && u == p.dispatched(),
{
    assert(p.queue@[0] is NewJob);
}

/// Shutdown never strands a job: in the queue no stop signal comes before a job.
pub proof fn lemma_jobs_before_stops<J>(p: &PoolCore<J>, i: int, j: int)
    requires
        p.wf(),
        0 <= i < j < p.queue().len(),
        p.queue()[i] is Terminate,
    ensures
        p.queue()[j] is Terminate,
{
    if j < p.pending_jobs() {
        assert(p.queue@[j] is NewJob);
        assert(p.queue@[i] is NewJob);
    }
}

/// While a job waits, some worker is still running to take it.
pub proof fn lemma_pending_job_has_worker<J>(p: &PoolCore<J>) -> (w: int)
    requires
        p.wf(),
        p.pending_jobs() > 0,
    ensures
        0 <= w < p.workers().len(),
        !(p.workers()[w] is Stopped),
{
    assert(!(p.workers@[0] is Stopped));
    0
}

/// No two workers ever hold the same job.
pub proof fn lemma_no_shared_job<J>(p: &PoolCore<J>, i: int, j: int)
    requires
        p.wf(),
        0 <= i < p.workers().len(),
        0 <= j < p.workers().len(),
        i != j,
        p.workers()[i] is Busy,
        p.workers()[j] is Busy,
    ensures
        p.workers()[i]->Busy_0 != p.workers()[j]->Busy_0,
{
}

/// After shutdown, one stop signal waits for each worker still running, so
/// once the queue has drained every worker has stopped.
pub proof fn lemma_teardown_complete<J>(p: &PoolCore<J>)
    requires
        p.wf(),
        p.closed(),
        p.queue().len() == 0,
    ensures
        forall|i: int| 0 <= i < p.workers().len() ==> #[trigger] p.workers()[i] is Stopped,
{
    assert forall|i: int| 0 <= i < p.workers().len() implies #[trigger] p.workers()[i] is Stopped by {
        lemma_live_count_zero(p.workers@, i);
    }
}

} // verus!
