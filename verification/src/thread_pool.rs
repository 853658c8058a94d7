use vstd::prelude::*;

verus! {

/// A two-state signal: `block` sets it, `unblock` clears it, and `wait`
/// requires it clear. The job queue signals "job available" and "queue
/// drained" through two of these.
pub struct ThreadLock {
    blocking: bool,
}

impl ThreadLock {
    /// Whether `wait` is currently excluded.
    pub closed spec fn is_blocking(&self) -> bool {
        self.blocking
    }

    pub fn new() -> (r: Self)
        ensures
            !r.is_blocking(),
    {
        ThreadLock { blocking: false }
    }

    pub fn block(&mut self)
        ensures
            final(self).is_blocking(),
    {
        self.blocking = true;
    }

    pub fn unblock(&mut self)
        ensures
            !final(self).is_blocking(),
    {
        self.blocking = false;
    }

    /// Callable exactly while `unblock` was the last state change.
    pub fn wait(&self)
        requires
            !self.is_blocking(),
    {
    }
}

/// A first-in-first-out queue of jobs with the two gates the worker pool
/// synchronizes on: `has_task` holds workers back while the queue is empty,
/// and `is_empty` holds the drain barrier back while jobs may still be
/// pending.
///
/// Each job is handed to exactly one caller of `get_job`, exactly once, in
/// the order the jobs were assigned.
pub struct JobQueue<J> {
    queue: Vec<J>,
    is_empty: ThreadLock,
    has_task: ThreadLock,
}

impl<J> JobQueue<J> {
    /// The pending jobs, oldest first.
    pub closed spec fn jobs(&self) -> Seq<J> {
        self.queue@
    }

    /// Whether the drain barrier would hold its caller back.
    pub closed spec fn drain_gate_blocking(&self) -> bool {
        self.is_empty.is_blocking()
    }

    /// Whether a worker asking for a job would be held back.
    pub closed spec fn task_gate_blocking(&self) -> bool {
        self.has_task.is_blocking()
    }

    /// Validity of the queue's signaling: the drain gate is open only when
    /// no job is pending, and the task gate holds workers back only while
    /// the queue is empty.
    pub open spec fn wf(&self) -> bool {
        &&& self.jobs().len() > 0 ==> self.drain_gate_blocking()
        &&& self.task_gate_blocking() ==> self.jobs().len() == 0
    }

    pub fn new() -> (r: Self)
        ensures
            r.wf(),
            r.jobs() == Seq::<J>::empty(),
            r.task_gate_blocking(),
            !r.drain_gate_blocking(),
    {
        let mut has_task = ThreadLock::new();
        has_task.block();
        JobQueue { queue: Vec::new(), is_empty: ThreadLock::new(), has_task }
    }

    /// Appends a job at the tail of the queue, closes the drain barrier and
    /// releases a waiting worker.
    pub fn assign_job(&mut self, job: J)
        requires
            old(self).wf(),
        ensures
            final(self).wf(),
            final(self).jobs() == old(self).jobs().push(job),
            final(self).drain_gate_blocking(),
            !final(self).task_gate_blocking(),
    {
        self.queue.push(job);
        self.is_empty.block();
        self.has_task.unblock();
    }

    /// Takes the oldest pending job, if any. A worker finding the queue
    /// empty opens the drain barrier and closes the task gate behind
    /// itself. In the concurrent pool the call first blocks on the task
    /// gate; the sequential model admits it exactly when that gate is open.
    pub fn get_job(&mut self) -> (r: Option<J>)
        requires
            old(self).wf(),
            !old(self).task_gate_blocking(),
        ensures
            final(self).wf(),
            old(self).jobs().len() > 0 ==> {
                &&& r == Some(old(self).jobs().first())
                &&& final(self).jobs() == old(self).jobs().drop_first()
                &&& !final(self).task_gate_blocking()
                &&& final(self).drain_gate_blocking() == old(self).drain_gate_blocking()
            },
            old(self).jobs().len() == 0 ==> {
                &&& r is None
                &&& final(self).jobs() == old(self).jobs()
                &&& final(self).task_gate_blocking()
                &&& !final(self).drain_gate_blocking()
            },
    {
        self.has_task.wait();
        if self.queue.len() > 0 {
            let job = self.queue.remove(0);
            self.has_task.unblock();
            Some(job)
        } else {
            self.is_empty.unblock();
            self.has_task.block();
            None
        }
    }

    /// Passes the drain barrier. In the concurrent pool this blocks until a
    /// worker has seen the queue empty; the sequential model admits the
    /// call exactly when it would return without blocking, and the queue is
    /// then provably drained (`lemma_drain_barrier_open_means_empty`).
    pub fn wait_for_clear(&self)
        requires
            !self.drain_gate_blocking(),
    {
        self.is_empty.wait();
    }
}

/// Every assigned job is handed out before the drain barrier opens: in a
/// valid queue whose drain gate is open, no job is pending.
pub proof fn lemma_drain_barrier_open_means_empty<J>(q: JobQueue<J>)
    requires
        q.wf(),
        !q.drain_gate_blocking(),
    ensures
        q.jobs() == Seq::<J>::empty(),
{
    assert(q.jobs() =~= Seq::<J>::empty());
}

} // verus!
