//! Task executor abstraction: one operation, submitting a unit of work for
//! asynchronous execution. The default implementation is a fixed-size pool
//! of workers pulling from one shared FIFO queue; each worker is marked as
//! belonging to the executor so shutdown can skip joining the current
//! thread instead of deadlocking on a self-join.

use vstd::prelude::*;
use std::collections::VecDeque;
use crate::commands::Action;
use crate::status::Error;

verus! {

/// Capability to run work off the I/O thread. Submission returns
/// immediately; a failure is reported to the submitter, never aborts it.
/// Implementors decide where and when the work runs, and say what one
/// submission means for them through `spawn_ens`.
pub trait Executor: Sized {
    /// What this backend promises of one submission.
    spec fn spawn_ens(pre: Self, post: Self, job: Action, r: Result<(), Error>) -> bool;

    fn spawn(&mut self, job: Action) -> (r: Result<(), Error>)
        ensures
            Self::spawn_ens(*old(self), *final(self), job, r),
    ;
}

/// Scheduling state of the default executor: a shared FIFO job queue with no
/// priorities, and the identities of the pool's worker threads.
pub struct DefaultExecutor {
    pub jobs: VecDeque<Action>,
    pub workers: Vec<u64>,
}

impl DefaultExecutor {
    pub fn new(workers: Vec<u64>) -> (r: DefaultExecutor)
        ensures
            r.jobs@ == Seq::<Action>::empty(),
            r.workers == workers,
    {
        DefaultExecutor { jobs: VecDeque::new(), workers }
    }

    /// Enqueue a job at the back of the shared FIFO queue.
    pub fn submit(&mut self, job: Action)
        ensures
            final(self).jobs@ == old(self).jobs@.push(job),
            final(self).workers == old(self).workers,
    {
        self.jobs.push_back(job);
    }

    /// The next job a worker pulls: the front of the queue, in submission
    /// order.
    pub fn next_job(&mut self) -> (r: Option<Action>)
        ensures
            old(self).jobs@.len() == 0 ==> r is None && final(self).jobs@ == old(self).jobs@,
            old(self).jobs@.len() > 0 ==> r == Some(old(self).jobs@[0]) && final(self).jobs@
                == old(self).jobs@.skip(1),
            final(self).workers == old(self).workers,
    {
        let r = self.jobs.pop_front();
        proof {
            if old(self).jobs@.len() > 0 {
                assert(self.jobs@ =~= old(self).jobs@.skip(1));
            }
        }
        r
    }

    /// The workers shutdown joins: every worker except the current thread,
    /// which is only signalled, in pool order.
    pub fn join_plan(&self, current: u64) -> (r: Vec<u64>)
        ensures
            r@ == joinable_workers(self.workers@, current),
    {
        let mut r: Vec<u64> = Vec::new();
        let mut i: usize = 0;
        proof {
            assert(self.workers@.skip(0) =~= self.workers@);
            assert(joinable_workers(self.workers@, current) =~= Seq::<u64>::empty()
                + joinable_workers(self.workers@, current));
        }
        while i < self.workers.len()
            invariant
                i <= self.workers@.len(),
                joinable_workers(self.workers@, current) == r@ + joinable_workers(
                    self.workers@.skip(i as int),
                    current,
                ),
            decreases self.workers@.len() - i,
        {
            let ghost pre = self.workers@.skip(i as int);
            let w = self.workers[i];
            proof {
                assert(pre[0] == w);
                assert(pre.skip(1) =~= self.workers@.skip(i + 1));
            }
            if w != current {
                r.push(w);
            }
            i = i + 1;
            proof {
                assert(joinable_workers(self.workers@, current) =~= r@ + joinable_workers(
                    self.workers@.skip(i as int),
                    current,
                ));
            }
        }
        proof {
            assert(joinable_workers(self.workers@, current) =~= r@);
        }
        r
    }
}

/// The worker threads that shutdown may join: every worker but `current`,
/// in pool order.
pub open spec fn joinable_workers(workers: Seq<u64>, current: u64) -> Seq<u64>
    decreases workers.len(),
{
    if workers.len() == 0 {
        Seq::<u64>::empty()
    } else if workers[0] != current {
        seq![workers[0]] + joinable_workers(workers.skip(1), current)
    } else {
        joinable_workers(workers.skip(1), current)
    }
}

impl Executor for DefaultExecutor {
    /// Submission always succeeds and enqueues the job at the back of the
    /// FIFO queue, exactly as `submit` states.
    open spec fn spawn_ens(pre: Self, post: Self, job: Action, r: Result<(), Error>) -> bool {
        post.jobs@ == pre.jobs@.push(job) && post.workers == pre.workers && r is Ok
    }

    fn spawn(&mut self, job: Action) -> (r: Result<(), Error>) {
        self.submit(job);
        Ok(())
    }
}

/// Whether `thread` belongs to the executor's pool: used to detect
/// re-entrant submission and to skip the self-join during shutdown.
pub fn within_executor(executor: &DefaultExecutor, thread: u64) -> (r: bool)
    ensures
        r == executor.workers@.contains(thread),
{
    let mut i: usize = 0;
    while i < executor.workers.len()
        invariant
            i <= executor.workers@.len(),
            forall|j: int| 0 <= j < i ==> executor.workers@[j] != thread,
        decreases executor.workers@.len() - i,
    {
        if executor.workers[i] == thread {
            return true;
        }
        i = i + 1;
    }
    proof {
        assert(!executor.workers@.contains(thread));
    }
    false
}

} // verus!
