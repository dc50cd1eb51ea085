//! A fixed-size worker-thread pool with graceful, deadlock-free shutdown.
//!
//! [`ThreadPool`] owns the producing end of an unbounded FIFO job queue
//! and a fixed set of workers that share its consuming end under mutual
//! exclusion. Submitted jobs are delivered to workers in first-in,
//! first-out order; [`ThreadPool::shutdown`] closes the queue as its
//! irrevocable first step and only then waits for the workers, so every
//! queued job executes and every worker terminates before it returns.
//!
//! Starting and waiting for an operating-system thread cannot be done
//! here, so the pool takes those two operations as caller-supplied
//! closures: the caller's spawner runs [`worker_step`] in a loop on a
//! new thread, and its joiner blocks on the thread's handle. Everything
//! around them — the queue ends, the claim step each worker repeats,
//! the order of construction and teardown steps — is verified.
//!
//! The queue is shared mutable state across threads, so contracts on the
//! pool itself can only pin down its shape (worker count, teardown
//! order). The lifecycle guarantees — every submitted job executes
//! exactly once, teardown drains the queue, no worker waits forever on a
//! closed queue, a claim is never serialized behind a running job — are
//! stated and proved over the [`protocol`] state machine, which mirrors
//! the transitions the pool and its workers take.

use vstd::prelude::*;

pub mod acceptor;
pub mod channel;
pub mod http;
pub mod protocol;

use channel::SharedReceiver;

verus! {

/// One unit of deferred, single-invocation work. A job is claimed by
/// exactly one worker and run to completion on that worker's thread.
pub trait Job: Sized + Send {
    /// Consumes the job and performs its work.
    fn run(self);
}

/// One worker: a small integer identity (diagnostics only) plus the
/// caller's handle to the worker's thread, kept so that teardown can
/// wait for the thread to finish.
struct Worker<H> {
    id: usize,
    handle: H,
}

/// One iteration of the loop each worker thread runs: claim one job
/// under the queue's mutual exclusion, release the queue, then run the
/// job and return true. Returns false on a failed claim — the producing
/// end is closed and the queue is empty — upon which the worker must
/// terminate. A worker thread is a bare `while worker_step(&r) {}`; the
/// loop stays with the caller because how long it runs is decided by
/// the other threads, not by this code.
pub fn worker_step<J: Job + 'static>(receiver: &SharedReceiver<J>) -> (claimed: bool) {
    match channel::claim_job(receiver) {
        Some(job) => {
            job.run();
            true
        },
        None => false,
    }
}

/// A fixed collection of workers plus the producing end of the job
/// queue. The producing end is owned by the pool alone and is closed
/// exactly once, by [`ThreadPool::shutdown`], which consumes the pool;
/// no job can be submitted once shutdown has begun.
#[verifier::reject_recursive_types(J)]
pub struct ThreadPool<J: Job + 'static, H> {
    workers: Vec<Worker<H>>,
    sender: std::sync::mpsc::Sender<J>,
}

impl<J: Job + 'static, H> ThreadPool<J, H> {
    /// Number of workers the pool was constructed with.
    pub closed spec fn size(&self) -> nat {
        self.workers@.len()
    }

    /// The pool holds one worker per id `0, 1, ..., size - 1`.
    pub closed spec fn wf(&self) -> bool {
        forall|k: int| 0 <= k < self.workers@.len() ==> (#[trigger] self.workers@[k]).id == k
    }

    /// Creates the job queue and spawns exactly `size` workers, each on
    /// a fresh shared handle to the queue's consuming end. `spawn_worker`
    /// must start a thread that repeats [`worker_step`] on the handle it
    /// is given until the step fails, and return that thread's handle.
    /// A pool of size zero is a precondition violation, not a
    /// recoverable error.
    pub fn new<F: Fn(usize, SharedReceiver<J>) -> H>(size: usize, spawn_worker: F) -> (pool:
        ThreadPool<J, H>)
        requires
            size >= 1,
            forall|id: usize, r: SharedReceiver<J>| spawn_worker.requires((id, r)),
        ensures
            pool.wf(),
            pool.size() == size,
    {
        let (sender, receiver) = channel::job_channel();
        let mut workers: Vec<Worker<H>> = Vec::new();
        let mut id: usize = 0;
        while id < size
            invariant
                id <= size,
                workers@.len() == id,
                forall|k: int| 0 <= k < id ==> (#[trigger] workers@[k]).id == k,
                forall|i: usize, r: SharedReceiver<J>| spawn_worker.requires((i, r)),
            decreases size - id,
        {
            let handle = spawn_worker(id, channel::clone_receiver(&receiver));
            workers.push(Worker { id, handle });
            id = id + 1;
        }
        ThreadPool { workers, sender }
    }

    /// Checked construction: calls the spawner not at all and returns
    /// `None` for size zero, otherwise builds the pool as
    /// [`ThreadPool::new`] does.
    pub fn try_new<F: Fn(usize, SharedReceiver<J>) -> H>(size: usize, spawn_worker: F) -> (r:
        Option<ThreadPool<J, H>>)
        requires
            forall|id: usize, r: SharedReceiver<J>| spawn_worker.requires((id, r)),
        ensures
            r is Some <==> size >= 1,
            r matches Some(pool) ==> pool.wf() && pool.size() == size,
    {
        if size == 0 {
            None
        } else {
            Some(Self::new(size, spawn_worker))
        }
    }

    /// Submits one job on the producing end; an idle worker will claim
    /// and run it. Returns whether the queue accepted the job: it is
    /// refused only if every worker has already terminated abnormally,
    /// and a refused job is dropped rather than executed.
    pub fn execute(&self, job: J) -> (delivered: bool) {
        channel::send_job(&self.sender, job)
    }

    /// Graceful teardown: closes the producing end as the irrevocable
    /// first step — after which each worker finishes its current job,
    /// drains what is queued, observes closure and exits — and only then
    /// waits for the workers, calling `join_worker` once per worker with
    /// its thread handle. `join_worker` must block until that thread has
    /// terminated. Returns only once all `size()` workers have been
    /// waited for; consuming the pool makes a second shutdown, or a
    /// submission after shutdown, impossible. Closing before the first
    /// wait is what makes teardown deadlock-free: a worker blocked on an
    /// empty queue is released by the closure itself.
    pub fn shutdown<G: Fn(H) -> ()>(self, join_worker: G) -> (joined: usize)
        requires
            self.size() <= usize::MAX,
            forall|h: H| join_worker.requires((h,)),
        ensures
            joined == self.size(),
    {
        let ThreadPool { mut workers, sender } = self;
        channel::close_sender(sender);
        let ghost total = workers@.len();
        let mut joined: usize = 0;
        loop
            invariant
                joined + workers@.len() == total,
                total == self.size(),
                total <= usize::MAX,
                forall|h: H| join_worker.requires((h,)),
            decreases workers@.len(),
        {
            match workers.pop() {
                Some(worker) => {
                    join_worker(worker.handle);
                    joined = joined + 1;
                },
                None => {
                    return joined;
                },
            }
        }
    }
}

} // verus!
