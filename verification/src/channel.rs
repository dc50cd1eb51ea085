//! Trusted plumbing for the job queue: an unbounded multi-producer,
//! single-consumer channel whose consuming end is shared by all workers
//! under mutual exclusion, so that exactly one worker is mid-claim at a
//! time. The channel's contents are shared mutable state across threads,
//! so no contract here can track them; the library's lifecycle guarantees
//! are stated and proved over the protocol model instead.

use vstd::prelude::*;

verus! {

#[verifier::external_type_specification]
#[verifier::external_body]
#[verifier::reject_recursive_types(T)]
pub struct ExSender<T>(std::sync::mpsc::Sender<T>);

/// Shared consuming end of the job queue: a reference-counted handle to
/// the receiver, guarded by mutual exclusion. Held opaque because the
/// mutex-guarded receiver is a composite of std types that cannot be
/// declared to the verifier one by one.
#[verifier::external_body]
#[verifier::reject_recursive_types(J)]
pub struct SharedReceiver<J> {
    inner: std::sync::Arc<std::sync::Mutex<std::sync::mpsc::Receiver<J>>>,
}

/// Relies on std::sync::mpsc::channel: returns the two ends of a fresh,
/// empty, unbounded FIFO channel.
#[verifier::external_body]
pub(crate) fn job_channel<J: Send>() -> (ends: (std::sync::mpsc::Sender<J>, SharedReceiver<J>)) {
    let (tx, rx) = std::sync::mpsc::channel();
    (tx, SharedReceiver { inner: std::sync::Arc::new(std::sync::Mutex::new(rx)) })
}

/// Relies on std::sync::Arc::clone: returns a new non-owning handle to
/// the same consuming end.
#[verifier::external_body]
pub(crate) fn clone_receiver<J>(r: &SharedReceiver<J>) -> (c: SharedReceiver<J>) {
    SharedReceiver { inner: std::sync::Arc::clone(&r.inner) }
}

/// Relies on std::sync::mpsc::Sender::send: enqueues the job and returns
/// true, unless every receiving handle is gone, in which case the job is
/// dropped and false is returned.
#[verifier::external_body]
pub(crate) fn send_job<J: Send>(s: &std::sync::mpsc::Sender<J>, job: J) -> (delivered: bool) {
    s.send(job).is_ok()
}

/// Relies on std::sync::Mutex::lock and std::sync::mpsc::Receiver::recv:
/// blocks until one job can be claimed, and returns it; returns None once
/// the producing end is gone and the queue is empty, or if the lock is
/// poisoned. The lock is released before this returns, so a claimed job
/// is always executed outside the exclusive-access window.
#[verifier::external_body]
pub(crate) fn claim_job<J: Send>(r: &SharedReceiver<J>) -> (claimed: Option<J>) {
    let guard = match r.inner.lock() {
        Ok(g) => g,
        Err(_) => return None,
    };
    match guard.recv() {
        Ok(job) => Some(job),
        Err(_) => None,
    }
}

/// Relies on dropping std::sync::mpsc::Sender: disconnects the producing
/// end, so every later claim attempt returns None once the queue drains.
#[verifier::external_body]
pub(crate) fn close_sender<J: Send>(s: std::sync::mpsc::Sender<J>) {
    drop(s);
}

} // verus!
