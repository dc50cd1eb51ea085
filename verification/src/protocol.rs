//! The pool lifecycle as an explicit state machine.
//!
//! Real workers run concurrently, and the queue they share is opaque to
//! the verifier, so the lifecycle guarantees of the pool are stated and
//! proved here, over a state machine whose transitions are exactly the
//! events of the running pool: a job is submitted, the producing end is
//! closed, a worker claims the job at the head of the queue, finishes
//! its claimed job, or observes closure and retires. One worker is ever
//! mid-claim at a time, so interleavings of the real pool are sequences
//! of these transitions, and an invariant preserved by every transition
//! holds of every reachable state.
//!
//! [`PoolProtocol`] is the executable form of the machine, with one
//! method per transition; [`PoolState`] is its abstract value, which the
//! contracts and the laws at the end of the module speak of. Jobs are
//! identified by the order of their submission: the id of a job is the
//! number of jobs submitted before it.

use vstd::prelude::*;

verus! {

/// Phase of one worker in the pool lifecycle.
#[derive(Clone, Copy, PartialEq, Eq, Debug, Structural)]
pub enum Phase {
    /// Blocked waiting to claim the next job.
    Idle,
    /// Executing the claimed job with this id.
    Running(u64),
    /// Observed queue closure and exited.
    Done,
}

/// Abstract state of the pool lifecycle.
#[verifier::ext_equal]
pub struct PoolState {
    /// Phase of each worker; the length is the pool size.
    pub phases: Seq<Phase>,
    /// Ids of submitted, not yet claimed jobs, oldest first.
    pub queue: Seq<u64>,
    /// Ids of completed jobs, in order of completion.
    pub executed: Seq<u64>,
    /// Number of jobs submitted so far; ids count up from zero.
    pub submitted: u64,
    /// Whether the producing end of the queue is still open.
    pub open: bool,
}

pub open spec fn is_running(p: Phase) -> bool {
    p matches Phase::Running(_)
}

/// The id a running worker holds; immaterial for other phases.
pub open spec fn held_job(p: Phase) -> u64 {
    match p {
        Phase::Running(id) => id,
        _ => 0,
    }
}

/// Some worker is mid-execution of the job with this id.
pub open spec fn runs(ph: Seq<Phase>, id: u64) -> bool {
    exists|i: int| 0 <= i < ph.len() && ph[i] == Phase::Running(id)
}

/// One for a running worker, zero otherwise; summed for the count of
/// workers that are mid-execution.
pub open spec fn running_weight(p: Phase) -> nat {
    match p {
        Phase::Running(_) => 1,
        _ => 0,
    }
}

pub open spec fn running_count(ph: Seq<Phase>) -> nat
    decreases ph.len(),
{
    if ph.len() == 0 {
        0
    } else {
        running_weight(ph[0]) + running_count(ph.drop_first())
    }
}

/// How far a worker still is from retirement: a running worker must
/// finish and then observe closure, an idle one only observe closure.
pub open spec fn remaining_weight(p: Phase) -> nat {
    match p {
        Phase::Running(_) => 2,
        Phase::Idle => 1,
        Phase::Done => 0,
    }
}

pub open spec fn remaining_sum(ph: Seq<Phase>) -> nat
    decreases ph.len(),
{
    if ph.len() == 0 {
        0
    } else {
        remaining_weight(ph[0]) + remaining_sum(ph.drop_first())
    }
}

/// Work the machine must still do before every worker has retired: each
/// queued job takes a claim and a finish, and each worker some steps of
/// its own. Every transition enabled on a closed pool lowers this.
pub open spec fn remaining_work(s: PoolState) -> nat {
    2 * s.queue.len() + remaining_sum(s.phases)
}

/// The job with this id is accounted for in exactly one way: waiting in
/// the queue, held by a worker, or executed.
pub open spec fn placed(s: PoolState, id: u64) -> bool {
    s.queue.contains(id) || runs(s.phases, id) || s.executed.contains(id)
}

/// Every worker has observed closure and exited.
pub open spec fn terminated(s: PoolState) -> bool {
    forall|i: int| 0 <= i < s.phases.len() ==> s.phases[i] == Phase::Done
}

/// No worker is mid-execution.
pub open spec fn none_running(s: PoolState) -> bool {
    forall|i: int| 0 <= i < s.phases.len() ==> !is_running(#[trigger] s.phases[i])
}

impl PoolState {
    /// The invariant every reachable state satisfies.
    pub open spec fn inv(self) -> bool {
        &&& self.phases.len() >= 1
        // Ids are issued in submission order and the queue is FIFO, so
        // the queue holds strictly increasing ids.
        &&& (forall|k1: int, k2: int|
            0 <= k1 < k2 < self.queue.len() ==> #[trigger] self.queue[k1] < #[trigger] self.queue[k2])
        // No job is executed twice.
        &&& self.executed.no_duplicates()
        // Only issued ids are in play.
        &&& (forall|k: int| 0 <= k < self.queue.len() ==> #[trigger] self.queue[k] < self.submitted)
        &&& (forall|k: int|
            0 <= k < self.executed.len() ==> #[trigger] self.executed[k] < self.submitted)
        &&& (forall|i: int|
            0 <= i < self.phases.len() && is_running(#[trigger] self.phases[i]) ==> held_job(
                self.phases[i],
            ) < self.submitted)
        // A job is claimed by at most one worker at a time.
        &&& (forall|i: int, j: int|
            0 <= i < self.phases.len() && 0 <= j < self.phases.len() && is_running(
                #[trigger] self.phases[i],
            ) && is_running(#[trigger] self.phases[j]) && held_job(self.phases[i]) == held_job(
                self.phases[j],
            ) ==> i == j)
        // The three places a job can be are mutually exclusive.
        &&& (forall|id: u64|
            #[trigger] self.queue.contains(id) ==> !runs(self.phases, id) && !self.executed.contains(
                id,
            ))
        &&& (forall|id: u64| #[trigger] runs(self.phases, id) ==> !self.executed.contains(id))
        // ... and every issued job is in one of them: none is lost.
        &&& (forall|id: u64| id < self.submitted ==> #[trigger] placed(self, id))
        // Each issued job is in exactly one place, counted once.
        &&& self.queue.len() + running_count(self.phases) + self.executed.len() == self.submitted
        // A worker exits only after the producing end is closed ...
        &&& (forall|i: int|
            0 <= i < self.phases.len() && #[trigger] self.phases[i] == Phase::Done ==> !self.open)
        // ... and only once the queue has drained.
        &&& (terminated(self) ==> self.queue.len() == 0)
    }
}

/// Initial state: `size` idle workers, nothing submitted, queue open.
pub open spec fn initial_state(size: int) -> PoolState {
    PoolState {
        phases: Seq::new(size as nat, |i: int| Phase::Idle),
        queue: Seq::empty(),
        executed: Seq::empty(),
        submitted: 0,
        open: true,
    }
}

/// A job may be submitted while the producing end is open.
pub open spec fn submit_enabled(s: PoolState) -> bool {
    s.open && s.submitted < u64::MAX
}

/// Submission: the fresh id enters the tail of the queue.
pub open spec fn spec_submit(s: PoolState) -> PoolState {
    PoolState { queue: s.queue.push(s.submitted), submitted: (s.submitted + 1) as u64, ..s }
}

/// The producing end can be closed only once: closing is the
/// irrevocable first step of shutdown.
pub open spec fn close_enabled(s: PoolState) -> bool {
    s.open
}

pub open spec fn spec_close(s: PoolState) -> PoolState {
    PoolState { open: false, ..s }
}

/// An idle worker can claim whenever the queue is nonempty — whatever
/// the other workers are doing, since a claim needs the queue alone.
pub open spec fn claim_enabled(s: PoolState, w: int) -> bool {
    &&& 0 <= w < s.phases.len()
    &&& s.phases[w] == Phase::Idle
    &&& s.queue.len() > 0
}

/// A claim takes the job at the head of the queue: FIFO delivery.
pub open spec fn spec_claim(s: PoolState, w: int) -> PoolState {
    PoolState {
        phases: s.phases.update(w, Phase::Running(s.queue[0])),
        queue: s.queue.drop_first(),
        ..s
    }
}

pub open spec fn finish_enabled(s: PoolState, w: int) -> bool {
    &&& 0 <= w < s.phases.len()
    &&& is_running(s.phases[w])
}

/// The claimed job runs to completion on the worker that claimed it,
/// and on no other; the worker then returns to claiming.
pub open spec fn spec_finish(s: PoolState, w: int) -> PoolState {
    PoolState {
        phases: s.phases.update(w, Phase::Idle),
        executed: s.executed.push(held_job(s.phases[w])),
        ..s
    }
}

/// An idle worker retires exactly when its claim fails: the producing
/// end is closed and no job is left — so a worker never exits with work
/// still pending, and never blocks forever on a closed queue.
pub open spec fn retire_enabled(s: PoolState, w: int) -> bool {
    &&& 0 <= w < s.phases.len()
    &&& s.phases[w] == Phase::Idle
    &&& !s.open
    &&& s.queue.len() == 0
}

pub open spec fn spec_retire(s: PoolState, w: int) -> PoolState {
    PoolState { phases: s.phases.update(w, Phase::Done), ..s }
}

// ---------------------------------------------------------------------
// Counting lemmas for the two phase sums.
// ---------------------------------------------------------------------

proof fn lemma_running_count_update(ph: Seq<Phase>, w: int, p: Phase)
    requires
        0 <= w < ph.len(),
    ensures
        running_count(ph.update(w, p)) == running_count(ph) - running_weight(ph[w])
            + running_weight(p),
    decreases ph.len(),
{
    if w == 0 {
        assert(ph.update(0, p).drop_first() =~= ph.drop_first());
    } else {
        assert(ph.update(w, p).drop_first() =~= ph.drop_first().update(w - 1, p));
        lemma_running_count_update(ph.drop_first(), w - 1, p);
    }
}

proof fn lemma_remaining_sum_update(ph: Seq<Phase>, w: int, p: Phase)
    requires
        0 <= w < ph.len(),
    ensures
        remaining_sum(ph.update(w, p)) == remaining_sum(ph) - remaining_weight(ph[w])
            + remaining_weight(p),
    decreases ph.len(),
{
    if w == 0 {
        assert(ph.update(0, p).drop_first() =~= ph.drop_first());
    } else {
        assert(ph.update(w, p).drop_first() =~= ph.drop_first().update(w - 1, p));
        lemma_remaining_sum_update(ph.drop_first(), w - 1, p);
    }
}

/// No worker is mid-execution if and only if the running count is zero.
proof fn lemma_running_count_zero(ph: Seq<Phase>)
    ensures
        (running_count(ph) == 0) <==> (forall|i: int|
            0 <= i < ph.len() ==> !is_running(#[trigger] ph[i])),
    decreases ph.len(),
{
    if ph.len() > 0 {
        lemma_running_count_zero(ph.drop_first());
        assert(forall|i: int|
            1 <= i < ph.len() ==> #[trigger] ph[i] == ph.drop_first()[i - 1]);
    }
}

// ---------------------------------------------------------------------
// Each transition preserves the invariant.
// ---------------------------------------------------------------------

pub proof fn lemma_initial_inv(size: int)
    requires
        size >= 1,
    ensures
        initial_state(size).inv(),
{
    let s = initial_state(size);
    lemma_running_count_zero(s.phases);
    assert forall|id: u64| id < s.submitted implies #[trigger] placed(s, id) by {}
}

pub proof fn lemma_submit_preserves_inv(s: PoolState)
    requires
        s.inv(),
        submit_enabled(s),
    ensures
        spec_submit(s).inv(),
{
    let t = spec_submit(s);
    assert forall|id: u64| #[trigger] t.queue.contains(id) implies !runs(t.phases, id)
        && !t.executed.contains(id) by {
        if id == s.submitted {
            if runs(t.phases, id) {
                let i = choose|i: int| 0 <= i < t.phases.len() && t.phases[i] == Phase::Running(id);
                assert(held_job(s.phases[i]) < s.submitted);
            }
            if t.executed.contains(id) {
                let k = choose|k: int| 0 <= k < t.executed.len() && t.executed[k] == id;
            }
        } else {
            assert(s.queue.contains(id));
        }
    }
    assert forall|id: u64| id < t.submitted implies #[trigger] placed(t, id) by {
        if id < s.submitted {
            assert(placed(s, id));
            if s.queue.contains(id) {
                let k = choose|k: int| 0 <= k < s.queue.len() && s.queue[k] == id;
                assert(t.queue[k] == id);
            }
        } else {
            assert(t.queue[s.queue.len() as int] == id);
        }
    }
    // No worker can be done while the pool is open, so not all are done.
    assert(t.phases[0] == s.phases[0]);
    if terminated(t) {
        assert(s.phases[0] == Phase::Done);
    }
}

pub proof fn lemma_close_preserves_inv(s: PoolState)
    requires
        s.inv(),
        close_enabled(s),
    ensures
        spec_close(s).inv(),
{
    let t = spec_close(s);
    assert(t.queue =~= s.queue);
    assert(t.phases =~= s.phases);
    assert forall|id: u64| id < t.submitted implies #[trigger] placed(t, id) by {
        assert(placed(s, id));
    }
    assert forall|id: u64| #[trigger] t.queue.contains(id) implies !runs(t.phases, id)
        && !t.executed.contains(id) by {
        assert(s.queue.contains(id));
    }
    assert forall|id: u64| #[trigger] runs(t.phases, id) implies !t.executed.contains(id) by {
        assert(runs(s.phases, id));
    }
}

pub proof fn lemma_claim_preserves_inv(s: PoolState, w: int)
    requires
        s.inv(),
        claim_enabled(s, w),
    ensures
        spec_claim(s, w).inv(),
{
    let t = spec_claim(s, w);
    let head = s.queue[0];
    lemma_running_count_update(s.phases, w, Phase::Running(head));
    assert(s.queue.contains(head));
    // The head leaves the queue; strict order makes it absent from the tail.
    assert forall|id: u64| #[trigger] t.queue.contains(id) implies s.queue.contains(id) && id
        != head by {
        let k = choose|k: int| 0 <= k < t.queue.len() && t.queue[k] == id;
        assert(s.queue[k + 1] == id);
        assert(s.queue[0] < s.queue[k + 1]);
    }
    assert forall|id: u64| #[trigger] runs(t.phases, id) implies id == head || runs(s.phases, id) by {
        let i = choose|i: int| 0 <= i < t.phases.len() && t.phases[i] == Phase::Running(id);
        if i != w {
            assert(s.phases[i] == Phase::Running(id));
        }
    }
    assert forall|id: u64| #[trigger] t.queue.contains(id) implies !runs(t.phases, id)
        && !t.executed.contains(id) by {}
    assert forall|id: u64| #[trigger] runs(t.phases, id) implies !t.executed.contains(id) by {}
    assert forall|i: int, j: int|
        0 <= i < t.phases.len() && 0 <= j < t.phases.len() && is_running(#[trigger] t.phases[i])
            && is_running(#[trigger] t.phases[j]) && held_job(t.phases[i]) == held_job(
            t.phases[j],
        ) implies i == j by {
        if i != j {
            if i == w {
                assert(runs(s.phases, head));
            } else if j == w {
                assert(runs(s.phases, head));
            }
        }
    }
    assert forall|id: u64| id < t.submitted implies #[trigger] placed(t, id) by {
        assert(placed(s, id));
        if s.queue.contains(id) {
            if id == head {
                assert(t.phases[w] == Phase::Running(id));
            } else {
                let k = choose|k: int| 0 <= k < s.queue.len() && s.queue[k] == id;
                if k == 0 {
                    assert(id == head);
                } else {
                    assert(t.queue[k - 1] == id);
                }
            }
        } else if runs(s.phases, id) {
            let i = choose|i: int| 0 <= i < s.phases.len() && s.phases[i] == Phase::Running(id);
            assert(i != w);
            assert(t.phases[i] == Phase::Running(id));
        }
    }
    assert(t.phases[w] == Phase::Running(head));
    if terminated(t) {
        assert(t.phases[w] == Phase::Done);
    }
}

pub proof fn lemma_finish_preserves_inv(s: PoolState, w: int)
    requires
        s.inv(),
        finish_enabled(s, w),
    ensures
        spec_finish(s, w).inv(),
{
    let t = spec_finish(s, w);
    let id0 = held_job(s.phases[w]);
    lemma_running_count_update(s.phases, w, Phase::Idle);
    assert(runs(s.phases, id0));
    assert(!s.executed.contains(id0));
    assert forall|id: u64| #[trigger] runs(t.phases, id) implies runs(s.phases, id) && id != id0 by {
        let i = choose|i: int| 0 <= i < t.phases.len() && t.phases[i] == Phase::Running(id);
        assert(i != w);
        assert(s.phases[i] == Phase::Running(id));
        if id == id0 {
            assert(i == w);
        }
    }
    assert forall|id: u64| #[trigger] t.executed.contains(id) implies s.executed.contains(id) || id
        == id0 by {
        let k = choose|k: int| 0 <= k < t.executed.len() && t.executed[k] == id;
        if k < s.executed.len() {
            assert(s.executed[k] == id);
        }
    }
    assert(t.executed.no_duplicates()) by {
        assert forall|k1: int, k2: int|
            0 <= k1 < t.executed.len() && 0 <= k2 < t.executed.len() && k1 != k2 implies t.executed[k1]
            != t.executed[k2] by {
            if k1 < s.executed.len() && k2 < s.executed.len() {
            } else if k1 < s.executed.len() {
                assert(s.executed.contains(s.executed[k1]));
            } else if k2 < s.executed.len() {
                assert(s.executed.contains(s.executed[k2]));
            }
        }
    }
    assert forall|id: u64| #[trigger] t.queue.contains(id) implies !runs(t.phases, id)
        && !t.executed.contains(id) by {
        if id == id0 {
            assert(!s.queue.contains(id0));
        }
    }
    assert forall|id: u64| id < t.submitted implies #[trigger] placed(t, id) by {
        assert(placed(s, id));
        if runs(s.phases, id) {
            let i = choose|i: int| 0 <= i < s.phases.len() && s.phases[i] == Phase::Running(id);
            if i == w {
                assert(t.executed[s.executed.len() as int] == id0);
                assert(t.executed.contains(id0));
            } else {
                assert(t.phases[i] == Phase::Running(id));
            }
        } else if s.executed.contains(id) {
            let k = choose|k: int| 0 <= k < s.executed.len() && s.executed[k] == id;
            assert(t.executed[k] == id);
        }
    }
    assert(t.phases[w] == Phase::Idle);
    if terminated(t) {
        assert(t.phases[w] == Phase::Done);
    }
}

pub proof fn lemma_retire_preserves_inv(s: PoolState, w: int)
    requires
        s.inv(),
        retire_enabled(s, w),
    ensures
        spec_retire(s, w).inv(),
{
    let t = spec_retire(s, w);
    lemma_running_count_update(s.phases, w, Phase::Done);
    assert forall|id: u64| #[trigger] runs(t.phases, id) implies runs(s.phases, id) by {
        let i = choose|i: int| 0 <= i < t.phases.len() && t.phases[i] == Phase::Running(id);
        assert(i != w);
        assert(s.phases[i] == Phase::Running(id));
    }
    assert forall|id: u64| #[trigger] t.queue.contains(id) implies !runs(t.phases, id)
        && !t.executed.contains(id) by {
        assert(s.queue.contains(id));
    }
    assert forall|id: u64| id < t.submitted implies #[trigger] placed(t, id) by {
        assert(placed(s, id));
        if runs(s.phases, id) {
            let i = choose|i: int| 0 <= i < s.phases.len() && s.phases[i] == Phase::Running(id);
            assert(i != w);
            assert(t.phases[i] == Phase::Running(id));
        }
    }
}

// ---------------------------------------------------------------------
// Laws of the lifecycle.
// ---------------------------------------------------------------------

/// With nothing queued and no worker mid-execution, every job ever
/// submitted has been executed — each exactly once, none lost, none
/// invented. Submitting `K` jobs thus results in exactly `K` executions.
pub proof fn lemma_quiescent_all_executed(s: PoolState)
    requires
        s.inv(),
        s.queue.len() == 0,
        none_running(s),
    ensures
        s.executed.len() == s.submitted,
        s.executed.no_duplicates(),
        forall|id: u64| id < s.submitted ==> s.executed.contains(id),
        forall|id: u64| #[trigger] s.executed.contains(id) ==> id < s.submitted,
{
    lemma_running_count_zero(s.phases);
    assert forall|id: u64| id < s.submitted implies s.executed.contains(id) by {
        assert(placed(s, id));
        if runs(s.phases, id) {
            let i = choose|i: int| 0 <= i < s.phases.len() && s.phases[i] == Phase::Running(id);
            assert(!is_running(s.phases[i]));
        }
    }
    assert forall|id: u64| #[trigger] s.executed.contains(id) implies id < s.submitted by {
        let k = choose|k: int| 0 <= k < s.executed.len() && s.executed[k] == id;
    }
}

/// Teardown never returns early: once every worker has terminated, the
/// queue has drained and every submitted job has executed exactly once.
pub proof fn lemma_terminated_all_executed(s: PoolState)
    requires
        s.inv(),
        terminated(s),
    ensures
        s.queue.len() == 0,
        s.executed.len() == s.submitted,
        s.executed.no_duplicates(),
        forall|id: u64| id < s.submitted ==> s.executed.contains(id),
{
    assert(none_running(s));
    lemma_quiescent_all_executed(s);
}

/// No deadlock after closure: while any worker has not terminated, some
/// transition is enabled — returned as a witness — so the machine can
/// always take a step.
pub proof fn lemma_progress(s: PoolState) -> (w: int)
    requires
        s.inv(),
        !s.open,
        !terminated(s),
    ensures
        finish_enabled(s, w) || claim_enabled(s, w) || retire_enabled(s, w),
{
    assert(exists|i: int| 0 <= i < s.phases.len() && s.phases[i] != Phase::Done) by {
        if forall|i: int| 0 <= i < s.phases.len() ==> #[trigger] s.phases[i] == Phase::Done {
            assert(terminated(s));
        }
    }
    let w0 = choose|i: int| 0 <= i < s.phases.len() && s.phases[i] != Phase::Done;
    match s.phases[w0] {
        Phase::Running(_) => {
            assert(finish_enabled(s, w0));
        },
        Phase::Idle => {
            if s.queue.len() > 0 {
                assert(claim_enabled(s, w0));
            } else {
                assert(retire_enabled(s, w0));
            }
        },
        Phase::Done => {
            assert(false);
        },
    }
    w0
}

/// Every enabled step of a closed pool lowers [`remaining_work`], so a
/// worker observes closure and terminates within a bounded number of
/// scheduling steps: no worker spins or blocks forever.
pub proof fn lemma_claim_lowers_work(s: PoolState, w: int)
    requires
        claim_enabled(s, w),
    ensures
        remaining_work(spec_claim(s, w)) < remaining_work(s),
{
    lemma_remaining_sum_update(s.phases, w, Phase::Running(s.queue[0]));
}

pub proof fn lemma_finish_lowers_work(s: PoolState, w: int)
    requires
        finish_enabled(s, w),
    ensures
        remaining_work(spec_finish(s, w)) < remaining_work(s),
{
    lemma_remaining_sum_update(s.phases, w, Phase::Idle);
}

pub proof fn lemma_retire_lowers_work(s: PoolState, w: int)
    requires
        retire_enabled(s, w),
    ensures
        remaining_work(spec_retire(s, w)) < remaining_work(s),
{
    lemma_remaining_sum_update(s.phases, w, Phase::Done);
}

/// Claims are not serialized behind execution: however long a job on
/// worker `r` runs, an idle worker `w` can claim the next queued job,
/// and the long job runs on undisturbed beside it.
pub proof fn lemma_claim_not_serialized(s: PoolState, r: int, w: int)
    requires
        s.inv(),
        0 <= r < s.phases.len(),
        is_running(s.phases[r]),
        0 <= w < s.phases.len(),
        s.phases[w] == Phase::Idle,
        s.queue.len() > 0,
    ensures
        claim_enabled(s, w),
        spec_claim(s, w).phases[r] == s.phases[r],
        is_running(spec_claim(s, w).phases[w]),
{
    assert(r != w);
}

// ---------------------------------------------------------------------
// The executable machine.
// ---------------------------------------------------------------------

/// The pool lifecycle machine in executable form: one method per
/// transition, each with the abstract transition as its contract. It
/// doubles as verified bookkeeping for a running pool: record each
/// event as it happens and the invariant holds of the recorded state.
pub struct PoolProtocol {
    phases: Vec<Phase>,
    queue: Vec<u64>,
    executed: Vec<u64>,
    submitted: u64,
    open: bool,
}

impl View for PoolProtocol {
    type V = PoolState;

    closed spec fn view(&self) -> PoolState {
        PoolState {
            phases: self.phases@,
            queue: self.queue@,
            executed: self.executed@,
            submitted: self.submitted,
            open: self.open,
        }
    }
}

impl PoolProtocol {
    /// A machine for a pool of `size` workers, all idle, nothing
    /// submitted, the producing end open. Size zero is a precondition
    /// violation, as it is for the pool itself.
    pub fn new(size: usize) -> (m: PoolProtocol)
        requires
            size >= 1,
        ensures
            m@ == initial_state(size as int),
            m@.inv(),
    {
        let mut phases: Vec<Phase> = Vec::new();
        let mut i: usize = 0;
        while i < size
            invariant
                i <= size,
                phases@.len() == i,
                forall|k: int| 0 <= k < i ==> #[trigger] phases@[k] == Phase::Idle,
            decreases size - i,
        {
            phases.push(Phase::Idle);
            i = i + 1;
        }
        let m = PoolProtocol {
            phases,
            queue: Vec::new(),
            executed: Vec::new(),
            submitted: 0,
            open: true,
        };
        proof {
            assert(m@ =~= initial_state(size as int));
            lemma_initial_inv(size as int);
        }
        m
    }

    /// Submission: the fresh id — the count of jobs submitted before it
    /// — enters the tail of the queue.
    pub fn submit(&mut self) -> (id: u64)
        requires
            old(self)@.inv(),
            submit_enabled(old(self)@),
        ensures
            final(self)@ == spec_submit(old(self)@),
            final(self)@.inv(),
            id == old(self)@.submitted,
    {
        let id = self.submitted;
        self.queue.push(id);
        self.submitted = self.submitted + 1;
        proof {
            assert(self@ =~= spec_submit(old(self)@));
            lemma_submit_preserves_inv(old(self)@);
        }
        id
    }

    /// Closing the producing end: allowed only while open — at most once
    /// — and the irrevocable first step of shutdown.
    pub fn close(&mut self)
        requires
            old(self)@.inv(),
            close_enabled(old(self)@),
        ensures
            final(self)@ == spec_close(old(self)@),
            final(self)@.inv(),
    {
        self.open = false;
        proof {
            assert(self@ =~= spec_close(old(self)@));
            lemma_close_preserves_inv(old(self)@);
        }
    }

    /// Worker `w` claims the job at the head of the queue: FIFO
    /// delivery, to exactly one worker.
    pub fn claim(&mut self, w: usize) -> (id: u64)
        requires
            old(self)@.inv(),
            claim_enabled(old(self)@, w as int),
        ensures
            final(self)@ == spec_claim(old(self)@, w as int),
            final(self)@.inv(),
            id == old(self)@.queue[0],
    {
        let id = self.queue.remove(0);
        self.phases[w] = Phase::Running(id);
        proof {
            assert(self@ =~= spec_claim(old(self)@, w as int));
            lemma_claim_preserves_inv(old(self)@, w as int);
        }
        id
    }

    /// Worker `w` runs its claimed job to completion and returns to
    /// claiming; the job's id joins the executed record.
    pub fn finish(&mut self, w: usize) -> (id: u64)
        requires
            old(self)@.inv(),
            finish_enabled(old(self)@, w as int),
        ensures
            final(self)@ == spec_finish(old(self)@, w as int),
            final(self)@.inv(),
            id == held_job(old(self)@.phases[w as int]),
    {
        let id = match self.phases[w] {
            Phase::Running(id) => id,
            _ => 0,
        };
        self.executed.push(id);
        self.phases[w] = Phase::Idle;
        proof {
            assert(self@ =~= spec_finish(old(self)@, w as int));
            lemma_finish_preserves_inv(old(self)@, w as int);
        }
        id
    }

    /// Worker `w`'s claim fails — closed queue, nothing pending, nothing
    /// more to come — and it terminates.
    pub fn retire(&mut self, w: usize)
        requires
            old(self)@.inv(),
            retire_enabled(old(self)@, w as int),
        ensures
            final(self)@ == spec_retire(old(self)@, w as int),
            final(self)@.inv(),
    {
        self.phases[w] = Phase::Done;
        proof {
            assert(self@ =~= spec_retire(old(self)@, w as int));
            lemma_retire_preserves_inv(old(self)@, w as int);
        }
    }

    /// Some worker that is mid-execution, if any.
    pub fn find_running(&self) -> (r: Option<usize>)
        ensures
            match r {
                Some(w) => finish_enabled(self@, w as int),
                None => none_running(self@),
            },
    {
        let n = self.phases.len();
        let mut i: usize = 0;
        while i < n
            invariant
                i <= n,
                n == self@.phases.len(),
                forall|k: int| 0 <= k < i ==> !is_running(#[trigger] self@.phases[k]),
            decreases n - i,
        {
            match self.phases[i] {
                Phase::Running(_) => {
                    return Some(i);
                },
                _ => {},
            }
            i = i + 1;
        }
        None
    }

    /// Some idle worker, if any.
    pub fn find_idle(&self) -> (r: Option<usize>)
        ensures
            match r {
                Some(w) => 0 <= w < self@.phases.len() && self@.phases[w as int] == Phase::Idle,
                None => forall|k: int|
                    0 <= k < self@.phases.len() ==> #[trigger] self@.phases[k] != Phase::Idle,
            },
    {
        let n = self.phases.len();
        let mut i: usize = 0;
        while i < n
            invariant
                i <= n,
                n == self@.phases.len(),
                forall|k: int| 0 <= k < i ==> #[trigger] self@.phases[k] != Phase::Idle,
            decreases n - i,
        {
            match self.phases[i] {
                Phase::Idle => {
                    return Some(i);
                },
                _ => {},
            }
            i = i + 1;
        }
        None
    }

    /// Teardown after closure, scheduled within this one call: steps the
    /// machine — finishing claimed jobs, draining the queue, retiring
    /// workers whose claims fail — until every worker has terminated.
    /// It cannot get stuck (every reachable non-terminated closed state
    /// has an enabled step) and cannot run forever (every step lowers
    /// [`remaining_work`]); on return, all jobs queued at closure have
    /// executed, each exactly once.
    pub fn drain(&mut self)
        requires
            old(self)@.inv(),
            !old(self)@.open,
        ensures
            final(self)@.inv(),
            terminated(final(self)@),
            final(self)@.submitted == old(self)@.submitted,
            final(self)@.queue.len() == 0,
            final(self)@.executed.len() == final(self)@.submitted,
            final(self)@.executed.no_duplicates(),
            forall|id: u64| id < old(self)@.submitted ==> final(self)@.executed.contains(id),
    {
        loop
            invariant
                self@.inv(),
                !self@.open,
                self@.submitted == old(self)@.submitted,
            decreases remaining_work(self@),
        {
            let ghost pre = self@;
            match self.find_running() {
                Some(w) => {
                    self.finish(w);
                    proof {
                        lemma_finish_lowers_work(pre, w as int);
                    }
                },
                None => {
                    match self.find_idle() {
                        Some(w) => {
                            if self.queue.len() > 0 {
                                self.claim(w);
                                proof {
                                    lemma_claim_lowers_work(pre, w as int);
                                }
                            } else {
                                self.retire(w);
                                proof {
                                    lemma_retire_lowers_work(pre, w as int);
                                }
                            }
                        },
                        None => {
                            proof {
                                assert(terminated(self@));
                                lemma_terminated_all_executed(self@);
                            }
                            return ;  // every worker has terminated
                        },
                    }
                },
            }
        }
    }

    /// Number of workers.
    pub fn size(&self) -> (n: usize)
        ensures
            n == self@.phases.len(),
    {
        self.phases.len()
    }

    /// Number of submitted, not yet claimed jobs.
    pub fn queued_count(&self) -> (n: usize)
        ensures
            n == self@.queue.len(),
    {
        self.queue.len()
    }

    /// Number of jobs submitted so far.
    pub fn submitted_count(&self) -> (n: u64)
        ensures
            n == self@.submitted,
    {
        self.submitted
    }

    /// Whether the producing end is still open.
    pub fn is_open(&self) -> (b: bool)
        ensures
            b == self@.open,
    {
        self.open
    }

    /// Phase of worker `w`.
    pub fn phase_of(&self, w: usize) -> (p: Phase)
        requires
            w < self@.phases.len(),
        ensures
            p == self@.phases[w as int],
    {
        self.phases[w]
    }

    /// Ids of the completed jobs, in order of completion.
    pub fn executed_ids(&self) -> (ids: &Vec<u64>)
        ensures
            ids@ == self@.executed,
    {
        &self.executed
    }

    /// Whether every worker has terminated.
    pub fn is_terminated(&self) -> (b: bool)
        ensures
            b == terminated(self@),
    {
        let n = self.phases.len();
        let mut i: usize = 0;
        while i < n
            invariant
                i <= n,
                n == self@.phases.len(),
                forall|k: int| 0 <= k < i ==> #[trigger] self@.phases[k] == Phase::Done,
            decreases n - i,
        {
            match self.phases[i] {
                Phase::Done => {},
                _ => {
                    return false;
                },
            }
            i = i + 1;
        }
        true
    }
}

/// Closure is irrevocable and final: once the producing end is closed
/// it can never be closed again, and no further job can be submitted.
pub proof fn lemma_close_is_final(s: PoolState)
    ensures
        !close_enabled(spec_close(s)),
        !submit_enabled(spec_close(s)),
{
}

/// FIFO delivery: a claim always takes the oldest pending job — the one
/// submitted before every other job still in the queue.
pub proof fn lemma_fifo_delivery(s: PoolState, w: int)
    requires
        s.inv(),
        claim_enabled(s, w),
    ensures
        forall|k: int| 0 <= k < s.queue.len() ==> s.queue[0] <= #[trigger] s.queue[k],
{
}

// ---------------------------------------------------------------------
// Traces: the guarantees hold under every interleaving.
// ---------------------------------------------------------------------

/// One enabled transition, taken by whichever thread got the step.
pub open spec fn steps_to(s: PoolState, t: PoolState) -> bool {
    ||| (submit_enabled(s) && t == spec_submit(s))
    ||| (close_enabled(s) && t == spec_close(s))
    ||| (exists|w: int| #[trigger] claim_enabled(s, w) && t == spec_claim(s, w))
    ||| (exists|w: int| #[trigger] finish_enabled(s, w) && t == spec_finish(s, w))
    ||| (exists|w: int| #[trigger] retire_enabled(s, w) && t == spec_retire(s, w))
}

/// An execution of a pool of the given size: it starts at the initial
/// state, and each state steps to the next. Which transition happens
/// when is left entirely open — a trace stands for one arbitrary
/// interleaving of submissions, claims, completions and shutdown.
pub open spec fn is_trace(tr: Seq<PoolState>, size: int) -> bool {
    &&& tr.len() > 0
    &&& tr[0] == initial_state(size)
    &&& forall|i: int| 0 <= i < tr.len() - 1 ==> steps_to(#[trigger] tr[i], tr[i + 1])
}

/// Any single step preserves the invariant.
pub proof fn lemma_step_preserves_inv(s: PoolState, t: PoolState)
    requires
        s.inv(),
        steps_to(s, t),
    ensures
        t.inv(),
{
    if submit_enabled(s) && t == spec_submit(s) {
        lemma_submit_preserves_inv(s);
    } else if close_enabled(s) && t == spec_close(s) {
        lemma_close_preserves_inv(s);
    } else if exists|w: int| #[trigger] claim_enabled(s, w) && t == spec_claim(s, w) {
        let w = choose|w: int| #[trigger] claim_enabled(s, w) && t == spec_claim(s, w);
        lemma_claim_preserves_inv(s, w);
    } else if exists|w: int| #[trigger] finish_enabled(s, w) && t == spec_finish(s, w) {
        let w = choose|w: int| #[trigger] finish_enabled(s, w) && t == spec_finish(s, w);
        lemma_finish_preserves_inv(s, w);
    } else {
        let w = choose|w: int| #[trigger] retire_enabled(s, w) && t == spec_retire(s, w);
        lemma_retire_preserves_inv(s, w);
    }
}

/// Every state of every trace satisfies the invariant.
pub proof fn lemma_trace_inv(tr: Seq<PoolState>, size: int, i: int)
    requires
        size >= 1,
        is_trace(tr, size),
        0 <= i < tr.len(),
    ensures
        tr[i].inv(),
    decreases i,
{
    if i == 0 {
        lemma_initial_inv(size);
    } else {
        lemma_trace_inv(tr, size, i - 1);
        lemma_step_preserves_inv(tr[i - 1], tr[i]);
    }
}

/// For every pool size and every interleaving: whenever nothing is
/// queued and no worker is mid-job, every job submitted so far has
/// executed — each exactly once, none lost, none duplicated. With `K`
/// submissions in the trace, that is exactly `K` executions.
pub proof fn lemma_trace_executes_all(tr: Seq<PoolState>, size: int, i: int)
    requires
        size >= 1,
        is_trace(tr, size),
        0 <= i < tr.len(),
        tr[i].queue.len() == 0,
        none_running(tr[i]),
    ensures
        tr[i].executed.len() == tr[i].submitted,
        tr[i].executed.no_duplicates(),
        forall|id: u64| id < tr[i].submitted ==> tr[i].executed.contains(id),
{
    lemma_trace_inv(tr, size, i);
    lemma_quiescent_all_executed(tr[i]);
}

/// Closure is permanent along a trace: no step reopens the queue.
pub proof fn lemma_closed_stays_closed(tr: Seq<PoolState>, size: int, i: int, j: int)
    requires
        is_trace(tr, size),
        0 <= i <= j < tr.len(),
        !tr[i].open,
    ensures
        !tr[j].open,
    decreases j - i,
{
    if i < j {
        assert(steps_to(tr[i], tr[i + 1]));
        lemma_closed_stays_closed(tr, size, i + 1, j);
    }
}

/// Shutdown takes bounded time: once the producing end is closed at
/// step `i`, the machine can take at most [`remaining_work`] further
/// steps — claims, completions, retirements — so every worker observes
/// closure and terminates within a bounded number of scheduling steps.
pub proof fn lemma_shutdown_is_bounded(tr: Seq<PoolState>, size: int, i: int, j: int)
    requires
        is_trace(tr, size),
        0 <= i <= j < tr.len(),
        !tr[i].open,
    ensures
        remaining_work(tr[j]) + (j - i) <= remaining_work(tr[i]),
        j - i <= remaining_work(tr[i]),
    decreases j - i,
{
    if i < j {
        assert(steps_to(tr[i], tr[i + 1]));
        assert(remaining_work(tr[i + 1]) < remaining_work(tr[i])) by {
            let s = tr[i];
            let t = tr[i + 1];
            if exists|w: int| #[trigger] claim_enabled(s, w) && t == spec_claim(s, w) {
                let w = choose|w: int| #[trigger] claim_enabled(s, w) && t == spec_claim(s, w);
                lemma_claim_lowers_work(s, w);
            } else if exists|w: int| #[trigger] finish_enabled(s, w) && t == spec_finish(s, w) {
                let w = choose|w: int| #[trigger] finish_enabled(s, w) && t == spec_finish(s, w);
                lemma_finish_lowers_work(s, w);
            } else {
                let w = choose|w: int| #[trigger] retire_enabled(s, w) && t == spec_retire(s, w);
                lemma_retire_lowers_work(s, w);
            }
        }
        lemma_shutdown_is_bounded(tr, size, i + 1, j);
    }
}

} // verus!

