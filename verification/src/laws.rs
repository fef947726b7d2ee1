//! The global guarantees of the pool, stated over its abstract states.
//!
//! A run is any interleaving of transitions from a freshly constructed
//! pool: submissions, receive, disconnect and finish steps of arbitrary
//! workers in arbitrary order, and the retirement of the producing end.
//! The laws here hold of every run, not just of the schedule that
//! `shutdown` happens to follow: every state of a run is healthy, a run
//! that ends with all workers exited has completed exactly the submitted
//! jobs once each, and a pool of capacity at least two can have two
//! distinct workers executing jobs at the same time.

use vstd::multiset::Multiset;
use vstd::prelude::*;

use crate::pool::{
    lemma_disconnect_preserves, lemma_finish_preserves, lemma_in_flight_empty, lemma_init_wf,
    lemma_receive_preserves, lemma_retire_preserves_wf, lemma_submit_preserves_wf, PoolView,
};

verus! {

broadcast use vstd::seq_lib::group_to_multiset_ensures, vstd::multiset::group_multiset_axioms;

/// One atomic transition of the pool: a submission while the producing end
/// is open, the retirement of the producing end, or one worker's receive,
/// disconnect or finish step.
pub open spec fn step(pre: PoolView, post: PoolView) -> bool {
    ||| (exists|job: u64| pre.sender_open && post == #[trigger] pre.submit_post(job))
    ||| post == pre.retire_post()
    ||| (exists|wid: int| pre.can_receive(wid) && post == #[trigger] pre.receive_post(wid))
    ||| (exists|wid: int| pre.can_disconnect(wid) && post == #[trigger] pre.disconnect_post(wid))
    ||| (exists|wid: int| pre.can_finish(wid) && post == #[trigger] pre.finish_post(wid))
}

/// A run of the pool: it starts freshly constructed with the given capacity
/// and every state steps to the next.
pub open spec fn is_run(states: Seq<PoolView>, capacity: nat) -> bool {
    &&& states.len() > 0
    &&& states[0] == PoolView::init(capacity)
    &&& forall|i: int| 0 <= i < states.len() - 1 ==> #[trigger] step(states[i], states[i + 1])
}

/// Two distinct workers are executing jobs at the same time.
pub open spec fn two_executing(v: PoolView) -> bool {
    exists|a: int, b: int|
        0 <= a < b < v.workers.len() && (#[trigger] v.workers[a]).phase is Executing && (
        #[trigger] v.workers[b]).phase is Executing
}

/// Every transition keeps the pool healthy.
pub proof fn lemma_step_preserves_wf(pre: PoolView, post: PoolView)
    requires
        pre.wf(),
        step(pre, post),
    ensures
        post.wf(),
{
    if exists|job: u64| pre.sender_open && post == #[trigger] pre.submit_post(job) {
        let job = choose|job: u64| pre.sender_open && post == #[trigger] pre.submit_post(job);
        lemma_submit_preserves_wf(pre, job);
    } else if post == pre.retire_post() {
        lemma_retire_preserves_wf(pre);
    } else if exists|wid: int| pre.can_receive(wid) && post == #[trigger] pre.receive_post(wid) {
        let wid = choose|wid: int| pre.can_receive(wid) && post == #[trigger] pre.receive_post(
            wid,
        );
        lemma_receive_preserves(pre, wid);
    } else if exists|wid: int|
        pre.can_disconnect(wid) && post == #[trigger] pre.disconnect_post(wid) {
        let wid = choose|wid: int|
            pre.can_disconnect(wid) && post == #[trigger] pre.disconnect_post(wid);
        lemma_disconnect_preserves(pre, wid);
    } else {
        let wid = choose|wid: int| pre.can_finish(wid) && post == #[trigger] pre.finish_post(wid);
        lemma_finish_preserves(pre, wid);
    }
}

/// The global invariant: every state of every run is healthy.
pub proof fn lemma_run_wf(states: Seq<PoolView>, capacity: nat, i: int)
    requires
        0 < capacity <= usize::MAX,
        is_run(states, capacity),
        0 <= i < states.len(),
    ensures
        states[i].wf(),
    decreases i,
{
    if i == 0 {
        lemma_init_wf(capacity);
    } else {
        lemma_run_wf(states, capacity, i - 1);
        assert(step(states[i - 1], states[i - 1 + 1]));
        assert(states[i - 1 + 1] == states[i]);
        lemma_step_preserves_wf(states[i - 1], states[i]);
    }
}

/// Construction yields exactly `capacity` waiting workers with unique,
/// sequential identifiers `0..capacity`.
pub proof fn lemma_init_workers(capacity: nat)
    requires
        capacity <= usize::MAX,
    ensures
        PoolView::init(capacity).workers.len() == capacity,
        forall|i: int|
            0 <= i < capacity ==> (#[trigger] PoolView::init(capacity).workers[i]).id == i,
        forall|i: int, j: int|
            0 <= i < j < capacity ==> PoolView::init(capacity).workers[i].id != PoolView::init(
                capacity,
            ).workers[j].id,
        forall|i: int|
            0 <= i < capacity ==> (#[trigger] PoolView::init(capacity).workers[i]).phase
                is Waiting,
{
}

/// No job is lost and none runs twice: in any healthy state where every
/// worker has exited, the completion log holds exactly the multiset of
/// submitted jobs.
pub proof fn lemma_teardown_completes_all(v: PoolView)
    requires
        v.wf(),
        v.all_exited(),
    ensures
        v.completed.to_multiset() == v.submitted.to_multiset(),
{
    lemma_in_flight_empty(v.workers);
    assert(v.outstanding() =~= Multiset::<u64>::empty());
    assert(v.completed.to_multiset().add(v.outstanding()) =~= v.completed.to_multiset());
}

/// The same, for whole runs: however the workers and submitters interleave,
/// a run that ends with every worker exited has completed exactly the jobs
/// that were submitted, once each.
pub proof fn lemma_run_teardown_completes_all(states: Seq<PoolView>, capacity: nat)
    requires
        0 < capacity <= usize::MAX,
        is_run(states, capacity),
        states.last().all_exited(),
    ensures
        states.last().completed.to_multiset() == states.last().submitted.to_multiset(),
{
    lemma_run_wf(states, capacity, states.len() - 1);
    lemma_teardown_completes_all(states.last());
}

/// A job submitted before teardown began runs to completion by the time
/// teardown is done: after all workers have exited, every submitted job
/// appears in the completion log, exactly as often as it was submitted.
pub proof fn lemma_submitted_job_completes(v: PoolView, job: u64)
    requires
        v.wf(),
        v.all_exited(),
        v.submitted.contains(job),
    ensures
        v.completed.contains(job),
        v.completed.to_multiset().count(job) == v.submitted.to_multiset().count(job),
{
    lemma_teardown_completes_all(v);
    assert(v.submitted.to_multiset().count(job) > 0);
    assert(v.completed.to_multiset().count(job) > 0);
}

/// An idle pool has nothing outstanding: teardown with an empty queue and
/// every worker waiting adds nothing to the completion log.
pub proof fn lemma_idle_pool_nothing_outstanding(v: PoolView)
    requires
        v.pending.len() == 0,
        forall|i: int| 0 <= i < v.workers.len() ==> (#[trigger] v.workers[i]).phase is Waiting,
    ensures
        v.outstanding() == Multiset::<u64>::empty(),
{
    lemma_in_flight_empty(v.workers);
    assert(v.outstanding() =~= Multiset::<u64>::empty());
}

/// Parallelism, not mere interleaving: with capacity at least two, the pool
/// can reach a state in which two distinct workers are each executing a job
/// at the same time.
pub proof fn lemma_two_jobs_run_in_parallel(capacity: nat)
    requires
        2 <= capacity <= usize::MAX,
    ensures
        exists|states: Seq<PoolView>| is_run(states, capacity) && two_executing(states.last()),
{
    let s0 = PoolView::init(capacity);
    let s1 = s0.submit_post(0);
    let s2 = s1.submit_post(1);
    let s3 = s2.receive_post(0);
    let s4 = s3.receive_post(1);
    let states = seq![s0, s1, s2, s3, s4];
    assert(s2.can_receive(0)) by {
        assert(s2.workers[0].phase is Waiting);
        assert(s2.pending.len() == 2);
    }
    assert(s3.can_receive(1)) by {
        assert(s3.workers[1] == s2.workers[1]);
        assert(s3.workers[1].phase is Waiting);
        assert(s3.pending.len() == 1);
    }
    assert(step(s0, s1)) by {
        assert(s0.sender_open && s1 == s0.submit_post(0));
    }
    assert(step(s1, s2)) by {
        assert(s1.sender_open && s2 == s1.submit_post(1));
    }
    assert(step(s2, s3)) by {
        assert(s2.can_receive(0) && s3 == s2.receive_post(0));
    }
    assert(step(s3, s4)) by {
        assert(s3.can_receive(1) && s4 == s3.receive_post(1));
    }
    assert(is_run(states, capacity)) by {
        assert(states[0] == s0);
        assert forall|i: int| 0 <= i < states.len() - 1 implies #[trigger] step(
            states[i],
            states[i + 1],
        ) by {
            if i == 0 {
                assert(states[0] == s0 && states[1] == s1);
            } else if i == 1 {
                assert(states[1] == s1 && states[2] == s2);
            } else if i == 2 {
                assert(states[2] == s2 && states[3] == s3);
            } else {
                assert(states[3] == s3 && states[4] == s4);
            }
        }
    }
    assert(two_executing(states.last())) by {
        assert(states.last() == s4);
        assert(s4.workers[0] == s3.workers[0]);
        assert(s4.workers[0].phase is Executing);
        assert(s4.workers[1].phase is Executing);
        assert(0 <= 0 < 1 < s4.workers.len() && s4.workers[0].phase is Executing
            && s4.workers[1].phase is Executing);
    }
    assert(is_run(states, capacity) && two_executing(states.last()));
}

} // verus!
