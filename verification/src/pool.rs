//! The pool itself: its state, its transitions, and their contracts.
//!
//! The pool is a state machine. A `ThreadPool` value holds the queue of
//! pending job identifiers, the fixed collection of workers, whether the
//! producing end of the queue is still open, and the log of completed jobs.
//! Each exec function below is one transition: construction, submission,
//! one worker's receive or finish step, retiring the producing end, and the
//! full shutdown protocol. Every transition's `ensures` pins the new state
//! down exactly, as a function of the old one.

use vstd::multiset::Multiset;
use vstd::prelude::*;

verus! {

broadcast use vstd::seq_lib::group_to_multiset_ensures, vstd::multiset::group_multiset_axioms;

/// Returned by the recoverable constructor when the requested capacity is
/// zero: a zero-capacity pool is rejected, never silently coerced.
#[derive(Debug, Clone)]
pub struct PoolCreationError;

/// Returned by a checked submission that found the producing end of the
/// queue already retired: the pool is shutting down and accepts no more
/// work.
#[derive(Debug, Clone)]
pub struct ChannelClosedError;

/// The phase of one worker's execution loop: blocked on the queue, running
/// the job it took, or exited after the disconnection signal.
#[derive(Clone, Copy, Debug, PartialEq, Eq, Structural)]
pub enum WorkerPhase {
    Waiting,
    Executing(u64),
    Exited,
}

/// One worker of the pool: a stable identifier and the current phase of its
/// loop.
#[derive(Clone, Copy, Debug, PartialEq, Eq, Structural)]
pub struct Worker {
    pub id: usize,
    pub phase: WorkerPhase,
}

/// What one worker currently contributes to the jobs in flight: the job it
/// is executing, if any.
pub open spec fn worker_jobs(w: Worker) -> Multiset<u64> {
    match w.phase {
        WorkerPhase::Executing(j) => Multiset::empty().insert(j),
        _ => Multiset::empty(),
    }
}

/// All jobs currently being executed by some worker, as a multiset.
pub open spec fn in_flight_jobs(workers: Seq<Worker>) -> Multiset<u64>
    decreases workers.len(),
{
    if workers.len() == 0 {
        Multiset::empty()
    } else {
        in_flight_jobs(workers.drop_last()).add(worker_jobs(workers.last()))
    }
}

/// The abstract state of a pool: the workers in construction order, the
/// queue of pending jobs (front first), whether the producing end is still
/// open, and the histories of submitted and completed jobs.
#[verifier::ext_equal]
pub struct PoolView {
    pub workers: Seq<Worker>,
    pub pending: Seq<u64>,
    pub sender_open: bool,
    pub submitted: Seq<u64>,
    pub completed: Seq<u64>,
}

impl PoolView {
    /// The fixed number of workers.
    pub open spec fn capacity(self) -> nat {
        self.workers.len()
    }

    /// Worker identifiers are their construction positions: stable, unique,
    /// and sequential from zero.
    pub open spec fn ids_sequential(self) -> bool {
        forall|i: int| 0 <= i < self.workers.len() ==> (#[trigger] self.workers[i]).id == i
    }

    /// Every worker's loop has exited.
    pub open spec fn all_exited(self) -> bool {
        forall|i: int|
            0 <= i < self.workers.len() ==> (#[trigger] self.workers[i]).phase is Exited
    }

    /// Some worker's loop has exited.
    pub open spec fn some_exited(self) -> bool {
        exists|i: int|
            0 <= i < self.workers.len() && (#[trigger] self.workers[i]).phase is Exited
    }

    /// The jobs currently being executed by the workers.
    pub open spec fn in_flight(self) -> Multiset<u64> {
        in_flight_jobs(self.workers)
    }

    /// The jobs accepted but not yet completed: queued or in flight.
    pub open spec fn outstanding(self) -> Multiset<u64> {
        self.pending.to_multiset().add(self.in_flight())
    }

    /// Conservation of jobs: everything ever submitted is completed, queued,
    /// or in flight — nothing is lost and nothing is duplicated.
    pub open spec fn conserved(self) -> bool {
        self.submitted.to_multiset() == self.completed.to_multiset().add(self.outstanding())
    }

    /// The healthy states of a pool. Constructors establish this and every
    /// transition preserves it: the capacity is positive, identifiers are
    /// sequential, a worker exits only once the producing end is gone, the
    /// last exit happens only on an empty queue, and jobs are conserved.
    pub open spec fn wf(self) -> bool {
        &&& self.workers.len() > 0
        &&& self.ids_sequential()
        &&& (self.some_exited() ==> !self.sender_open)
        &&& (self.all_exited() ==> self.pending.len() == 0)
        &&& self.conserved()
    }

    /// The worker at `wid` can take a job: it is blocked on the queue and a
    /// job is pending.
    pub open spec fn can_receive(self, wid: int) -> bool {
        &&& 0 <= wid < self.workers.len()
        &&& self.workers[wid].phase is Waiting
        &&& self.pending.len() > 0
    }

    /// The worker at `wid` receives the disconnection signal: it is blocked
    /// on the queue, no job is pending, and the producing end is gone.
    pub open spec fn can_disconnect(self, wid: int) -> bool {
        &&& 0 <= wid < self.workers.len()
        &&& self.workers[wid].phase is Waiting
        &&& self.pending.len() == 0
        &&& !self.sender_open
    }

    /// The worker at `wid` can finish: it is executing a job.
    pub open spec fn can_finish(self, wid: int) -> bool {
        &&& 0 <= wid < self.workers.len()
        &&& self.workers[wid].phase is Executing
    }

    /// The state after accepting one job: it joins the back of the queue and
    /// the submission history; nothing else moves.
    pub open spec fn submit_post(self, job: u64) -> PoolView {
        PoolView {
            workers: self.workers,
            pending: self.pending.push(job),
            sender_open: self.sender_open,
            submitted: self.submitted.push(job),
            completed: self.completed,
        }
    }

    /// The state after the producing end of the queue is retired: the first
    /// step of the shutdown protocol.
    pub open spec fn retire_post(self) -> PoolView {
        PoolView {
            workers: self.workers,
            pending: self.pending,
            sender_open: false,
            submitted: self.submitted,
            completed: self.completed,
        }
    }

    /// The state after the worker at `wid` takes the job at the front of the
    /// queue and starts executing it.
    pub open spec fn receive_post(self, wid: int) -> PoolView
        recommends
            self.can_receive(wid),
    {
        PoolView {
            workers: self.workers.update(
                wid,
                Worker { id: self.workers[wid].id, phase: WorkerPhase::Executing(self.pending[0]) },
            ),
            pending: self.pending.remove(0),
            sender_open: self.sender_open,
            submitted: self.submitted,
            completed: self.completed,
        }
    }

    /// The state after the worker at `wid` observes the disconnection signal
    /// and exits its loop.
    pub open spec fn disconnect_post(self, wid: int) -> PoolView
        recommends
            self.can_disconnect(wid),
    {
        PoolView {
            workers: self.workers.update(
                wid,
                Worker { id: self.workers[wid].id, phase: WorkerPhase::Exited },
            ),
            pending: self.pending,
            sender_open: self.sender_open,
            submitted: self.submitted,
            completed: self.completed,
        }
    }

    /// The state after the worker at `wid` runs its job to completion: the
    /// job joins the completion log and the worker returns to the queue.
    pub open spec fn finish_post(self, wid: int) -> PoolView
        recommends
            self.can_finish(wid),
    {
        PoolView {
            workers: self.workers.update(
                wid,
                Worker { id: self.workers[wid].id, phase: WorkerPhase::Waiting },
            ),
            pending: self.pending,
            sender_open: self.sender_open,
            submitted: self.submitted,
            completed: self.completed.push(self.workers[wid].phase->0),
        }
    }

    /// The state of a freshly constructed pool: `capacity` waiting workers
    /// with identifiers `0..capacity`, an empty open queue, and empty
    /// histories.
    pub open spec fn init(capacity: nat) -> PoolView {
        PoolView {
            workers: Seq::new(capacity, |i: int| Worker { id: i as usize, phase: WorkerPhase::Waiting }),
            pending: Seq::empty(),
            sender_open: true,
            submitted: Seq::empty(),
            completed: Seq::empty(),
        }
    }
}

/// If no worker is executing, no job is in flight.
pub proof fn lemma_in_flight_empty(workers: Seq<Worker>)
    requires
        forall|i: int| 0 <= i < workers.len() ==> !((#[trigger] workers[i]).phase is Executing),
    ensures
        in_flight_jobs(workers) == Multiset::<u64>::empty(),
    decreases workers.len(),
{
    if workers.len() > 0 {
        lemma_in_flight_empty(workers.drop_last());
        assert(worker_jobs(workers.last()) == Multiset::<u64>::empty());
        assert(in_flight_jobs(workers) =~= Multiset::<u64>::empty());
    }
}

/// Replacing the worker at position `i` exchanges exactly that worker's
/// contribution to the jobs in flight.
pub proof fn lemma_in_flight_update(workers: Seq<Worker>, i: int, w: Worker)
    requires
        0 <= i < workers.len(),
    ensures
        in_flight_jobs(workers.update(i, w)).add(worker_jobs(workers[i]))
            == in_flight_jobs(workers).add(worker_jobs(w)),
    decreases workers.len(),
{
    let updated = workers.update(i, w);
    if i == workers.len() - 1 {
        assert(updated.drop_last() =~= workers.drop_last());
        assert(updated.last() == w);
        assert(in_flight_jobs(updated).add(worker_jobs(workers[i]))
            =~= in_flight_jobs(workers).add(worker_jobs(w)));
    } else {
        assert(updated.drop_last() =~= workers.drop_last().update(i, w));
        assert(updated.last() == workers.last());
        assert(workers.drop_last()[i] == workers[i]);
        lemma_in_flight_update(workers.drop_last(), i, w);
        assert forall|x: u64|
            in_flight_jobs(updated).add(worker_jobs(workers[i])).count(x)
                == in_flight_jobs(workers).add(worker_jobs(w)).count(x) by {
            assert(in_flight_jobs(workers.drop_last().update(i, w)).add(
                worker_jobs(workers[i]),
            ).count(x) == in_flight_jobs(workers.drop_last()).add(worker_jobs(w)).count(x));
        }
        assert(in_flight_jobs(updated).add(worker_jobs(workers[i]))
            =~= in_flight_jobs(workers).add(worker_jobs(w)));
    }
}

/// A freshly constructed pool of positive capacity is healthy.
pub proof fn lemma_init_wf(capacity: nat)
    requires
        0 < capacity <= usize::MAX,
    ensures
        PoolView::init(capacity).wf(),
{
    let v = PoolView::init(capacity);
    lemma_in_flight_empty(v.workers);
    assert(v.conserved()) by {
        assert(v.submitted.to_multiset() =~= Multiset::<u64>::empty());
        assert(v.completed.to_multiset().add(v.outstanding()) =~= Multiset::<u64>::empty());
    }
    assert(v.workers[0].phase !is Exited);
}

/// Submitting a job while the producing end is open keeps the pool healthy.
pub proof fn lemma_submit_preserves_wf(v: PoolView, job: u64)
    requires
        v.sender_open,
        v.wf(),
    ensures
        v.submit_post(job).wf(),
{
    let p = v.submit_post(job);
    assert(!v.some_exited());
    assert(p.workers[0].phase !is Exited);
    assert(p.conserved()) by {
        assert(p.submitted.to_multiset() =~= p.completed.to_multiset().add(p.outstanding()));
    }
}

/// Retiring the producing end keeps the pool healthy.
pub proof fn lemma_retire_preserves_wf(v: PoolView)
    requires
        v.wf(),
    ensures
        v.retire_post().wf(),
{
    let p = v.retire_post();
    assert(p.conserved()) by {
        assert(p.submitted.to_multiset() =~= p.completed.to_multiset().add(p.outstanding()));
    }
}

/// A worker's receive step moves the front job from the queue into flight:
/// the total of completed and outstanding jobs is unchanged, and a healthy
/// pool stays healthy.
pub proof fn lemma_receive_preserves(v: PoolView, wid: int)
    requires
        v.can_receive(wid),
    ensures
        v.receive_post(wid).completed.to_multiset().add(v.receive_post(wid).outstanding())
            == v.completed.to_multiset().add(v.outstanding()),
        v.wf() ==> v.receive_post(wid).wf(),
{
    let p = v.receive_post(wid);
    let j = v.pending[0];
    let w = Worker { id: v.workers[wid].id, phase: WorkerPhase::Executing(j) };
    lemma_in_flight_update(v.workers, wid, w);
    assert(v.pending.to_multiset().count(j) > 0) by {
        assert(v.pending.contains(j));
    }
    assert(p.pending.to_multiset() == v.pending.to_multiset().remove(j)) by {
        assert(v.pending.remove(0).to_multiset() == v.pending.to_multiset().remove(v.pending[0]));
    }
    assert forall|x: u64|
        p.completed.to_multiset().add(p.outstanding()).count(x)
            == v.completed.to_multiset().add(v.outstanding()).count(x) by {
        assert(in_flight_jobs(v.workers.update(wid, w)).add(worker_jobs(v.workers[wid])).count(x)
            == in_flight_jobs(v.workers).add(worker_jobs(w)).count(x));
    }
    assert(p.completed.to_multiset().add(p.outstanding())
        =~= v.completed.to_multiset().add(v.outstanding()));
    if v.wf() {
        assert(p.workers[wid].phase !is Exited);
        assert forall|k: int|
            0 <= k < p.workers.len() && (#[trigger] p.workers[k]).phase is Exited implies
            !p.sender_open by {
            assert(v.workers[k].phase is Exited);
        }
        assert(p.conserved()) by {
            assert(p.submitted.to_multiset() =~= p.completed.to_multiset().add(p.outstanding()));
        }
    }
}

/// A worker's disconnection step only marks that worker exited: the total of
/// completed and outstanding jobs is unchanged, and a healthy pool stays
/// healthy.
pub proof fn lemma_disconnect_preserves(v: PoolView, wid: int)
    requires
        v.can_disconnect(wid),
    ensures
        v.disconnect_post(wid).completed.to_multiset().add(v.disconnect_post(wid).outstanding())
            == v.completed.to_multiset().add(v.outstanding()),
        v.wf() ==> v.disconnect_post(wid).wf(),
{
    let p = v.disconnect_post(wid);
    let w = Worker { id: v.workers[wid].id, phase: WorkerPhase::Exited };
    lemma_in_flight_update(v.workers, wid, w);
    assert forall|x: u64|
        p.completed.to_multiset().add(p.outstanding()).count(x)
            == v.completed.to_multiset().add(v.outstanding()).count(x) by {
        assert(in_flight_jobs(v.workers.update(wid, w)).add(worker_jobs(v.workers[wid])).count(x)
            == in_flight_jobs(v.workers).add(worker_jobs(w)).count(x));
    }
    assert(p.completed.to_multiset().add(p.outstanding())
        =~= v.completed.to_multiset().add(v.outstanding()));
    if v.wf() {
        assert(p.conserved()) by {
            assert(p.submitted.to_multiset() =~= p.completed.to_multiset().add(p.outstanding()));
        }
    }
}

/// A worker finishing its job moves that job from flight into the
/// completion log: the total of completed and outstanding jobs is unchanged,
/// and a healthy pool stays healthy.
pub proof fn lemma_finish_preserves(v: PoolView, wid: int)
    requires
        v.can_finish(wid),
    ensures
        v.finish_post(wid).completed.to_multiset().add(v.finish_post(wid).outstanding())
            == v.completed.to_multiset().add(v.outstanding()),
        v.wf() ==> v.finish_post(wid).wf(),
{
    let p = v.finish_post(wid);
    let j = v.workers[wid].phase->0;
    let w = Worker { id: v.workers[wid].id, phase: WorkerPhase::Waiting };
    lemma_in_flight_update(v.workers, wid, w);
    assert(p.completed.to_multiset() == v.completed.to_multiset().insert(j)) by {
        assert(v.completed.push(j).to_multiset() == v.completed.to_multiset().insert(j));
    }
    assert forall|x: u64|
        p.completed.to_multiset().add(p.outstanding()).count(x)
            == v.completed.to_multiset().add(v.outstanding()).count(x) by {
        assert(in_flight_jobs(v.workers.update(wid, w)).add(worker_jobs(v.workers[wid])).count(x)
            == in_flight_jobs(v.workers).add(worker_jobs(w)).count(x));
    }
    assert(p.completed.to_multiset().add(p.outstanding())
        =~= v.completed.to_multiset().add(v.outstanding()));
    if v.wf() {
        assert(p.workers[wid].phase !is Exited);
        assert forall|k: int|
            0 <= k < p.workers.len() && (#[trigger] p.workers[k]).phase is Exited implies
            !p.sender_open by {
            assert(v.workers[k].phase is Exited);
        }
        assert(p.conserved()) by {
            assert(p.submitted.to_multiset() =~= p.completed.to_multiset().add(p.outstanding()));
        }
    }
}

/// The concrete pool: the workers in construction order, the queue of
/// pending job identifiers, whether the producing end is still open, the
/// log of completed jobs, and the ghost history of submitted jobs.
pub struct ThreadPool {
    workers: Vec<Worker>,
    pending: Vec<u64>,
    sender_open: bool,
    completed: Vec<u64>,
    submitted: Ghost<Seq<u64>>,
}

impl View for ThreadPool {
    type V = PoolView;

    closed spec fn view(&self) -> PoolView {
        PoolView {
            workers: self.workers@,
            pending: self.pending@,
            sender_open: self.sender_open,
            submitted: self.submitted@,
            completed: self.completed@,
        }
    }
}

impl ThreadPool {
    /// The fatal constructor: the caller guarantees a positive capacity, and
    /// a zero capacity is a contract violation rather than a recoverable
    /// error. On success the pool holds exactly `capacity` waiting workers
    /// with unique sequential identifiers `0..capacity`, an empty open
    /// queue, and empty histories.
    pub fn new(capacity: usize) -> (pool: ThreadPool)
        requires
            capacity > 0,
        ensures
            pool@ == PoolView::init(capacity as nat),
            pool@.wf(),
    {
        let mut workers: Vec<Worker> = Vec::new();
        let mut id: usize = 0;
        while id < capacity
            invariant
                id <= capacity,
                workers@.len() == id,
                forall|i: int|
                    0 <= i < id ==> #[trigger] workers@[i]
                        == (Worker { id: i as usize, phase: WorkerPhase::Waiting }),
            decreases capacity - id,
        {
            workers.push(Worker { id, phase: WorkerPhase::Waiting });
            id += 1;
        }
        let pool = ThreadPool {
            workers,
            pending: Vec::new(),
            sender_open: true,
            completed: Vec::new(),
            submitted: Ghost(Seq::empty()),
        };
        proof {
            assert(pool@.workers =~= PoolView::init(capacity as nat).workers);
            assert(pool@ =~= PoolView::init(capacity as nat));
            lemma_init_wf(capacity as nat);
        }
        pool
    }

    /// The recoverable constructor: succeeds exactly on positive capacities,
    /// yielding the same freshly constructed state as `new`; a zero capacity
    /// yields the configuration error and constructs no workers.
    pub fn build(capacity: usize) -> (r: Result<ThreadPool, PoolCreationError>)
        ensures
            r matches Ok(pool) <==> capacity > 0,
            r matches Ok(pool) ==> pool@ == PoolView::init(capacity as nat) && pool@.wf(),
    {
        if capacity > 0 {
            Ok(ThreadPool::new(capacity))
        } else {
            Err(PoolCreationError)
        }
    }

    /// Submits one job: it joins the back of the queue and will be taken by
    /// exactly one worker. The caller guarantees that shutdown has not
    /// begun; submitting after the producing end is retired is a contract
    /// violation (a use-after-shutdown bug), not a recoverable condition.
    pub fn execute(&mut self, job: u64)
        requires
            old(self)@.sender_open,
        ensures
            final(self)@ == old(self)@.submit_post(job),
            old(self)@.wf() ==> final(self)@.wf(),
    {
        self.pending.push(job);
        proof {
            self.submitted@ = self.submitted@.push(job);
            assert(self@ =~= old(self)@.submit_post(job));
            if old(self)@.wf() {
                lemma_submit_preserves_wf(old(self)@, job);
            }
        }
    }

    /// The checked form of `execute`: accepts the job exactly when the
    /// producing end is still open, and otherwise reports the hard failure
    /// as a value and leaves the pool unchanged.
    pub fn try_execute(&mut self, job: u64) -> (r: Result<(), ChannelClosedError>)
        ensures
            r is Ok <==> old(self)@.sender_open,
            old(self)@.sender_open ==> final(self)@ == old(self)@.submit_post(job),
            !old(self)@.sender_open ==> final(self)@ == old(self)@,
            old(self)@.wf() ==> final(self)@.wf(),
    {
        if self.sender_open {
            self.execute(job);
            Ok(())
        } else {
            Err(ChannelClosedError)
        }
    }

    /// Retires the producing end of the queue: the signal step of the
    /// shutdown protocol. Once retired, workers that find the queue empty
    /// are disconnected rather than kept waiting, and no further submission
    /// is accepted.
    pub fn retire_sender(&mut self)
        ensures
            final(self)@ == old(self)@.retire_post(),
            old(self)@.wf() ==> final(self)@.wf(),
    {
        self.sender_open = false;
        proof {
            assert(self@ =~= old(self)@.retire_post());
            if old(self)@.wf() {
                lemma_retire_preserves_wf(old(self)@);
            }
        }
    }

    /// One receive step of the worker at `wid`, which must be blocked on the
    /// queue. The step only happens once the receive call returns: either a
    /// job is pending (the worker takes the front one and starts executing
    /// it), or the producing end is gone (the worker is disconnected and
    /// exits its loop). A worker waiting on an open, empty queue stays
    /// blocked and takes no step.
    pub fn worker_receive(&mut self, wid: usize) -> (r: RecvOutcome)
        requires
            wid < old(self)@.workers.len(),
            old(self)@.workers[wid as int].phase is Waiting,
            old(self)@.pending.len() > 0 || !old(self)@.sender_open,
        ensures
            old(self)@.pending.len() > 0 ==> r == RecvOutcome::Job(old(self)@.pending[0])
                && final(self)@ == old(self)@.receive_post(wid as int),
            old(self)@.pending.len() == 0 ==> r == RecvOutcome::Disconnected
                && final(self)@ == old(self)@.disconnect_post(wid as int),
            old(self)@.wf() ==> final(self)@.wf(),
    {
        if self.pending.len() > 0 {
            let job = self.pending.remove(0);
            let id = self.workers[wid].id;
            self.workers[wid] = Worker { id, phase: WorkerPhase::Executing(job) };
            proof {
                assert(self@ =~= old(self)@.receive_post(wid as int));
                lemma_receive_preserves(old(self)@, wid as int);
            }
            RecvOutcome::Job(job)
        } else {
            let id = self.workers[wid].id;
            self.workers[wid] = Worker { id, phase: WorkerPhase::Exited };
            proof {
                assert(self@ =~= old(self)@.disconnect_post(wid as int));
                lemma_disconnect_preserves(old(self)@, wid as int);
            }
            RecvOutcome::Disconnected
        }
    }

    /// One finish step of the worker at `wid`, which must be executing a
    /// job: the job runs to completion, joins the completion log, and the
    /// worker returns to the queue.
    pub fn worker_finish(&mut self, wid: usize)
        requires
            wid < old(self)@.workers.len(),
            old(self)@.workers[wid as int].phase is Executing,
        ensures
            final(self)@ == old(self)@.finish_post(wid as int),
            old(self)@.wf() ==> final(self)@.wf(),
    {
        let w = self.workers[wid];
        match w.phase {
            WorkerPhase::Executing(job) => {
                self.completed.push(job);
                self.workers[wid] = Worker { id: w.id, phase: WorkerPhase::Waiting };
                proof {
                    assert(self@ =~= old(self)@.finish_post(wid as int));
                    lemma_finish_preserves(old(self)@, wid as int);
                }
            },
            _ => {
                proof {
                    assert(false);
                }
            },
        }
    }
}

/// How far one worker's loop still has to run before it exits, used to show
/// that driving a worker terminates: an executing worker finishes first, a
/// waiting worker takes at most one more job per queue entry before the
/// disconnection signal reaches it.
pub open spec fn phase_rank(p: WorkerPhase) -> nat {
    match p {
        WorkerPhase::Waiting => 1,
        WorkerPhase::Executing(_) => 2,
        WorkerPhase::Exited => 0,
    }
}

impl ThreadPool {
    /// The shutdown protocol, bound to teardown: retire the producing end,
    /// then join the workers in construction order, each one draining the
    /// queue until the disconnection signal ends its loop. Afterwards every
    /// worker has exited (no thread is leaked), the queue is empty, and the
    /// completion log has grown by exactly the jobs that were queued or in
    /// flight — so it holds, once each, exactly the jobs ever submitted.
    pub fn shutdown(&mut self)
        requires
            old(self)@.wf(),
        ensures
            final(self)@.wf(),
            !final(self)@.sender_open,
            final(self)@.workers.len() == old(self)@.workers.len(),
            forall|k: int|
                0 <= k < old(self)@.workers.len() ==> (#[trigger] final(self)@.workers[k]).id
                    == old(self)@.workers[k].id,
            final(self)@.all_exited(),
            final(self)@.pending.len() == 0,
            final(self)@.submitted == old(self)@.submitted,
            final(self)@.completed.to_multiset() == old(self)@.completed.to_multiset().add(
                old(self)@.outstanding(),
            ),
            final(self)@.completed.to_multiset() == old(self)@.submitted.to_multiset(),
            final(self)@.completed.len() >= old(self)@.completed.len(),
            forall|k: int|
                0 <= k < old(self)@.completed.len() ==> #[trigger] final(self)@.completed[k]
                    == old(self)@.completed[k],
    {
        self.retire_sender();
        let n = self.workers.len();
        let mut i: usize = 0;
        while i < n
            invariant
                self@.wf(),
                n == self@.workers.len(),
                n == old(self)@.workers.len(),
                !self@.sender_open,
                i <= n,
                forall|k: int| 0 <= k < i ==> (#[trigger] self@.workers[k]).phase is Exited,
                forall|k: int|
                    0 <= k < n ==> (#[trigger] self@.workers[k]).id == old(self)@.workers[k].id,
                self@.submitted == old(self)@.submitted,
                self@.completed.to_multiset().add(self@.outstanding())
                    == old(self)@.completed.to_multiset().add(old(self)@.outstanding()),
                self@.completed.len() >= old(self)@.completed.len(),
                forall|k: int|
                    0 <= k < old(self)@.completed.len() ==> #[trigger] self@.completed[k]
                        == old(self)@.completed[k],
            decreases n - i,
        {
            loop
                invariant
                    self@.wf(),
                    n == self@.workers.len(),
                    n == old(self)@.workers.len(),
                    !self@.sender_open,
                    i < n,
                    forall|k: int| 0 <= k < i ==> (#[trigger] self@.workers[k]).phase is Exited,
                    forall|k: int|
                        0 <= k < n ==> (#[trigger] self@.workers[k]).id
                            == old(self)@.workers[k].id,
                    self@.submitted == old(self)@.submitted,
                    self@.completed.to_multiset().add(self@.outstanding())
                        == old(self)@.completed.to_multiset().add(old(self)@.outstanding()),
                    self@.completed.len() >= old(self)@.completed.len(),
                    forall|k: int|
                        0 <= k < old(self)@.completed.len() ==> #[trigger] self@.completed[k]
                            == old(self)@.completed[k],
                ensures
                    self@.workers[i as int].phase is Exited,
                decreases 2 * self@.pending.len() + phase_rank(self@.workers[i as int].phase),
            {
                let w = self.workers[i];
                match w.phase {
                    WorkerPhase::Exited => {
                        break;
                    },
                    WorkerPhase::Waiting => {
                        let ghost prev = self@;
                        let outcome = self.worker_receive(i);
                        proof {
                            if prev.pending.len() > 0 {
                                lemma_receive_preserves(prev, i as int);
                            } else {
                                lemma_disconnect_preserves(prev, i as int);
                            }
                        }
                        match outcome {
                            RecvOutcome::Disconnected => {
                                break;
                            },
                            RecvOutcome::Job(_) => {},
                        }
                    },
                    WorkerPhase::Executing(_) => {
                        let ghost prev = self@;
                        self.worker_finish(i);
                        proof {
                            lemma_finish_preserves(prev, i as int);
                        }
                    },
                }
            }
            i += 1;
        }
        proof {
            assert(self@.all_exited());
            lemma_in_flight_empty(self@.workers);
            assert(self@.outstanding() =~= Multiset::<u64>::empty());
            assert(self@.completed.to_multiset() =~= self@.completed.to_multiset().add(
                self@.outstanding(),
            ));
            assert(self@.completed.to_multiset() =~= old(self)@.submitted.to_multiset()) by {
                assert(self@.completed.to_multiset() == old(self)@.completed.to_multiset().add(
                    old(self)@.outstanding(),
                ));
                assert(old(self)@.conserved());
            }
        }
    }
}

impl ThreadPool {
    /// The fixed number of workers.
    pub fn capacity(&self) -> (n: usize)
        ensures
            n == self@.capacity(),
    {
        self.workers.len()
    }

    /// Whether the producing end of the queue is still open.
    pub fn is_open(&self) -> (b: bool)
        ensures
            b == self@.sender_open,
    {
        self.sender_open
    }

    /// The identifier of the worker at position `i`.
    pub fn worker_id(&self, i: usize) -> (id: usize)
        requires
            i < self@.workers.len(),
        ensures
            id == self@.workers[i as int].id,
    {
        self.workers[i].id
    }

    /// The phase of the worker at position `i`.
    pub fn worker_phase(&self, i: usize) -> (p: WorkerPhase)
        requires
            i < self@.workers.len(),
        ensures
            p == self@.workers[i as int].phase,
    {
        self.workers[i].phase
    }

    /// How many jobs are waiting in the queue.
    pub fn pending_len(&self) -> (n: usize)
        ensures
            n == self@.pending.len(),
    {
        self.pending.len()
    }

    /// How many jobs have run to completion.
    pub fn completed_len(&self) -> (n: usize)
        ensures
            n == self@.completed.len(),
    {
        self.completed.len()
    }

    /// The job at position `i` of the completion log, in completion order.
    pub fn completed_at(&self, i: usize) -> (job: u64)
        requires
            i < self@.completed.len(),
        ensures
            job == self@.completed[i as int],
    {
        self.completed[i]
    }
}

/// What one receive call on the shared consuming end of the queue yielded:
/// the next job, or the disconnection signal that ends the worker's loop.
#[derive(Clone, Copy, Debug, PartialEq, Eq, Structural)]
pub enum RecvOutcome {
    Job(u64),
    Disconnected,
}

} // verus!
