//! The dispatch engine as a state machine over mathematical values.
//!
//! A pool has a fixed number of workers and a queue of pending tasks. Tasks
//! enter at the back of the queue; an idle worker takes the task at the front
//! and runs it; when it has finished, in whatever way, it is idle again. Once
//! the pool is told to shut down it accepts nothing new, its workers run what
//! is still queued, and each worker leaves when it finds the queue empty. The
//! pool has stopped when the last worker has left.
//!
//! [`Dispatch`] records, beside the present state, what has happened so far:
//! every task accepted, every task handed to a worker, and how each finished.
//! What follows from the steps, for every pool and every run of calls, is
//! proved in [`crate::laws`].

use vstd::prelude::*;

verus! {

/// Where a pool is in its life.
#[derive(Clone, Copy, Debug, PartialEq, Eq, Structural)]
pub enum Lifecycle {
    /// Tasks are accepted and run.
    Running,
    /// No task is accepted any more; what is queued is still run.
    Draining,
    /// Every worker has left.
    Stopped,
}

impl Lifecycle {
    /// How far along its life a pool is.
    pub open spec fn rank(self) -> nat {
        match self {
            Lifecycle::Running => 0,
            Lifecycle::Draining => 1,
            Lifecycle::Stopped => 2,
        }
    }
}

/// What a worker is doing.
#[derive(Clone, Copy, Debug, PartialEq, Eq, Structural)]
pub enum WorkerState {
    /// Waiting for a task.
    Idle,
    /// Running a task.
    Executing,
    /// Gone for good.
    Terminated,
}

/// How the run of a task ended.
#[derive(Clone, Copy, Debug, PartialEq, Eq, Structural)]
pub enum Outcome {
    /// The task ran to its end.
    Completed,
    /// The task failed; the failure ends that task and nothing else.
    Failed,
}

/// What a worker that asked for work is told.
#[derive(Debug)]
pub enum Assignment<T> {
    /// Run the task, then say how it ended.
    Run(T),
    /// Nothing is queued; wait until something is, then ask again.
    Wait,
    /// Nothing is queued and nothing will be: leave.
    Exit,
}

/// Why the pool refused a call.
#[derive(Clone, Copy, Debug, PartialEq, Eq, Structural)]
pub enum PoolError {
    /// A pool needs at least one worker.
    NoWorkers,
    /// The pool has no worker of that number.
    UnknownWorker,
    /// Only an idle worker can ask for work.
    NotIdle,
    /// Only a worker that is running a task can finish one.
    NotExecuting,
}

/// A worker as the model sees it: an executing worker carries the position,
/// in the order of handing out, of the task it runs.
pub enum Worker {
    Idle,
    Executing(nat),
    Terminated,
}

impl Worker {
    /// The worker's state without the task it runs.
    pub open spec fn state(self) -> WorkerState {
        match self {
            Worker::Idle => WorkerState::Idle,
            Worker::Executing(_) => WorkerState::Executing,
            Worker::Terminated => WorkerState::Terminated,
        }
    }
}

/// One call on a pool.
pub enum Step<T> {
    /// A task is offered.
    Execute(T),
    /// The worker of this number asks for work.
    Take(int),
    /// The worker of this number reports that its task has ended, and how.
    Finish(int, Outcome),
    /// The pool is told to shut down.
    Shutdown,
}

/// How many of `workers` are in `state`.
pub open spec fn count_in_state(workers: Seq<Worker>, state: WorkerState) -> nat
    decreases workers.len(),
{
    if workers.len() == 0 {
        0
    } else {
        count_in_state(workers.drop_last(), state) + if workers.last().state() == state {
            1nat
        } else {
            0nat
        }
    }
}

/// Whether every one of `workers` has terminated.
pub open spec fn all_terminated(workers: Seq<Worker>) -> bool {
    forall|w: int| 0 <= w < workers.len() ==> (#[trigger] workers[w]) is Terminated
}

/// A pool and its history.
pub struct Dispatch<T> {
    /// Where the pool is in its life.
    pub lifecycle: Lifecycle,
    /// The workers, by number.
    pub workers: Seq<Worker>,
    /// Every task ever accepted, in the order of acceptance.
    pub submitted: Seq<T>,
    /// Every task ever handed to a worker, in the order of handing out.
    pub handed: Seq<T>,
    /// The tasks accepted and not yet handed out, the oldest first.
    pub pending: Seq<T>,
    /// For each task that has finished, by its position in `handed`, how.
    pub finished: Map<nat, Outcome>,
}

impl<T> Dispatch<T> {
    /// A new pool of `count` idle workers with nothing queued.
    pub open spec fn initial(count: nat) -> Self {
        Dispatch {
            lifecycle: Lifecycle::Running,
            workers: Seq::new(count, |w: int| Worker::Idle),
            submitted: Seq::empty(),
            handed: Seq::empty(),
            pending: Seq::empty(),
            finished: Map::empty(),
        }
    }

    /// How many workers are running a task.
    pub open spec fn executing(self) -> nat {
        count_in_state(self.workers, WorkerState::Executing)
    }

    /// How many workers have not terminated.
    pub open spec fn alive(self) -> nat {
        (self.workers.len() - count_in_state(self.workers, WorkerState::Terminated)) as nat
    }

    /// Whether `worker` is running the task handed out at position `k`.
    pub open spec fn runs(self, worker: int, k: nat) -> bool {
        0 <= worker < self.workers.len() && self.workers[worker] == Worker::Executing(k)
    }

    /// What holds of every pool that was made by `initial` and changed only by
    /// the steps below.
    pub open spec fn inv(self) -> bool {
        // There is a worker.
        &&& self.workers.len() >= 1
        // Every accepted task was handed out or is pending, in that order.
        &&& self.submitted == self.handed + self.pending
        // Only tasks that were handed out have finished.
        &&& self.finished.dom().finite()
        &&& forall|k: nat| #[trigger] self.finished.dom().contains(k) ==> k < self.handed.len()
        // A task that was handed out has finished or is being run,
        &&& forall|k: nat|
            k < self.handed.len() ==> #[trigger] self.finished.dom().contains(k) || exists|w: int|
                #[trigger] self.runs(w, k)
        // not both,
        &&& forall|w: int|
            0 <= w < self.workers.len() ==> (#[trigger] self.workers[w] matches Worker::Executing(
                k,
            ) ==> k < self.handed.len() && !self.finished.dom().contains(k))
        // and not by two workers.
        &&& forall|a: int, b: int|
            0 <= a < b < self.workers.len() && (#[trigger] self.workers[a]) is Executing
                ==> self.workers[a] != #[trigger] self.workers[b]
        // So the tasks in flight are as many as the executing workers.
        &&& self.finished.len() + self.executing() == self.handed.len()
        // No worker leaves a running pool, nor a queue with tasks in it.
        &&& self.lifecycle is Running ==> forall|w: int|
            0 <= w < self.workers.len() ==> !((#[trigger] self.workers[w]) is Terminated)
        &&& self.pending.len() > 0 ==> forall|w: int|
            0 <= w < self.workers.len() ==> !((#[trigger] self.workers[w]) is Terminated)
        // The pool has stopped exactly when every worker has left.
        &&& self.lifecycle is Stopped <==> all_terminated(self.workers)
    }

    /// The pool after `task` was offered to it: queued at the back while the
    /// pool is running, refused otherwise.
    pub open spec fn execute(self, task: T) -> Self {
        if self.lifecycle is Running {
            Dispatch {
                submitted: self.submitted.push(task),
                pending: self.pending.push(task),
                ..self
            }
        } else {
            self
        }
    }

    /// What `worker` is told when it asks for work.
    pub open spec fn take_result(self, worker: int) -> Result<Assignment<T>, PoolError> {
        if !(0 <= worker < self.workers.len()) {
            Err(PoolError::UnknownWorker)
        } else if !(self.workers[worker] is Idle) {
            Err(PoolError::NotIdle)
        } else if self.pending.len() > 0 {
            Ok(Assignment::Run(self.pending[0]))
        } else if self.lifecycle is Running {
            Ok(Assignment::Wait)
        } else {
            Ok(Assignment::Exit)
        }
    }

    /// The pool after `worker` asked for work. An idle worker gets the oldest
    /// pending task; with nothing pending it waits while the pool is running
    /// and terminates otherwise, and the pool has stopped when it was the
    /// last. Any other call changes nothing.
    pub open spec fn take(self, worker: int) -> Self {
        match self.take_result(worker) {
            Ok(Assignment::Run(task)) => Dispatch {
                workers: self.workers.update(worker, Worker::Executing(self.handed.len())),
                handed: self.handed.push(task),
                pending: self.pending.drop_first(),
                ..self
            },
            Ok(Assignment::Exit) => {
                let workers = self.workers.update(worker, Worker::Terminated);
                Dispatch {
                    lifecycle: if all_terminated(workers) {
                        Lifecycle::Stopped
                    } else {
                        Lifecycle::Draining
                    },
                    workers,
                    ..self
                }
            },
            _ => self,
        }
    }

    /// What a call of `finish` for `worker` returns.
    pub open spec fn finish_result(self, worker: int) -> Result<(), PoolError> {
        if !(0 <= worker < self.workers.len()) {
            Err(PoolError::UnknownWorker)
        } else if !(self.workers[worker] is Executing) {
            Err(PoolError::NotExecuting)
        } else {
            Ok(())
        }
    }

    /// The pool after `worker` reported the end of its task: the worker is
    /// idle again and the outcome is on record. Any other call changes
    /// nothing.
    pub open spec fn finish(self, worker: int, outcome: Outcome) -> Self {
        if 0 <= worker < self.workers.len() {
            match self.workers[worker] {
                Worker::Executing(k) => Dispatch {
                    workers: self.workers.update(worker, Worker::Idle),
                    finished: self.finished.insert(k, outcome),
                    ..self
                },
                _ => self,
            }
        } else {
            self
        }
    }

    /// The pool after it was told to shut down.
    pub open spec fn shutdown(self) -> Self {
        if self.lifecycle is Running {
            Dispatch { lifecycle: Lifecycle::Draining, ..self }
        } else {
            self
        }
    }

    /// The pool after one call.
    pub open spec fn step(self, step: Step<T>) -> Self {
        match step {
            Step::Execute(task) => self.execute(task),
            Step::Take(worker) => self.take(worker),
            Step::Finish(worker, outcome) => self.finish(worker, outcome),
            Step::Shutdown => self.shutdown(),
        }
    }

    /// The pool after a run of calls, the first of `steps` first.
    pub open spec fn after(self, steps: Seq<Step<T>>) -> Self
        decreases steps.len(),
    {
        if steps.len() == 0 {
            self
        } else {
            self.after(steps.drop_last()).step(steps.last())
        }
    }

    /// The pool after each of `tasks` was offered to it, the first first.
    pub open spec fn execute_all(self, tasks: Seq<T>) -> Self
        decreases tasks.len(),
    {
        if tasks.len() == 0 {
            self
        } else {
            self.execute_all(tasks.drop_last()).execute(tasks.last())
        }
    }

    /// A bound on the worker steps that a pool that is shutting down still
    /// has before it: two for each pending task (to take it and to finish
    /// it), one for each task that is being run, one for each worker to leave.
    pub open spec fn remaining(self) -> nat {
        2 * self.pending.len() + self.executing() + self.alive()
    }
}

/// No more workers are in one state than there are workers.
pub proof fn lemma_count_is_bounded(workers: Seq<Worker>, state: WorkerState)
    ensures
        count_in_state(workers, state) <= workers.len(),
    decreases workers.len(),
{
    if workers.len() > 0 {
        lemma_count_is_bounded(workers.drop_last(), state);
    }
}

/// Changing one worker changes the count of a state by that worker alone.
pub proof fn lemma_count_after_update(
    workers: Seq<Worker>,
    worker: int,
    to: Worker,
    state: WorkerState,
)
    requires
        0 <= worker < workers.len(),
    ensures
        count_in_state(workers.update(worker, to), state) + (if workers[worker].state() == state {
            1nat
        } else {
            0nat
        }) == count_in_state(workers, state) + (if to.state() == state {
            1nat
        } else {
            0nat
        }),
    decreases workers.len(),
{
    let changed = workers.update(worker, to);
    if worker == workers.len() - 1 {
        assert(changed.drop_last() =~= workers.drop_last());
    } else {
        lemma_count_after_update(workers.drop_last(), worker, to, state);
        assert(changed.drop_last() =~= workers.drop_last().update(worker, to));
    }
}

/// No worker is in a state exactly if the count of that state is zero, and
/// all are exactly if the count is the number of workers.
pub proof fn lemma_count_extremes(workers: Seq<Worker>, state: WorkerState)
    ensures
        count_in_state(workers, state) == 0 <==> forall|w: int|
            0 <= w < workers.len() ==> (#[trigger] workers[w]).state() != state,
        count_in_state(workers, state) == workers.len() <==> forall|w: int|
            0 <= w < workers.len() ==> (#[trigger] workers[w]).state() == state,
    decreases workers.len(),
{
    if workers.len() > 0 {
        let front = workers.drop_last();
        lemma_count_extremes(front, state);
        lemma_count_is_bounded(front, state);
        assert forall|w: int| 0 <= w < front.len() implies #[trigger] front[w] == workers[w] by {}
        if count_in_state(workers, state) == 0 {
            assert forall|w: int| 0 <= w < workers.len() implies (#[trigger] workers[w]).state()
                != state by {
                if w < front.len() {
                    assert(front[w].state() != state);
                }
            }
        }
        if count_in_state(workers, state) == workers.len() {
            assert forall|w: int| 0 <= w < workers.len() implies (#[trigger] workers[w]).state()
                == state by {
                if w < front.len() {
                    assert(front[w].state() == state);
                }
            }
        }
    }
}

impl<T> Dispatch<T> {
    /// A new pool with at least one worker is as `inv` says.
    pub proof fn lemma_initial_inv(count: nat)
        requires
            count >= 1,
        ensures
            Self::initial(count).inv(),
            Self::initial(count).executing() == 0,
            Self::initial(count).alive() == count,
    {
        let v = Self::initial(count);
        lemma_count_extremes(v.workers, WorkerState::Executing);
        lemma_count_extremes(v.workers, WorkerState::Terminated);
        assert(v.workers[0] is Idle);
        assert(v.submitted =~= v.handed + v.pending);
    }

    /// Offering a task keeps `inv`.
    pub proof fn lemma_execute_inv(self, task: T)
        requires
            self.inv(),
        ensures
            self.execute(task).inv(),
    {
        let next = self.execute(task);
        if self.lifecycle is Running {
            assert(next.submitted =~= next.handed + next.pending);
            assert forall|k: nat| k < next.handed.len() implies #[trigger] next.finished.dom().contains(
                k,
            ) || exists|w: int| #[trigger] next.runs(w, k) by {
                if !self.finished.dom().contains(k) {
                    let w = choose|w: int| #[trigger] self.runs(w, k);
                    assert(next.runs(w, k));
                }
            }
        }
    }

    /// Asking for work keeps `inv`.
    pub proof fn lemma_take_inv(self, worker: int)
        requires
            self.inv(),
        ensures
            self.take(worker).inv(),
    {
        let next = self.take(worker);
        match self.take_result(worker) {
            Ok(Assignment::Run(task)) => {
                lemma_count_after_update(
                    self.workers,
                    worker,
                    Worker::Executing(self.handed.len()),
                    WorkerState::Executing,
                );
                assert(next.submitted =~= next.handed + next.pending);
                assert(next.workers[worker] is Executing);
                assert forall|k: nat| k < next.handed.len() implies #[trigger] next.finished.dom().contains(
                    k,
                ) || exists|w: int| #[trigger] next.runs(w, k) by {
                    if k == self.handed.len() {
                        assert(next.runs(worker, k));
                    } else if !self.finished.dom().contains(k) {
                        let w = choose|w: int| #[trigger] self.runs(w, k);
                        assert(next.runs(w, k));
                    }
                }
                assert(!(self.workers[worker] is Terminated));
            },
            Ok(Assignment::Exit) => {
                lemma_count_after_update(
                    self.workers,
                    worker,
                    Worker::Terminated,
                    WorkerState::Executing,
                );
                assert forall|k: nat| k < next.handed.len() implies #[trigger] next.finished.dom().contains(
                    k,
                ) || exists|w: int| #[trigger] next.runs(w, k) by {
                    if !self.finished.dom().contains(k) {
                        let w = choose|w: int| #[trigger] self.runs(w, k);
                        assert(next.runs(w, k));
                    }
                }
            },
            _ => {},
        }
    }

    /// Reporting the end of a task keeps `inv`.
    pub proof fn lemma_finish_inv(self, worker: int, outcome: Outcome)
        requires
            self.inv(),
        ensures
            self.finish(worker, outcome).inv(),
    {
        let next = self.finish(worker, outcome);
        if self.finish_result(worker) is Ok {
            let done = self.workers[worker]->Executing_0;
            lemma_count_after_update(self.workers, worker, Worker::Idle, WorkerState::Executing);
            assert(next.workers[worker] is Idle);
            assert forall|w: int|
                0 <= w < next.workers.len() && (#[trigger] next.workers[w]) is Executing implies {
                let k = next.workers[w]->Executing_0;
                k < next.handed.len() && !next.finished.dom().contains(k)
            } by {
                assert(w != worker);
                assert(self.workers[w] == next.workers[w]);
                if w < worker {
                    assert(self.workers[w] != self.workers[worker]);
                } else {
                    assert(self.workers[worker] != self.workers[w]);
                }
            }
            assert forall|k: nat| k < next.handed.len() implies #[trigger] next.finished.dom().contains(
                k,
            ) || exists|w: int| #[trigger] next.runs(w, k) by {
                if k != done && !self.finished.dom().contains(k) {
                    let w = choose|w: int| #[trigger] self.runs(w, k);
                    assert(next.runs(w, k));
                }
            }
            assert(!(self.workers[worker] is Terminated));
        }
    }

    /// Telling the pool to shut down keeps `inv`.
    pub proof fn lemma_shutdown_inv(self)
        requires
            self.inv(),
        ensures
            self.shutdown().inv(),
    {
        let next = self.shutdown();
        if self.lifecycle is Running {
            assert(!(self.workers[0] is Terminated));
            assert forall|k: nat| k < next.handed.len() implies #[trigger] next.finished.dom().contains(
                k,
            ) || exists|w: int| #[trigger] next.runs(w, k) by {
                if !self.finished.dom().contains(k) {
                    let w = choose|w: int| #[trigger] self.runs(w, k);
                    assert(next.runs(w, k));
                }
            }
        }
    }
}

} // verus!
