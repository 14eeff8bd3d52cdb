//! What holds of every pool, whatever is done to it.
//!
//! Each law is a proof about [`Dispatch`], the state machine that the worker
//! pool keeps to. Since every operation of the pool is one step of that
//! machine, what is proved here holds of every pool that the operations can
//! lead to.

use crate::dispatch::lemma_count_after_update;
use crate::dispatch::lemma_count_extremes;
use crate::dispatch::lemma_count_is_bounded;
use crate::dispatch::Assignment;
use crate::dispatch::Dispatch;
use crate::dispatch::Outcome;
use crate::dispatch::PoolError;
use crate::dispatch::Step;
use crate::dispatch::Worker;
use crate::dispatch::WorkerState;
use vstd::prelude::*;

verus! {

impl<T> Dispatch<T> {
    /// Whatever is done to a pool, and in whatever order, it stays as `inv`
    /// says and keeps the workers it was made with.
    pub proof fn lemma_always_inv(count: nat, steps: Seq<Step<T>>)
        requires
            count >= 1,
        ensures
            Self::initial(count).after(steps).inv(),
            Self::initial(count).after(steps).workers.len() == count,
        decreases steps.len(),
    {
        if steps.len() == 0 {
            Self::lemma_initial_inv(count);
        } else {
            Self::lemma_always_inv(count, steps.drop_last());
            let before = Self::initial(count).after(steps.drop_last());
            match steps.last() {
                Step::Execute(task) => before.lemma_execute_inv(task),
                Step::Take(worker) => before.lemma_take_inv(worker),
                Step::Finish(worker, outcome) => before.lemma_finish_inv(worker, outcome),
                Step::Shutdown => before.lemma_shutdown_inv(),
            }
        }
    }

    /// For every number of workers and every run of calls: never do more
    /// tasks run at once than the pool was made with workers.
    pub proof fn lemma_never_more_than_workers(count: nat, steps: Seq<Step<T>>)
        requires
            count >= 1,
        ensures
            Self::initial(count).after(steps).executing() <= count,
    {
        Self::lemma_always_inv(count, steps);
        Self::initial(count).after(steps).lemma_bounded_concurrency();
    }

    /// For every number of workers and every run of calls: the tasks handed
    /// out so far are the first of the tasks accepted so far, in the same
    /// order, and the rest are pending.
    pub proof fn lemma_always_in_order(count: nat, steps: Seq<Step<T>>)
        requires
            count >= 1,
        ensures
            ({
                let now = Self::initial(count).after(steps);
                &&& now.handed.is_prefix_of(now.submitted)
                &&& now.pending == now.submitted.skip(now.handed.len() as int)
            }),
    {
        Self::lemma_always_inv(count, steps);
        let now = Self::initial(count).after(steps);
        assert(now.submitted.subrange(0, now.handed.len() as int) =~= now.handed);
        assert(now.pending =~= now.submitted.skip(now.handed.len() as int));
    }

    /// No call undoes what has happened. The pool's life only advances, a
    /// worker that has terminated stays so, the tasks accepted and the tasks
    /// handed out are only ever added to at the end, and a task that has
    /// finished stays finished, with the outcome it had.
    pub proof fn lemma_history_only_grows(self, step: Step<T>)
        requires
            self.inv(),
        ensures
            self.step(step).workers.len() == self.workers.len(),
            self.lifecycle.rank() <= self.step(step).lifecycle.rank(),
            forall|w: int|
                0 <= w < self.workers.len() && (#[trigger] self.workers[w]) is Terminated
                    ==> self.step(step).workers[w] is Terminated,
            self.submitted.is_prefix_of(self.step(step).submitted),
            self.handed.is_prefix_of(self.step(step).handed),
            forall|k: nat| #[trigger]
                self.finished.dom().contains(k) ==> self.step(step).finished.dom().contains(k)
                    && self.step(step).finished[k] == self.finished[k],
    {
        let next = self.step(step);
        assert(self.submitted.is_prefix_of(next.submitted)) by {
            assert(next.submitted.subrange(0, self.submitted.len() as int) =~= self.submitted);
        }
        assert(self.handed.is_prefix_of(next.handed)) by {
            assert(next.handed.subrange(0, self.handed.len() as int) =~= self.handed);
        }
    }

    /// Never do more tasks run at once than the pool has workers: the tasks
    /// handed out and not yet finished are as many as the executing workers,
    /// and those are at most all of them.
    pub proof fn lemma_bounded_concurrency(self)
        requires
            self.inv(),
        ensures
            self.handed.len() - self.finished.len() == self.executing(),
            self.executing() <= self.workers.len(),
    {
        lemma_count_is_bounded(self.workers, WorkerState::Executing);
    }

    /// Tasks are handed out in the order in which they were accepted, none is
    /// left out and none comes twice: the tasks handed out so far, followed by
    /// the pending ones, are the accepted ones.
    pub proof fn lemma_first_in_first_out(self)
        requires
            self.inv(),
        ensures
            self.submitted == self.handed + self.pending,
            self.submitted.len() == self.handed.len() + self.pending.len(),
            forall|i: int| 0 <= i < self.handed.len() ==> self.handed[i] == self.submitted[i],
            forall|j: int|
                0 <= j < self.pending.len() ==> self.pending[j] == self.submitted[self.handed.len()
                    + j],
    {
    }

    /// A task that was handed out has either finished or is being run by one
    /// worker, never both and never by two.
    pub proof fn lemma_each_task_once(self, k: nat)
        requires
            self.inv(),
            k < self.handed.len(),
        ensures
            self.finished.dom().contains(k) <==> !(exists|w: int| #[trigger] self.runs(w, k)),
            forall|a: int, b: int|
                #[trigger] self.runs(a, k) && #[trigger] self.runs(b, k) ==> a == b,
    {
        assert(self.finished.dom().contains(k) || exists|w: int| #[trigger] self.runs(w, k));
        if exists|w: int| #[trigger] self.runs(w, k) {
            let w = choose|w: int| #[trigger] self.runs(w, k);
            assert(self.workers[w] == Worker::Executing(k));
        }
        assert forall|a: int, b: int| #[trigger]
            self.runs(a, k) && #[trigger] self.runs(b, k) implies a == b by {
            if a < b {
                assert(self.workers[a] != self.workers[b]);
            } else if b < a {
                assert(self.workers[b] != self.workers[a]);
            }
        }
    }

    /// A running pool takes in any number of tasks, whatever its workers are
    /// doing: all of them are queued, in the order in which they came, behind
    /// what was queued before, and nothing else changes.
    pub proof fn lemma_backlog_is_absorbed(self, tasks: Seq<T>)
        requires
            self.lifecycle is Running,
        ensures
            self.execute_all(tasks).pending == self.pending + tasks,
            self.execute_all(tasks).submitted == self.submitted + tasks,
            self.execute_all(tasks).handed == self.handed,
            self.execute_all(tasks).workers == self.workers,
            self.execute_all(tasks).finished == self.finished,
            self.execute_all(tasks).lifecycle is Running,
        decreases tasks.len(),
    {
        if tasks.len() > 0 {
            self.lemma_backlog_is_absorbed(tasks.drop_last());
            assert(tasks =~= tasks.drop_last().push(tasks.last()));
        }
        assert(self.execute_all(tasks).pending =~= self.pending + tasks);
        assert(self.execute_all(tasks).submitted =~= self.submitted + tasks);
    }

    /// No task is stranded in the queue. While a task is pending no worker
    /// has left; every idle worker that asks is given the oldest pending
    /// task; and if no worker is idle, one is running a task and will be idle
    /// when it has finished.
    pub proof fn lemma_pending_task_can_start(self)
        requires
            self.inv(),
            self.pending.len() > 0,
        ensures
            forall|w: int|
                0 <= w < self.workers.len() ==> !((#[trigger] self.workers[w]) is Terminated),
            forall|w: int|
                0 <= w < self.workers.len() && (#[trigger] self.workers[w]) is Idle
                    ==> self.take_result(w) == Ok::<Assignment<T>, PoolError>(
                    Assignment::Run(self.pending[0]),
                ),
            forall|w: int|
                0 <= w < self.workers.len() && (#[trigger] self.workers[w]) is Executing
                    ==> self.finish_result(w) is Ok && self.finish(w, Outcome::Completed).workers[w]
                    is Idle && self.finish(w, Outcome::Failed).workers[w] is Idle,
    {
    }

    /// When the pool has stopped, every task that it ever accepted was handed
    /// out and has finished, nothing is pending and nothing runs.
    pub proof fn lemma_stopped_has_run_everything(self)
        requires
            self.inv(),
            self.lifecycle is Stopped,
        ensures
            self.pending.len() == 0,
            self.handed == self.submitted,
            self.executing() == 0,
            self.alive() == 0,
            forall|k: nat| k < self.submitted.len() <==> #[trigger] self.finished.dom().contains(k),
    {
        assert(self.workers[0] is Terminated);
        assert(self.handed =~= self.submitted);
        lemma_count_extremes(self.workers, WorkerState::Executing);
        lemma_count_extremes(self.workers, WorkerState::Terminated);
        assert forall|k: nat| k < self.submitted.len() implies #[trigger] self.finished.dom().contains(
            k,
        ) by {
            if !self.finished.dom().contains(k) {
                let w = choose|w: int| #[trigger] self.runs(w, k);
                assert(self.workers[w] is Terminated);
            }
        }
    }

    /// A pool that is shutting down has stopped exactly when no step remains.
    pub proof fn lemma_stopped_iff_nothing_remains(self)
        requires
            self.inv(),
            !(self.lifecycle is Running),
        ensures
            self.lifecycle is Stopped <==> self.remaining() == 0,
    {
        lemma_count_extremes(self.workers, WorkerState::Executing);
        lemma_count_extremes(self.workers, WorkerState::Terminated);
        lemma_count_is_bounded(self.workers, WorkerState::Terminated);
        if self.lifecycle is Stopped {
            self.lemma_stopped_has_run_everything();
        }
        if self.remaining() == 0 {
            assert forall|w: int| 0 <= w < self.workers.len() implies (#[trigger] self.workers[w])
                is Terminated by {
                assert(self.workers[w].state() == WorkerState::Terminated);
            }
        }
    }

    /// While a pool is shutting down, every step that a worker takes brings
    /// the pool one step nearer to having stopped.
    pub proof fn lemma_worker_step_consumes(self, worker: int, outcome: Outcome)
        requires
            self.inv(),
            !(self.lifecycle is Running),
        ensures
            self.take_result(worker) is Ok ==> self.take(worker).remaining() + 1
                == self.remaining(),
            self.finish_result(worker) is Ok ==> self.finish(worker, outcome).remaining() + 1
                == self.remaining(),
    {
        lemma_count_is_bounded(self.workers, WorkerState::Terminated);
        lemma_count_is_bounded(self.take(worker).workers, WorkerState::Terminated);
        lemma_count_is_bounded(self.finish(worker, outcome).workers, WorkerState::Terminated);
        match self.take_result(worker) {
            Ok(Assignment::Run(task)) => {
                let to = Worker::Executing(self.handed.len());
                lemma_count_after_update(self.workers, worker, to, WorkerState::Executing);
                lemma_count_after_update(self.workers, worker, to, WorkerState::Terminated);
            },
            Ok(Assignment::Exit) => {
                lemma_count_after_update(
                    self.workers,
                    worker,
                    Worker::Terminated,
                    WorkerState::Executing,
                );
                lemma_count_after_update(
                    self.workers,
                    worker,
                    Worker::Terminated,
                    WorkerState::Terminated,
                );
            },
            _ => {},
        }
        if self.finish_result(worker) is Ok {
            lemma_count_after_update(self.workers, worker, Worker::Idle, WorkerState::Executing);
            lemma_count_after_update(self.workers, worker, Worker::Idle, WorkerState::Terminated);
        }
    }

    /// A pool that is shutting down and has not stopped is never stuck: some
    /// worker can take its next step.
    pub proof fn lemma_drain_can_proceed(self)
        requires
            self.inv(),
            self.lifecycle is Draining,
        ensures
            exists|w: int| #[trigger]
                self.take_result(w) is Ok || #[trigger] self.finish_result(w) is Ok,
    {
        let w = choose|w: int| 0 <= w < self.workers.len() && !((#[trigger] self.workers[w])
            is Terminated);
        assert(self.take_result(w) is Ok || self.finish_result(w) is Ok);
    }

    /// A task that fails leaves the pool as one that completes does, but for
    /// the outcome on record: its worker is idle again and can take the next
    /// task, and no other worker and no other task is touched.
    pub proof fn lemma_failure_is_contained(self, worker: int)
        requires
            self.inv(),
            self.finish_result(worker) is Ok,
        ensures
            ({
                let failed = self.finish(worker, Outcome::Failed);
                let completed = self.finish(worker, Outcome::Completed);
                &&& failed.lifecycle == self.lifecycle
                &&& failed.workers == completed.workers
                &&& failed.submitted == self.submitted
                &&& failed.handed == self.handed
                &&& failed.pending == self.pending
                &&& failed.finished.dom() == completed.finished.dom()
                &&& failed.workers[worker] is Idle
                &&& failed.take_result(worker) is Ok
                &&& forall|other: int|
                    0 <= other < self.workers.len() && other != worker ==> failed.workers[other]
                        == self.workers[other]
                &&& forall|k: nat|
                    self.finished.dom().contains(k) ==> failed.finished.dom().contains(k)
                        && failed.finished[k] == self.finished[k]
            }),
    {
        let failed = self.finish(worker, Outcome::Failed);
        let completed = self.finish(worker, Outcome::Completed);
        assert(failed.finished.dom() =~= completed.finished.dom());
    }
}

} // verus!
