//! The worker pool: a fixed number of workers and a queue of tasks between
//! the one who submits and the workers who run.
//!
//! The pool keeps the books and runs nothing itself. Whoever embeds it gives
//! each worker a thread of its own, which asks the pool for work with
//! [`ThreadPool::take`], runs what it is given, and reports back with
//! [`ThreadPool::finish`]; the pool sits behind a lock that every caller
//! holds for the length of one call. What a call does to the pool is stated
//! over [`Dispatch`], the pool's view.

use crate::dispatch::all_terminated;
use crate::dispatch::count_in_state;
use crate::dispatch::Assignment;
use crate::dispatch::Dispatch;
use crate::dispatch::Lifecycle;
use crate::dispatch::Outcome;
use crate::dispatch::PoolError;
use crate::dispatch::Worker;
use crate::dispatch::WorkerState;
use std::collections::VecDeque;
use vstd::prelude::*;

verus! {

/// A pool of workers that run tasks of type `T`.
pub struct ThreadPool<T> {
    lifecycle: Lifecycle,
    /// What each worker is doing, by the worker's number.
    workers: Vec<WorkerState>,
    /// The pending tasks, the oldest at the front.
    queue: VecDeque<T>,
    /// Every task ever accepted.
    submitted: Ghost<Seq<T>>,
    /// Every task ever handed to a worker.
    handed: Ghost<Seq<T>>,
    /// For each worker that is executing, the position in `handed` of the
    /// task it runs.
    tickets: Ghost<Seq<nat>>,
    /// How each finished task ended, by its position in `handed`.
    finished: Ghost<Map<nat, Outcome>>,
}

impl<T> View for ThreadPool<T> {
    type V = Dispatch<T>;

    closed spec fn view(&self) -> Dispatch<T> {
        Dispatch {
            lifecycle: self.lifecycle,
            workers: Seq::new(
                self.workers@.len(),
                |w: int|
                    match self.workers@[w] {
                        WorkerState::Idle => Worker::Idle,
                        WorkerState::Executing => Worker::Executing(self.tickets@[w]),
                        WorkerState::Terminated => Worker::Terminated,
                    },
            ),
            submitted: self.submitted@,
            handed: self.handed@,
            pending: self.queue@,
            finished: self.finished@,
        }
    }
}

impl<T> ThreadPool<T> {
    /// Whether the pool is in a state that its own operations can have led
    /// to. `new` makes such a pool and every operation keeps it so.
    pub closed spec fn wf(&self) -> bool {
        &&& self@.inv()
        &&& self.tickets@.len() == self.workers@.len()
    }

    /// The view of a well-formed pool is as [`Dispatch::inv`] says, so that
    /// every law of the model holds of it.
    pub proof fn lemma_view_inv(&self)
        requires
            self.wf(),
        ensures
            self@.inv(),
    {
    }

    /// Makes a pool of `worker_count` idle workers with an empty queue. A
    /// pool without workers is refused.
    pub fn new(worker_count: u32) -> (made: Result<Self, PoolError>)
        ensures
            match made {
                Ok(pool) => worker_count >= 1 && pool.wf() && pool@ == Dispatch::<T>::initial(
                    worker_count as nat,
                ),
                Err(e) => worker_count == 0 && e == PoolError::NoWorkers,
            },
    {
        if worker_count == 0 {
            return Err(PoolError::NoWorkers);
        }
        let mut workers: Vec<WorkerState> = Vec::new();
        let mut made: u32 = 0;
        while made < worker_count
            invariant
                made <= worker_count,
                workers@.len() == made,
                forall|w: int| 0 <= w < workers@.len() ==> workers@[w] == WorkerState::Idle,
            decreases worker_count - made,
        {
            workers.push(WorkerState::Idle);
            made = made + 1;
        }
        let pool = ThreadPool {
            lifecycle: Lifecycle::Running,
            workers,
            queue: VecDeque::new(),
            submitted: Ghost(Seq::empty()),
            handed: Ghost(Seq::empty()),
            tickets: Ghost(Seq::new(worker_count as nat, |w: int| 0nat)),
            finished: Ghost(Map::empty()),
        };
        proof {
            Dispatch::<T>::lemma_initial_inv(worker_count as nat);
            assert(pool@.workers =~= Dispatch::<T>::initial(worker_count as nat).workers);
        }
        Ok(pool)
    }

    /// Where the pool is in its life.
    pub fn lifecycle(&self) -> (now: Lifecycle)
        ensures
            now == self@.lifecycle,
    {
        self.lifecycle
    }

    /// The number of workers, terminated ones included.
    pub fn worker_count(&self) -> (count: usize)
        ensures
            count == self@.workers.len(),
    {
        self.workers.len()
    }

    /// The number of tasks that wait in the queue.
    pub fn pending(&self) -> (count: usize)
        ensures
            count == self@.pending.len(),
    {
        self.queue.len()
    }

    /// What `worker` is doing, if the pool has a worker of that number.
    pub fn state_of(&self, worker: usize) -> (state: Option<WorkerState>)
        ensures
            state == if worker < self@.workers.len() {
                Some(self@.workers[worker as int].state())
            } else {
                None
            },
    {
        if worker < self.workers.len() {
            Some(self.workers[worker])
        } else {
            None
        }
    }

    /// The number of workers that are running a task. It never exceeds the
    /// number of workers.
    pub fn executing(&self) -> (count: usize)
        ensures
            count == self@.executing(),
            count <= self@.workers.len(),
    {
        let mut count: usize = 0;
        let mut at: usize = 0;
        while at < self.workers.len()
            invariant
                at <= self.workers@.len(),
                count <= at,
                count == count_in_state(self@.workers.take(at as int), WorkerState::Executing),
            decreases self.workers@.len() - at,
        {
            proof {
                assert(self@.workers.take(at + 1).drop_last() =~= self@.workers.take(at as int));
            }
            if self.workers[at] == WorkerState::Executing {
                count = count + 1;
            }
            at = at + 1;
        }
        proof {
            assert(self@.workers.take(at as int) =~= self@.workers);
        }
        count
    }

    /// Offers `task` to the pool. A running pool queues it behind everything
    /// queued before, however many workers are busy, and returns at once; a
    /// pool that is shutting down or has stopped hands it back and stays as
    /// it is.
    pub fn execute(&mut self, task: T) -> (refused: Result<(), T>)
        requires
            old(self).wf(),
        ensures
            final(self).wf(),
            final(self)@ == old(self)@.execute(task),
            refused == if old(self)@.lifecycle is Running {
                Ok::<(), T>(())
            } else {
                Err::<(), T>(task)
            },
    {
        match self.lifecycle {
            Lifecycle::Running => {
                proof {
                    self@.lemma_execute_inv(task);
                    self.submitted@ = self.submitted@.push(task);
                }
                self.queue.push_back(task);
                assert(self@.workers =~= old(self)@.workers);
                Ok(())
            },
            _ => Err(task),
        }
    }

    /// Tells the pool to shut down: from now on it accepts no task. What is
    /// queued is still handed out, and each worker is told to leave when it
    /// asks for work and finds none. A pool that is already shutting down or
    /// has stopped stays as it is.
    pub fn shutdown(&mut self)
        requires
            old(self).wf(),
        ensures
            final(self).wf(),
            final(self)@ == old(self)@.shutdown(),
    {
        match self.lifecycle {
            Lifecycle::Running => {
                proof {
                    self@.lemma_shutdown_inv();
                }
                self.lifecycle = Lifecycle::Draining;
                assert(self@.workers =~= old(self)@.workers);
            },
            _ => {},
        }
    }

    /// Whether every worker has terminated.
    fn everyone_left(&self) -> (left: bool)
        ensures
            left == all_terminated(self@.workers),
    {
        let mut at: usize = 0;
        while at < self.workers.len()
            invariant
                at <= self.workers@.len(),
                forall|w: int| 0 <= w < at ==> (#[trigger] self@.workers[w]) is Terminated,
            decreases self.workers@.len() - at,
        {
            if self.workers[at] != WorkerState::Terminated {
                assert(!(self@.workers[at as int] is Terminated));
                return false;
            }
            at = at + 1;
        }
        true
    }

    /// Called by `worker` when it is ready for work. An idle worker is given
    /// the task that has waited longest and is executing from then on; with
    /// nothing queued it is told to wait while the pool is running, and told
    /// to leave, and counted as terminated, once the pool is shutting down.
    /// The pool has stopped when the last worker has left. A call for a
    /// number that is no worker's, or for a worker that is not idle, is
    /// refused and changes nothing.
    pub fn take(&mut self, worker: usize) -> (told: Result<Assignment<T>, PoolError>)
        requires
            old(self).wf(),
        ensures
            final(self).wf(),
            final(self)@ == old(self)@.take(worker as int),
            told == old(self)@.take_result(worker as int),
    {
        proof {
            self@.lemma_take_inv(worker as int);
        }
        if worker >= self.workers.len() {
            return Err(PoolError::UnknownWorker);
        }
        if self.workers[worker] != WorkerState::Idle {
            return Err(PoolError::NotIdle);
        }
        match self.queue.pop_front() {
            Some(task) => {
                proof {
                    self.tickets@ = self.tickets@.update(worker as int, self.handed@.len());
                    self.handed@ = self.handed@.push(task);
                }
                self.workers[worker] = WorkerState::Executing;
                assert(self@.workers =~= old(self)@.take(worker as int).workers);
                assert(self@.pending =~= old(self)@.take(worker as int).pending);
                Ok(Assignment::Run(task))
            },
            None => {
                match self.lifecycle {
                    Lifecycle::Running => Ok(Assignment::Wait),
                    _ => {
                        self.workers[worker] = WorkerState::Terminated;
                        assert(self@.workers =~= old(self)@.workers.update(
                            worker as int,
                            Worker::Terminated,
                        ));
                        if self.everyone_left() {
                            self.lifecycle = Lifecycle::Stopped;
                        } else {
                            self.lifecycle = Lifecycle::Draining;
                        }
                        assert(self@.workers =~= old(self)@.take(worker as int).workers);
                        Ok(Assignment::Exit)
                    },
                }
            },
        }
    }

    /// Called by `worker` when the task it was given has ended, with how it
    /// ended. Whatever the outcome, the worker is idle again and the pool is
    /// otherwise as before: a task that fails ends alone. A call for a number
    /// that is no worker's, or for a worker that runs no task, is refused and
    /// changes nothing.
    pub fn finish(&mut self, worker: usize, outcome: Outcome) -> (done: Result<(), PoolError>)
        requires
            old(self).wf(),
        ensures
            final(self).wf(),
            final(self)@ == old(self)@.finish(worker as int, outcome),
            done == old(self)@.finish_result(worker as int),
    {
        proof {
            self@.lemma_finish_inv(worker as int, outcome);
        }
        if worker >= self.workers.len() {
            return Err(PoolError::UnknownWorker);
        }
        if self.workers[worker] != WorkerState::Executing {
            return Err(PoolError::NotExecuting);
        }
        proof {
            self.finished@ = self.finished@.insert(self.tickets@[worker as int], outcome);
        }
        self.workers[worker] = WorkerState::Idle;
        assert(self@.workers =~= old(self)@.finish(worker as int, outcome).workers);
        Ok(())
    }
}

} // verus!
