//! The accept loop, one turn at a time.
//!
//! The loop itself waits on a socket and so belongs to the embedding
//! program. After each wait it tells [`on_accept`] what the listener
//! reported; `on_accept` does what is to be done to the pool and answers
//! whether the loop goes on.

use crate::dispatch::Dispatch;
use crate::pool::ThreadPool;
use vstd::prelude::*;

verus! {

/// What the listener reported after one wait.
#[derive(Debug)]
pub enum Accepted<T> {
    /// A connection came in; `T` is the task that will handle it.
    Connection(T),
    /// This one connection could not be accepted; the listener itself is
    /// sound.
    Transient,
    /// The listener is of no use any more.
    Fatal,
}

/// What became of a report, and with it what the loop does next.
#[derive(Debug)]
pub enum Turn<T> {
    /// The task is queued. The loop goes on.
    Dispatched,
    /// There was nothing to queue; the failure is to be logged. The loop goes
    /// on.
    Skipped,
    /// The pool takes no tasks any more: here is the task back, to be
    /// dropped by the caller. The loop ends.
    Refused(T),
    /// The listener failed and the pool was told to shut down. The loop ends.
    Halted,
}

impl<T> Turn<T> {
    /// Whether the loop goes on after this turn.
    pub open spec fn goes_on(self) -> bool {
        self is Dispatched || self is Skipped
    }

    /// Whether the loop goes on after this turn.
    pub fn keeps_accepting(&self) -> (on: bool)
        ensures
            on == self.goes_on(),
    {
        match self {
            Turn::Dispatched => true,
            Turn::Skipped => true,
            Turn::Refused(_) => false,
            Turn::Halted => false,
        }
    }
}

/// The pool after the listener reported `event`: a connection is offered to
/// it, a transient failure leaves it alone, a fatal one shuts it down.
pub open spec fn pool_after<T>(pool: Dispatch<T>, event: Accepted<T>) -> Dispatch<T> {
    match event {
        Accepted::Connection(task) => pool.execute(task),
        Accepted::Transient => pool,
        Accepted::Fatal => pool.shutdown(),
    }
}

/// What becomes of the report `event` at a pool in state `pool`.
pub open spec fn turn_for<T>(pool: Dispatch<T>, event: Accepted<T>) -> Turn<T> {
    match event {
        Accepted::Connection(task) => if pool.lifecycle is Running {
            Turn::Dispatched
        } else {
            Turn::Refused(task)
        },
        Accepted::Transient => Turn::Skipped,
        Accepted::Fatal => Turn::Halted,
    }
}

/// Handles one report of the listener. A connection's task is queued,
/// whatever the workers are doing, and the loop goes on; only a pool that no
/// longer takes tasks hands it back and ends the loop. A transient failure
/// changes nothing and the loop goes on. A fatal failure tells the pool to
/// shut down and ends the loop.
pub fn on_accept<T>(pool: &mut ThreadPool<T>, event: Accepted<T>) -> (turn: Turn<T>)
    requires
        old(pool).wf(),
    ensures
        final(pool).wf(),
        final(pool)@ == pool_after(old(pool)@, event),
        turn == turn_for(old(pool)@, event),
{
    match event {
        Accepted::Connection(task) => match pool.execute(task) {
            Ok(()) => Turn::Dispatched,
            Err(task) => Turn::Refused(task),
        },
        Accepted::Transient => Turn::Skipped,
        Accepted::Fatal => {
            pool.shutdown();
            Turn::Halted
        },
    }
}

} // verus!
