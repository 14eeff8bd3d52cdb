use vpn::dispatch::Assignment;
use vpn::dispatch::Lifecycle;
use vpn::listener::on_accept;
use vpn::listener::Accepted;
use vpn::listener::Turn;
use vpn::pool::ThreadPool;

fn pool_of(workers: u32) -> ThreadPool<&'static str> {
    match ThreadPool::new(workers) {
        Ok(pool) => pool,
        Err(e) => panic!("no pool: {:?}", e),
    }
}

#[test]
fn connection_is_dispatched() {
    let mut pool = pool_of(2);
    let turn = on_accept(&mut pool, Accepted::Connection("a"));
    assert!(matches!(turn, Turn::Dispatched));
    assert!(turn.keeps_accepting());
    assert_eq!(pool.pending(), 1);
    assert_eq!(pool.lifecycle(), Lifecycle::Running);
    assert!(matches!(pool.take(0), Ok(Assignment::Run("a"))));
}

#[test]
fn connections_are_dispatched_while_every_worker_is_busy() {
    let mut pool = pool_of(1);
    assert!(matches!(
        on_accept(&mut pool, Accepted::Connection("a")),
        Turn::Dispatched
    ));
    assert!(matches!(pool.take(0), Ok(Assignment::Run("a"))));
    for task in ["b", "c", "d"] {
        assert!(matches!(
            on_accept(&mut pool, Accepted::Connection(task)),
            Turn::Dispatched
        ));
    }
    assert_eq!(pool.pending(), 3);
}

#[test]
fn transient_failure_is_skipped() {
    let mut pool = pool_of(2);
    assert!(matches!(
        on_accept(&mut pool, Accepted::Connection("a")),
        Turn::Dispatched
    ));
    let turn = on_accept(&mut pool, Accepted::Transient);
    assert!(matches!(turn, Turn::Skipped));
    assert!(turn.keeps_accepting());
    assert_eq!(pool.pending(), 1);
    assert_eq!(pool.lifecycle(), Lifecycle::Running);
    assert!(matches!(
        on_accept(&mut pool, Accepted::Connection("b")),
        Turn::Dispatched
    ));
    assert_eq!(pool.pending(), 2);
}

#[test]
fn fatal_failure_halts_and_drains() {
    let mut pool = pool_of(2);
    assert!(matches!(
        on_accept(&mut pool, Accepted::Connection("a")),
        Turn::Dispatched
    ));
    let turn = on_accept(&mut pool, Accepted::Fatal);
    assert!(matches!(turn, Turn::Halted));
    assert!(!turn.keeps_accepting());
    assert_eq!(pool.lifecycle(), Lifecycle::Draining);
    assert_eq!(pool.pending(), 1);
    assert!(matches!(pool.take(1), Ok(Assignment::Run("a"))));
}

#[test]
fn connection_is_handed_back_by_a_pool_that_shuts_down() {
    let mut pool = pool_of(2);
    pool.shutdown();
    let turn = on_accept(&mut pool, Accepted::Connection("late"));
    assert!(!turn.keeps_accepting());
    match turn {
        Turn::Refused(task) => assert_eq!(task, "late"),
        other => panic!("{:?}", other),
    }
    assert_eq!(pool.pending(), 0);
    assert_eq!(pool.lifecycle(), Lifecycle::Draining);
}

#[test]
fn transient_failure_leaves_a_draining_pool_draining() {
    let mut pool = pool_of(1);
    pool.shutdown();
    assert!(matches!(
        on_accept(&mut pool, Accepted::Transient),
        Turn::Skipped
    ));
    assert_eq!(pool.lifecycle(), Lifecycle::Draining);
}

#[test]
fn fatal_failure_leaves_a_stopped_pool_stopped() {
    let mut pool = pool_of(1);
    pool.shutdown();
    assert!(matches!(pool.take(0), Ok(Assignment::Exit)));
    assert!(matches!(on_accept(&mut pool, Accepted::Fatal), Turn::Halted));
    assert_eq!(pool.lifecycle(), Lifecycle::Stopped);
}
