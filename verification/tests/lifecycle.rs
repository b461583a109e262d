//! Tests of the server lifecycle state machine and its idempotence, and of
//! the worker-queue model: FIFO delivery, exactly-once draining, and the
//! worker-loop decision.

use http_server::server::ServerState;
use http_server::thread_pool::{worker_step, TaskQueue, WorkerAction};

#[test]
fn stop_transitions_only_from_running() {
    assert_eq!(ServerState::Running.on_stop(), (ServerState::Stopping, true));
    // Stop on an already-Stopped or already-Stopping server is a no-op.
    assert_eq!(ServerState::Stopped.on_stop(), (ServerState::Stopped, false));
    assert_eq!(ServerState::Stopping.on_stop(), (ServerState::Stopping, false));
}

#[test]
fn test_lifecycle() {
    // A started server begins Stopped; an immediate stop without ever
    // listening leaves it Stopped.
    let state = ServerState::Stopped;
    let (state, poke) = state.on_stop();
    assert_eq!(state, ServerState::Stopped);
    assert!(!poke);

    // Listening moves Stopped to Running; a second listen call is a no-op.
    let (state, proceed) = state.on_begin_listen();
    assert_eq!(state, ServerState::Running);
    assert!(proceed);
    let (again, proceed2) = state.on_begin_listen();
    assert_eq!(again, ServerState::Running);
    assert!(!proceed2);

    // A stop request is observed by the accept loop, which then exits and
    // returns the server to Stopped.
    assert!(state.accepting());
    let (state, poke) = state.on_stop();
    assert_eq!(state, ServerState::Stopping);
    assert!(poke);
    assert!(!state.accepting());
    let state = state.on_finish_listen();
    assert_eq!(state, ServerState::Stopped);
}

#[test]
fn queue_delivers_in_fifo_order() {
    let mut q: TaskQueue<u32> = TaskQueue::new();
    q.push(10);
    q.push(20);
    q.push(30);
    assert_eq!(q.pop(), Some(10));
    assert_eq!(q.pop(), Some(20));
    q.push(40);
    assert_eq!(q.pop(), Some(30));
    assert_eq!(q.pop(), Some(40));
    assert_eq!(q.pop(), None);
}

#[test]
fn queue_drains_all_tasks_exactly_once() {
    // One hundred submitted tasks come out exactly once each, in order.
    let mut q: TaskQueue<usize> = TaskQueue::new();
    for i in 0..100 {
        q.push(i);
    }
    q.close();
    let drained = q.drain();
    assert_eq!(drained.len(), 100);
    for (i, t) in drained.iter().enumerate() {
        assert_eq!(*t, i);
    }
    assert!(q.finished());
    assert_eq!(q.pop(), None);
}

#[test]
fn worker_runs_tasks_until_queue_closes() {
    assert_eq!(worker_step(Some(7u32)), WorkerAction::Run(7));
    assert_eq!(worker_step::<u32>(None), WorkerAction::Exit);
}
