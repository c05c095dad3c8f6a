//! Scenario tests that drive the relay's state machines the way the
//! surrounding program does: the acceptor admits or rejects connections,
//! workers pull them out of the hand-off buffer, relay payloads and evict
//! dead peers, and the termination flag winds everything down.

use tcp_relay::acceptor::{AcceptAction, AcceptEvent};
use tcp_relay::state::{per_worker_capacity, SharedState};
use tcp_relay::worker::{ReadAction, ReadEvent, WorkerState};

fn connect(s: &mut SharedState) -> (u64, usize) {
    match s.acceptor_step(AcceptEvent::Incoming) {
        AcceptAction::Admitted { id, slot } => (id, slot),
        _ => panic!("expected admission"),
    }
}

#[test]
fn fresh_state_is_empty() {
    let s = SharedState::new(4);
    assert_eq!(s.capacity, 4);
    assert_eq!(s.counter, 0);
    assert!(!s.is_terminated());
    assert_eq!(s.queue.len(), 4);
    assert!(s.queue.iter().all(|c| c.is_none()));

    let w = WorkerState::new(4);
    assert_eq!(w.counter, 0);
    assert_eq!(w.drop_count, 0);
    assert_eq!(w.slots.len(), 4);
    assert!(w.slots.iter().all(|c| c.is_none()));
}

#[test]
fn per_worker_capacity_divides_evenly() {
    assert_eq!(per_worker_capacity(10, 1), 10);
    assert_eq!(per_worker_capacity(10, 2), 5);
    // uneven division loses the remainder: a documented limitation
    assert_eq!(per_worker_capacity(10, 3), 3);
}

#[test]
fn identifiers_are_fresh_and_slots_first_free() {
    let mut s = SharedState::new(3);
    assert_eq!(connect(&mut s), (0, 0));
    assert_eq!(connect(&mut s), (1, 1));
    assert_eq!(connect(&mut s), (2, 2));
    assert_eq!(s.counter, 3);
}

#[test]
fn no_pending_polls_again() {
    let mut s = SharedState::new(2);
    assert!(matches!(s.acceptor_step(AcceptEvent::NoPending), AcceptAction::Polled));
    assert_eq!(s.counter, 0);
}

#[test]
fn capacity_rejection_keeps_counter() {
    // capacity = 2, two clients already connected: a third attempt is
    // rejected with nothing exchanged and the live count stays at 2.
    let mut s = SharedState::new(2);
    connect(&mut s);
    connect(&mut s);
    let act = s.acceptor_step(AcceptEvent::Incoming);
    assert!(matches!(act, AcceptAction::Rejected));
    assert_eq!(s.counter, 2);
}

#[test]
fn handoff_reports_exact_moves() {
    let mut s = SharedState::new(2);
    connect(&mut s);
    connect(&mut s);
    let mut w = WorkerState::new(1);
    let r = w.pull_connections(&mut s);
    assert!(!r.stopped);
    // only one fits: hand-off slot 0 moved into worker slot 0
    assert_eq!(r.moves, vec![(0, 0)]);
    assert_eq!(w.counter, 1);
    assert_eq!(w.slots[0], Some(0));
    // the other connection still waits in the hand-off buffer
    assert_eq!(s.queue[1], Some(1));
    assert_eq!(s.counter, 2);
}

#[test]
fn broadcast_reaches_every_peer_but_not_sender() {
    let mut s = SharedState::new(3);
    for _ in 0..3 {
        connect(&mut s);
    }
    let mut w = WorkerState::new(3);
    w.pull_connections(&mut s);
    assert_eq!(w.counter, 3);
    match w.read_step(1, ReadEvent::Data) {
        ReadAction::Broadcast { targets } => {
            assert_eq!(targets, vec![0, 2]);
        }
        _ => panic!("expected a broadcast"),
    }
    // the read itself changes no ownership
    assert_eq!(w.counter, 3);
    assert_eq!(w.drop_count, 0);
}

#[test]
fn would_block_and_empty_slots_are_ignored() {
    let mut s = SharedState::new(2);
    connect(&mut s);
    let mut w = WorkerState::new(2);
    w.pull_connections(&mut s);
    assert!(matches!(w.read_step(0, ReadEvent::WouldBlock), ReadAction::Ignored));
    // slot 1 is empty: whatever is reported against it is ignored
    assert!(matches!(w.read_step(1, ReadEvent::Closed), ReadAction::Ignored));
    assert_eq!(w.counter, 1);
    assert_eq!(w.drop_count, 0);
}

#[test]
fn read_error_evicts_with_shutdown() {
    let mut s = SharedState::new(1);
    connect(&mut s);
    let mut w = WorkerState::new(1);
    w.pull_connections(&mut s);
    assert!(matches!(w.read_step(0, ReadEvent::Failed), ReadAction::EvictedWithShutdown));
    assert!(w.slots[0].is_none());
    assert_eq!(w.counter, 0);
    assert_eq!(w.drop_count, 1);
}

#[test]
fn write_failure_evicts_peer_not_sender() {
    let mut s = SharedState::new(3);
    for _ in 0..3 {
        connect(&mut s);
    }
    let mut w = WorkerState::new(3);
    w.pull_connections(&mut s);
    let targets = match w.read_step(0, ReadEvent::Data) {
        ReadAction::Broadcast { targets } => targets,
        _ => panic!("expected a broadcast"),
    };
    assert_eq!(targets, vec![1, 2]);
    // the write to slot 1 fails: that peer is evicted, the sender stays
    w.write_failed(1);
    assert!(w.slots[1].is_none());
    assert!(w.slots[0].is_some());
    assert!(w.slots[2].is_some());
    assert_eq!(w.counter, 2);
    assert_eq!(w.drop_count, 1);
    // the next broadcast from the sender no longer lists the dead peer
    match w.read_step(0, ReadEvent::Data) {
        ReadAction::Broadcast { targets } => assert_eq!(targets, vec![2]),
        _ => panic!("expected a broadcast"),
    }
}

#[test]
fn eviction_reconciles_into_shared_counter() {
    let mut s = SharedState::new(2);
    connect(&mut s);
    connect(&mut s);
    let mut w = WorkerState::new(2);
    w.pull_connections(&mut s);
    assert_eq!(s.counter, 2);
    w.read_step(0, ReadEvent::Closed);
    w.read_step(1, ReadEvent::Closed);
    assert_eq!(w.drop_count, 2);
    // the shared counter learns of the evictions at the next hand-off
    assert_eq!(s.counter, 2);
    let r = w.pull_connections(&mut s);
    assert!(!r.stopped);
    assert_eq!(s.counter, 0);
    assert_eq!(w.drop_count, 0);
}

#[test]
fn eviction_frees_slot_for_reuse() {
    // after a client closes, its slot becomes available and a later
    // connection occupies exactly that freed slot.
    let mut s = SharedState::new(2);
    connect(&mut s);
    connect(&mut s);
    let mut w = WorkerState::new(2);
    w.pull_connections(&mut s);
    w.read_step(0, ReadEvent::Closed);
    assert!(w.slots[0].is_none());
    let r = w.pull_connections(&mut s);
    assert!(r.moves.is_empty());
    assert_eq!(s.counter, 1);
    let (id, qslot) = connect(&mut s);
    assert_eq!(id, 2);
    assert_eq!(s.counter, 2);
    let r = w.pull_connections(&mut s);
    // the new connection lands in the freed worker slot
    assert_eq!(r.moves, vec![(qslot, 0)]);
    assert_eq!(w.slots[0], Some(2));
}

#[test]
fn shutdown_stops_admission_and_workers() {
    let mut s = SharedState::new(2);
    connect(&mut s);
    let mut w = WorkerState::new(2);
    w.pull_connections(&mut s);
    s.set_terminated();
    assert!(s.is_terminated());
    // no connection initiated after the signal is ever accepted
    assert!(matches!(s.acceptor_step(AcceptEvent::Incoming), AcceptAction::Stopped));
    assert_eq!(s.counter, 1);
    // the worker observes the stop at its next hand-off attempt
    let r = w.pull_connections(&mut s);
    assert!(r.stopped);
    assert!(r.moves.is_empty());
}

#[test]
fn fatal_accept_error_raises_termination() {
    let mut s = SharedState::new(2);
    assert!(matches!(s.acceptor_step(AcceptEvent::Fatal), AcceptAction::Stopped));
    assert!(s.is_terminated());
    // workers wind down as after an ordinary shutdown
    let mut w = WorkerState::new(2);
    let r = w.pull_connections(&mut s);
    assert!(r.stopped);
}

#[test]
fn end_to_end_two_clients() {
    // capacity = 2, one worker.  Connect A and B.  A sends "hi" and B
    // receives exactly "hi".  C is rejected with the counter still 2.
    // A disconnects and the counter becomes 1.  D then connects and the
    // counter becomes 2 again.
    let mut s = SharedState::new(2);
    let mut w = WorkerState::new(2);
    let (a_id, _) = connect(&mut s);
    let (b_id, _) = connect(&mut s);
    assert_eq!(s.counter, 2);
    let r = w.pull_connections(&mut s);
    assert_eq!(r.moves.len(), 2);
    assert_eq!(w.slots[0], Some(a_id));
    assert_eq!(w.slots[1], Some(b_id));

    // A (slot 0) sends "hi"; the worker writes the exact bytes to each
    // listed slot, here only B's.
    let payload = b"hi".to_vec();
    let mut inboxes: Vec<Vec<u8>> = vec![Vec::new(), Vec::new()];
    match w.read_step(0, ReadEvent::Data) {
        ReadAction::Broadcast { targets } => {
            for t in targets {
                inboxes[t].extend_from_slice(&payload);
            }
        }
        _ => panic!("expected a broadcast"),
    }
    assert_eq!(inboxes[1], b"hi".to_vec());
    assert!(inboxes[0].is_empty());

    // C is rejected, the counter stays at 2
    assert!(matches!(s.acceptor_step(AcceptEvent::Incoming), AcceptAction::Rejected));
    assert_eq!(s.counter, 2);

    // A disconnects; after reconciliation the counter is 1
    assert!(matches!(w.read_step(0, ReadEvent::Closed), ReadAction::Evicted));
    w.pull_connections(&mut s);
    assert_eq!(s.counter, 1);

    // D connects and takes the freed capacity
    let (d_id, _) = connect(&mut s);
    assert_eq!(s.counter, 2);
    let r = w.pull_connections(&mut s);
    assert_eq!(r.moves.len(), 1);
    assert_eq!(w.slots[0], Some(d_id));
}
