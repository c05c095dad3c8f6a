//! Per-worker relay decisions.
//!
//! A worker owns a private fixed-capacity slot table of connections.  The
//! relay loop outside this crate polls each owned connection, reports what
//! the read observed as a `ReadEvent`, and carries out the returned
//! `ReadAction`: broadcasting the received bytes to the listed slots, or
//! shutting a socket down after an eviction.

use vstd::prelude::*;

use crate::state::{combined_distinct, find_free_slot, lemma_occupied_all_none,
    lemma_occupied_all_some, lemma_occupied_bounds, lemma_occupied_pos, lemma_occupied_update,
    occupied, ConnId, SharedState};

verus! {

/// What a non-blocking read on one owned connection observed.
pub enum ReadEvent {
    /// No data ready; not an error.
    WouldBlock,
    /// Zero bytes read: the peer closed gracefully.
    Closed,
    /// Some bytes were read; they are to be broadcast.
    Data,
    /// A read error other than "would block".
    Failed,
}

/// What the relay loop must do after reporting a read.
pub enum ReadAction {
    /// Nothing to do for this slot.
    Ignored,
    /// The slot was evicted; drop the socket.
    Evicted,
    /// The slot was evicted; shut the socket down in both directions first.
    EvictedWithShutdown,
    /// Write the received bytes, exactly as read, to every listed slot.
    Broadcast { targets: Vec<usize> },
}

/// One worker's private slot table with its live count and the evictions not
/// yet reconciled into the shared counter.
pub struct WorkerState {
    /// Slot table owned by this worker alone.
    pub slots: Vec<Option<ConnId>>,
    /// Number of occupied slots.
    pub counter: usize,
    /// Evictions performed since the last reconciliation with the shared
    /// counter.
    pub drop_count: usize,
}

/// Worker `post` is worker `pre` with slot `i` evicted: the slot is cleared,
/// the live count shrinks by one and one pending reconciliation decrement is
/// recorded.  No other slot changes.
pub open spec fn evicted_at(pre: WorkerState, post: WorkerState, i: int) -> bool {
    &&& post.slots@ == pre.slots@.update(i, None::<ConnId>)
    &&& post.counter == pre.counter - 1
    &&& post.drop_count == pre.drop_count + 1
}

/// The targets of a broadcast from `sender`: exactly the occupied slots
/// other than the sender itself, in increasing order.
pub open spec fn broadcast_plan(w: WorkerState, sender: int, targets: Seq<usize>) -> bool {
    &&& forall|t: int|
        0 <= t < targets.len() ==> (#[trigger] targets[t] < w.slots@.len()
            && w.slots@[targets[t] as int] is Some && targets[t] != sender)
    &&& forall|k: int|
        0 <= k < w.slots@.len() && #[trigger] w.slots@[k] is Some && k != sender
            ==> targets.contains(k as usize)
    &&& forall|t1: int, t2: int|
        0 <= t1 < t2 < targets.len() ==> #[trigger] targets[t1] < #[trigger] targets[t2]
}

/// What one hand-off attempt decided.
pub struct PullOutcome {
    /// The termination flag was observed: the relay loop must exit.
    pub stopped: bool,
    /// The hand-off moves performed: each pair is a hand-off slot of the
    /// shared buffer and the worker slot its connection moved into.
    pub moves: Vec<(usize, usize)>,
}

/// One hand-off move is sound: it takes the connection of an occupied
/// hand-off slot into a previously empty worker slot.
pub open spec fn move_ok(
    q_pre: Seq<Option<ConnId>>,
    w_pre: Seq<Option<ConnId>>,
    q_post: Seq<Option<ConnId>>,
    w_post: Seq<Option<ConnId>>,
    m: (usize, usize),
) -> bool {
    &&& m.0 < q_pre.len()
    &&& m.1 < w_pre.len()
    &&& q_pre[m.0 as int] is Some
    &&& w_pre[m.1 as int] is None
    &&& q_post[m.0 as int] is None
    &&& w_post[m.1 as int] == q_pre[m.0 as int]
}

/// The move list accounts for exactly the difference between the tables
/// before and after a hand-off: every move is sound, no slot is moved
/// from or into twice, and every slot that changed is listed.
pub open spec fn moves_describe(
    q_pre: Seq<Option<ConnId>>,
    w_pre: Seq<Option<ConnId>>,
    q_post: Seq<Option<ConnId>>,
    w_post: Seq<Option<ConnId>>,
    moves: Seq<(usize, usize)>,
) -> bool {
    &&& forall|t: int|
        0 <= t < moves.len() ==> move_ok(q_pre, w_pre, q_post, w_post, #[trigger] moves[t])
    &&& forall|t1: int, t2: int|
        0 <= t1 < t2 < moves.len() ==> (#[trigger] moves[t1]).0 != (#[trigger] moves[t2]).0
            && moves[t1].1 != moves[t2].1
    &&& forall|i: int|
        #![trigger q_post[i]]
        0 <= i < q_pre.len() && q_post[i] != q_pre[i] ==> exists|t: int|
            0 <= t < moves.len() && (#[trigger] moves[t]).0 == i
    &&& forall|i: int|
        #![trigger w_post[i]]
        0 <= i < w_pre.len() && w_post[i] != w_pre[i] ==> exists|t: int|
            0 <= t < moves.len() && (#[trigger] moves[t]).1 == i
}

/// Relates the shared state and one worker before and after a hand-off
/// attempt under the shared lock.
pub open spec fn pull_transition(
    pre_s: SharedState,
    pre_w: WorkerState,
    post_s: SharedState,
    post_w: WorkerState,
    stopped: bool,
    moves: Seq<(usize, usize)>,
) -> bool {
    if pre_s.terminated {
        &&& stopped
        &&& post_s == pre_s
        &&& post_w == pre_w
        &&& moves.len() == 0
    } else {
        &&& !stopped
        &&& post_s.capacity == pre_s.capacity
        &&& !post_s.terminated
        &&& post_s.next_id == pre_s.next_id
        &&& post_s.queue@.len() == pre_s.queue@.len()
        &&& post_w.slots@.len() == pre_w.slots@.len()
        // the worker's pending evictions are reconciled into the counter
        &&& post_s.counter == pre_s.counter - pre_w.drop_count
        &&& post_w.drop_count == 0
        &&& post_w.counter == occupied(post_w.slots@)
        // connections are moved, never created or destroyed
        &&& occupied(post_s.queue@) + occupied(post_w.slots@) == occupied(pre_s.queue@)
            + occupied(pre_w.slots@)
        // as many pending connections as fit were pulled
        &&& (occupied(post_s.queue@) == 0 || post_w.counter == post_w.slots@.len())
        // the hand-off buffer only loses connections
        &&& (forall|i: int|
            #![trigger post_s.queue@[i]]
            0 <= i < pre_s.queue@.len() ==> (post_s.queue@[i] == pre_s.queue@[i]
                || post_s.queue@[i] is None))
        // the worker keeps everything it owned
        &&& (forall|i: int|
            0 <= i < pre_w.slots@.len() && #[trigger] pre_w.slots@[i] is Some
                ==> post_w.slots@[i] == pre_w.slots@[i])
        &&& moves_describe(pre_s.queue@, pre_w.slots@, post_s.queue@, post_w.slots@, moves)
        // the hand-off never duplicates an identifier
        &&& (combined_distinct(pre_s.queue@, pre_w.slots@) ==> combined_distinct(
            post_s.queue@,
            post_w.slots@,
        ))
    }
}

/// Relates a worker before and after it handles one read observation on slot
/// `i`, and the action it decides on.
pub open spec fn read_transition(
    pre: WorkerState,
    post: WorkerState,
    i: int,
    ev: ReadEvent,
    act: ReadAction,
) -> bool {
    if pre.slots@[i] is None || ev is WouldBlock {
        &&& post == pre
        &&& act is Ignored
    } else {
        match ev {
            ReadEvent::Closed => evicted_at(pre, post, i) && act is Evicted,
            ReadEvent::Failed => evicted_at(pre, post, i) && act is EvictedWithShutdown,
            ReadEvent::Data => {
                &&& post == pre
                &&& act matches ReadAction::Broadcast { targets } && broadcast_plan(
                    pre,
                    i,
                    targets@,
                )
            },
            ReadEvent::WouldBlock => false,
        }
    }
}

impl WorkerState {
    /// Local well-formedness: the live count equals the occupancy of the
    /// slot table, and together with the pending eviction decrements it
    /// never exceeds the table's capacity.
    pub open spec fn wf(self) -> bool {
        &&& self.counter == occupied(self.slots@)
        &&& self.counter + self.drop_count <= self.slots@.len()
    }

    /// Fresh worker with an empty slot table of the given capacity.
    pub fn new(per_capacity: usize) -> (r: Self)
        ensures
            r.wf(),
            r.slots@.len() == per_capacity,
            r.counter == 0,
            r.drop_count == 0,
            forall|i: int| 0 <= i < per_capacity ==> #[trigger] r.slots@[i] is None,
    {
        let mut slots: Vec<Option<ConnId>> = Vec::new();
        let mut i: usize = 0;
        while i < per_capacity
            invariant
                i <= per_capacity,
                slots@.len() == i,
                forall|j: int| 0 <= j < i ==> #[trigger] slots@[j] is None,
            decreases per_capacity - i,
        {
            slots.push(None);
            i += 1;
        }
        proof {
            lemma_occupied_all_none(slots@);
        }
        WorkerState { slots, counter: 0, drop_count: 0 }
    }

    /// Evict the connection in slot `i`.
    fn evict(&mut self, i: usize)
        requires
            old(self).wf(),
            i < old(self).slots@.len(),
            old(self).slots@[i as int] is Some,
        ensures
            final(self).wf(),
            evicted_at(*old(self), *final(self), i as int),
    {
        let n = self.slots.len();
        proof {
            lemma_occupied_pos(old(self).slots@, i as int);
            lemma_occupied_update(old(self).slots@, i as int, None);
            assert(old(self).drop_count < n);
        }
        self.slots[i] = None;
        self.counter = self.counter - 1;
        self.drop_count = self.drop_count + 1;
    }

    /// Handle one read observation on slot `i`.
    ///
    /// A graceful close or a read error evicts the connection read from; on
    /// an error its socket is also shut down in both directions.  Received
    /// data changes nothing and is answered with the broadcast plan: the
    /// bytes go to every other occupied slot, never back to the sender.  A
    /// "would block" observation, or a read reported against an empty slot,
    /// is ignored.
    pub fn read_step(&mut self, i: usize, ev: ReadEvent) -> (act: ReadAction)
        requires
            old(self).wf(),
            i < old(self).slots@.len(),
        ensures
            final(self).wf(),
            read_transition(*old(self), *final(self), i as int, ev, act),
    {
        if self.slots[i].is_none() {
            return ReadAction::Ignored;
        }
        match ev {
            ReadEvent::WouldBlock => ReadAction::Ignored,
            ReadEvent::Closed => {
                self.evict(i);
                ReadAction::Evicted
            },
            ReadEvent::Failed => {
                self.evict(i);
                ReadAction::EvictedWithShutdown
            },
            ReadEvent::Data => {
                let targets = self.broadcast_targets(i);
                ReadAction::Broadcast { targets }
            },
        }
    }

    /// The slots a payload read from slot `sender` is to be written to:
    /// every other occupied slot, in increasing order.
    pub fn broadcast_targets(&self, sender: usize) -> (targets: Vec<usize>)
        requires
            sender < self.slots@.len(),
        ensures
            broadcast_plan(*self, sender as int, targets@),
    {
        let mut targets: Vec<usize> = Vec::new();
        let mut k: usize = 0;
        while k < self.slots.len()
            invariant
                k <= self.slots@.len(),
                forall|t: int|
                    0 <= t < targets@.len() ==> (#[trigger] targets@[t] < k
                        && self.slots@[targets@[t] as int] is Some && targets@[t] != sender),
                forall|j: int|
                    0 <= j < k && #[trigger] self.slots@[j] is Some && j != sender
                        ==> targets@.contains(j as usize),
                forall|t1: int, t2: int|
                    0 <= t1 < t2 < targets@.len() ==> #[trigger] targets@[t1]
                        < #[trigger] targets@[t2],
            decreases self.slots@.len() - k,
        {
            if k != sender && self.slots[k].is_some() {
                let ghost targets0 = targets@;
                targets.push(k);
                proof {
                    assert forall|j: int|
                        0 <= j < k + 1 && #[trigger] self.slots@[j] is Some && j
                            != sender implies targets@.contains(j as usize) by {
                        if j == k {
                            assert(targets@[targets@.len() - 1] == k as usize);
                        } else {
                            assert(targets0.contains(j as usize));
                            let t = choose|t: int|
                                0 <= t < targets0.len() && targets0[t] == j as usize;
                            assert(targets@[t] == j as usize);
                        }
                    }
                }
            }
            k += 1;
        }
        targets
    }

    /// One hand-off attempt, run while the shared lock is held.
    ///
    /// If the termination flag is observed, nothing changes and the caller
    /// is told to stop.  Otherwise the worker first reconciles its pending
    /// eviction decrements into the shared counter, then pulls as many
    /// pending connections out of the hand-off buffer as fit into its free
    /// slots: afterwards the buffer is drained or the worker is full.  The
    /// returned move list says exactly which hand-off slot each pulled
    /// connection left and which worker slot it entered, so the caller can
    /// move the sockets the same way.
    pub fn pull_connections(&mut self, shared: &mut SharedState) -> (r: PullOutcome)
        requires
            old(self).wf(),
            old(shared).wf(),
            occupied(old(shared).queue@) + old(self).counter + old(self).drop_count <= old(shared).counter,
        ensures
            final(self).wf(),
            final(shared).wf(),
            pull_transition(
                *old(shared),
                *old(self),
                *final(shared),
                *final(self),
                r.stopped,
                r.moves@,
            ),
            occupied(final(shared).queue@) + final(self).counter + final(self).drop_count <= final(shared).counter,
    {
        if shared.is_terminated() {
            return PullOutcome { stopped: true, moves: Vec::new() };
        }
        proof {
            lemma_occupied_bounds(old(shared).queue@);
            lemma_occupied_bounds(old(self).slots@);
        }
        shared.counter = shared.counter - self.drop_count;
        self.drop_count = 0;
        let mut moves: Vec<(usize, usize)> = Vec::new();
        let mut qi: usize = 0;
        while qi < shared.queue.len() && self.counter < self.slots.len()
            invariant
                qi <= shared.queue@.len(),
                shared.queue@.len() == old(shared).queue@.len(),
                self.slots@.len() == old(self).slots@.len(),
                shared.capacity == old(shared).capacity,
                !shared.terminated,
                !old(shared).terminated,
                shared.next_id == old(shared).next_id,
                shared.counter == old(shared).counter - old(self).drop_count,
                occupied(old(shared).queue@) + old(self).counter + old(self).drop_count <= old(shared).counter,
                old(shared).wf(),
                old(self).wf(),
                self.drop_count == 0,
                self.counter == occupied(self.slots@),
                occupied(shared.queue@) + occupied(self.slots@) == occupied(old(shared).queue@)
                    + occupied(old(self).slots@),
                forall|i: int| 0 <= i < qi ==> #[trigger] shared.queue@[i] is None,
                forall|i: int|
                    #![trigger shared.queue@[i]]
                    0 <= i < shared.queue@.len() ==> (shared.queue@[i] == old(shared).queue@[i]
                        || shared.queue@[i] is None),
                forall|i: int|
                    0 <= i < self.slots@.len() && #[trigger] old(self).slots@[i] is Some
                        ==> self.slots@[i] == old(self).slots@[i],
                moves_describe(
                    old(shared).queue@,
                    old(self).slots@,
                    shared.queue@,
                    self.slots@,
                    moves@,
                ),
                combined_distinct(old(shared).queue@, old(self).slots@) ==> combined_distinct(
                    shared.queue@,
                    self.slots@,
                ),
            decreases shared.queue@.len() - qi,
        {
            if shared.queue[qi].is_some() {
                match find_free_slot(&self.slots) {
                    Some(wi) => {
                        let ghost q_snap = shared.queue@;
                        let ghost w_snap = self.slots@;
                        let ghost moves_snap = moves@;
                        let v = shared.queue[qi];
                        shared.queue[qi] = None;
                        self.slots[wi] = v;
                        self.counter = self.counter + 1;
                        moves.push((qi, wi));
                        proof {
                            lemma_occupied_update(q_snap, qi as int, None);
                            lemma_occupied_update(w_snap, wi as int, v);
                            assert(q_snap[qi as int] == old(shared).queue@[qi as int]);
                            assert(old(self).slots@[wi as int] is None);
                            assert(moves@ == moves_snap.push((qi, wi)));
                            assert forall|t: int| 0 <= t < moves@.len() implies move_ok(
                                old(shared).queue@,
                                old(self).slots@,
                                shared.queue@,
                                self.slots@,
                                #[trigger] moves@[t],
                            ) by {
                                if t < moves_snap.len() {
                                    assert(moves@[t] == moves_snap[t]);
                                    assert(move_ok(
                                        old(shared).queue@,
                                        old(self).slots@,
                                        q_snap,
                                        w_snap,
                                        moves_snap[t],
                                    ));
                                    assert(moves_snap[t].1 != wi);
                                } else {
                                    assert(moves@[t] == (qi, wi));
                                }
                            }
                            assert forall|t1: int, t2: int|
                                0 <= t1 < t2 < moves@.len() implies (#[trigger] moves@[t1]).0
                                != (#[trigger] moves@[t2]).0 && moves@[t1].1 != moves@[t2].1 by {
                                if t2 < moves_snap.len() {
                                    assert(moves@[t1] == moves_snap[t1]);
                                    assert(moves@[t2] == moves_snap[t2]);
                                } else {
                                    assert(moves@[t2] == (qi, wi));
                                    assert(moves@[t1] == moves_snap[t1]);
                                    assert(move_ok(
                                        old(shared).queue@,
                                        old(self).slots@,
                                        q_snap,
                                        w_snap,
                                        moves_snap[t1],
                                    ));
                                }
                            }
                            assert forall|i: int|
                                #![trigger shared.queue@[i]]
                                0 <= i < old(shared).queue@.len() && shared.queue@[i] != old(shared).queue@[i] implies exists|t: int|
                                0 <= t < moves@.len() && (#[trigger] moves@[t]).0 == i by {
                                if i == qi {
                                    assert(moves@[moves@.len() - 1].0 == i);
                                } else {
                                    assert(q_snap[i] != old(shared).queue@[i]);
                                    let t = choose|t: int|
                                        0 <= t < moves_snap.len() && (#[trigger] moves_snap[t]).0
                                            == i;
                                    assert(moves@[t].0 == i);
                                }
                            }
                            assert forall|i: int|
                                #![trigger self.slots@[i]]
                                0 <= i < old(self).slots@.len() && self.slots@[i] != old(self).slots@[i] implies exists|t: int|
                                0 <= t < moves@.len() && (#[trigger] moves@[t]).1 == i by {
                                if i == wi {
                                    assert(moves@[moves@.len() - 1].1 == i);
                                } else {
                                    assert(w_snap[i] != old(self).slots@[i]);
                                    let t = choose|t: int|
                                        0 <= t < moves_snap.len() && (#[trigger] moves_snap[t]).1
                                            == i;
                                    assert(moves@[t].1 == i);
                                }
                            }
                            if combined_distinct(old(shared).queue@, old(self).slots@) {
                                crate::state::lemma_move_preserves_combined_distinct(
                                    q_snap,
                                    w_snap,
                                    qi as int,
                                    wi as int,
                                );
                            }
                        }
                    },
                    None => {
                        proof {
                            lemma_occupied_all_some(self.slots@);
                            assert(false);
                        }
                    },
                }
            }
            qi += 1;
        }
        proof {
            if qi == shared.queue@.len() {
                lemma_occupied_all_none(shared.queue@);
            }
            assert forall|i: int|
                0 <= i < shared.queue@.len() && #[trigger] shared.queue@[i] is Some implies shared.queue@[i]->0
                < shared.next_id by {
                assert(shared.queue@[i] == old(shared).queue@[i]);
                assert(old(shared).queue@[i] is Some);
            }
            assert forall|i: int, j: int|
                0 <= i < shared.queue@.len() && 0 <= j < shared.queue@.len() && i != j
                    && #[trigger] shared.queue@[i] is Some implies shared.queue@[i]
                != #[trigger] shared.queue@[j] by {
                assert(shared.queue@[i] == old(shared).queue@[i]);
                assert(old(shared).queue@[i] is Some);
                if shared.queue@[j] is Some {
                    assert(shared.queue@[j] == old(shared).queue@[j]);
                }
            }
            lemma_occupied_bounds(self.slots@);
            lemma_occupied_bounds(shared.queue@);
        }
        PullOutcome { stopped: false, moves }
    }

    /// Evict the connection in slot `k` after a broadcast write to it
    /// failed.  The sender of the payload is untouched; only the slot
    /// written to is cleared, and its socket is to be shut down in both
    /// directions.
    pub fn write_failed(&mut self, k: usize)
        requires
            old(self).wf(),
            k < old(self).slots@.len(),
            old(self).slots@[k as int] is Some,
        ensures
            final(self).wf(),
            evicted_at(*old(self), *final(self), k as int),
    {
        self.evict(k);
    }
}

/// Broadcast law: a payload read from slot `sender` is delivered to exactly
/// the other occupied slots of the same worker.  Every other connected peer
/// is a target exactly once, the sender is never a target, and every target
/// is an occupied slot, so each such peer receives exactly the bytes of the
/// payload and the sender never receives its own payload back.
pub proof fn lemma_broadcast_reaches_exactly_peers(
    w: WorkerState,
    sender: usize,
    targets: Seq<usize>,
)
    requires
        broadcast_plan(w, sender as int, targets),
    ensures
        forall|k: int|
            0 <= k < w.slots@.len() && #[trigger] w.slots@[k] is Some && k != sender
                ==> targets.contains(k as usize),
        forall|t: int|
            0 <= t < targets.len() ==> #[trigger] targets[t] != sender
                && targets[t] < w.slots@.len() && w.slots@[targets[t] as int] is Some,
        !targets.contains(sender),
        forall|t1: int, t2: int|
            0 <= t1 < targets.len() && 0 <= t2 < targets.len() && t1 != t2
                ==> #[trigger] targets[t1] != #[trigger] targets[t2],
{
    assert(!targets.contains(sender)) by {
        if targets.contains(sender) {
            let t = choose|t: int| 0 <= t < targets.len() && targets[t] == sender;
            assert(targets[t] != sender);
        }
    }
}

} // verus!
