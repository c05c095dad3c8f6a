//! Admission control for the accept loop.
//!
//! The accept loop itself performs socket I/O and lives outside this crate;
//! it reports each poll of the listening socket as an `AcceptEvent` and
//! carries out the returned `AcceptAction`.

use vstd::prelude::*;

use crate::state::{distinct_slots, find_free_slot, ids_below, lemma_occupied_update, ConnId,
    SharedState};

verus! {

/// What one poll of the listening socket observed.
pub enum AcceptEvent {
    /// A new connection is pending.
    Incoming,
    /// No pending connection ("would block"); not an error.
    NoPending,
    /// A fatal accept error, anything other than "would block".
    Fatal,
}

/// What the accept loop must do next.
pub enum AcceptAction {
    /// The connection was admitted: it carries identifier `id` and was placed
    /// into hand-off slot `slot`.
    Admitted { id: ConnId, slot: usize },
    /// The system is at capacity: close the new connection immediately.
    Rejected,
    /// Nothing to do; poll again.
    Polled,
    /// Stop accepting: close any pending connection and exit the loop.
    Stopped,
}

/// Relates the shared state before and after one step of the accept loop.
pub open spec fn acceptor_transition(
    pre: SharedState,
    post: SharedState,
    ev: AcceptEvent,
    act: AcceptAction,
) -> bool {
    if pre.terminated {
        &&& act is Stopped
        &&& post == pre
    } else {
        match ev {
            AcceptEvent::NoPending => act is Polled && post == pre,
            AcceptEvent::Fatal => {
                &&& act is Stopped
                &&& SharedState::terminate_transition(pre, post)
            },
            AcceptEvent::Incoming => {
                if pre.counter < pre.capacity && (exists|k: int|
                    0 <= k < pre.queue@.len() && #[trigger] pre.queue@[k] is None) {
                    &&& act matches AcceptAction::Admitted { id, slot } && {
                        &&& id == pre.next_id
                        &&& slot < pre.queue@.len()
                        &&& pre.queue@[slot as int] is None
                        &&& (forall|j: int| 0 <= j < slot ==> #[trigger] pre.queue@[j] is Some)
                        &&& post.queue@ == pre.queue@.update(slot as int, Some(pre.next_id))
                    }
                    &&& post.counter == pre.counter + 1
                    &&& post.next_id == pre.next_id + 1
                    &&& post.capacity == pre.capacity
                    &&& !post.terminated
                } else {
                    &&& act is Rejected
                    &&& post == pre
                }
            },
        }
    }
}

impl SharedState {
    /// One decision step of the accept loop.
    ///
    /// On `Incoming` below capacity the connection is admitted: it is given a
    /// fresh identifier and placed into the first free hand-off slot, and the
    /// live counter grows by one.  At capacity it is rejected and nothing
    /// changes.  Once the termination flag is observed the loop is told to
    /// stop, whatever the event; no connection is ever admitted afterward.  A
    /// fatal accept error also raises the termination flag, so the workers
    /// observe the stop as well.
    pub fn acceptor_step(&mut self, ev: AcceptEvent) -> (act: AcceptAction)
        requires
            old(self).wf(),
            old(self).next_id < ConnId::MAX,
        ensures
            final(self).wf(),
            acceptor_transition(*old(self), *final(self), ev, act),
            old(self).terminated ==> final(self).terminated,
    {
        if self.terminated {
            return AcceptAction::Stopped;
        }
        match ev {
            AcceptEvent::NoPending => AcceptAction::Polled,
            AcceptEvent::Fatal => {
                self.terminated = true;
                AcceptAction::Stopped
            },
            AcceptEvent::Incoming => {
                if self.counter < self.capacity {
                    match find_free_slot(&self.queue) {
                        Some(slot) => {
                            let id = self.next_id;
                            self.queue[slot] = Some(id);
                            self.counter = self.counter + 1;
                            self.next_id = self.next_id + 1;
                            proof {
                                let q0 = old(self).queue@;
                                let q1 = self.queue@;
                                let s = slot as int;
                                lemma_occupied_update(q0, s, Some(id));
                                assert forall|i: int|
                                    0 <= i < q1.len() && #[trigger] q1[i] is Some implies q1[i]->0
                                    < self.next_id by {
                                    if i != s {
                                        assert(q0[i] is Some);
                                    }
                                }
                                assert(ids_below(q1, self.next_id));
                                assert forall|i: int, j: int|
                                    0 <= i < q1.len() && 0 <= j < q1.len() && i != j
                                        && #[trigger] q1[i] is Some implies q1[i]
                                    != #[trigger] q1[j] by {
                                    if i == s {
                                        if q1[j] is Some {
                                            assert(q0[j] is Some);
                                            assert(q0[j]->0 < id);
                                        }
                                    } else if j == s {
                                        assert(q0[i] is Some);
                                        assert(q0[i]->0 < id);
                                    } else {
                                        assert(q0[i] is Some);
                                    }
                                }
                                assert(distinct_slots(q1));
                            }
                            AcceptAction::Admitted { id, slot }
                        },
                        None => {
                            // Cannot happen: the counter is below capacity,
                            // and the counter bounds the occupancy of the
                            // hand-off buffer.
                            proof {
                                crate::state::lemma_occupied_all_some(self.queue@);
                            }
                            AcceptAction::Rejected
                        },
                    }
                } else {
                    AcceptAction::Rejected
                }
            },
        }
    }
}

/// With a well-formed shared state, an incoming connection is rejected if and
/// only if the live counter already stands at capacity; a rejection changes
/// nothing.
pub proof fn lemma_reject_iff_at_capacity(
    pre: SharedState,
    post: SharedState,
    act: AcceptAction,
)
    requires
        pre.wf(),
        !pre.terminated,
        acceptor_transition(pre, post, AcceptEvent::Incoming, act),
    ensures
        act is Rejected <==> pre.counter == pre.capacity,
        act is Rejected ==> post == pre,
{
    if pre.counter < pre.capacity {
        crate::state::lemma_occupied_not_full(pre.queue@);
    }
}

} // verus!
