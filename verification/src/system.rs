//! Whole-system model and its invariant.
//!
//! At run time the shared coordination state is reached from every thread
//! under a lock, and each worker state is private to its thread.  For
//! reasoning, this module views the whole system at once: the shared state
//! together with the sequence of all worker states.  The invariant below is
//! established by the constructors and preserved by every transition of the
//! acceptor and of the workers, as the preservation lemmas state.

use vstd::prelude::*;

use crate::acceptor::{acceptor_transition, AcceptAction, AcceptEvent};
use crate::state::{combined_distinct, disjoint_slots, distinct_slots, holds_id, ids_below,
    lemma_occupied_all_none, lemma_occupied_bounds, lemma_occupied_update, occupied, ConnId,
    SharedState};
use crate::worker::{evicted_at, move_ok, pull_transition, read_transition, ReadEvent,
    WorkerState, ReadAction};

verus! {

/// The whole system at one instant: the shared coordination state and every
/// worker's private state.
pub struct SystemModel {
    pub shared: SharedState,
    pub workers: Seq<WorkerState>,
}

/// Sum over the workers of live count plus pending eviction decrements:
/// everything the shared counter still accounts to the workers.
pub open spec fn workers_load(ws: Seq<WorkerState>) -> int
    decreases ws.len(),
{
    if ws.len() == 0 {
        0
    } else {
        workers_load(ws.drop_last()) + ws.last().counter + ws.last().drop_count
    }
}

/// Sum over the workers of the occupancy of their slot tables.
pub open spec fn workers_occupied(ws: Seq<WorkerState>) -> int
    decreases ws.len(),
{
    if ws.len() == 0 {
        0
    } else {
        workers_occupied(ws.drop_last()) + occupied(ws.last().slots@)
    }
}

/// Number of live connections in the whole system: connections waiting in
/// the hand-off buffer plus connections owned by some worker.
pub open spec fn live_connections(sys: SystemModel) -> int {
    occupied(sys.shared.queue@) + workers_occupied(sys.workers)
}

/// The system invariant.
pub open spec fn sys_inv(sys: SystemModel) -> bool {
    &&& sys.shared.wf()
    &&& (forall|w: int| 0 <= w < sys.workers.len() ==> (#[trigger] sys.workers[w]).wf())
    &&& sys.shared.counter == occupied(sys.shared.queue@) + workers_load(sys.workers)
    &&& (forall|w: int|
        0 <= w < sys.workers.len() ==> ids_below(
            (#[trigger] sys.workers[w]).slots@,
            sys.shared.next_id,
        ))
    &&& (forall|w: int|
        0 <= w < sys.workers.len() ==> distinct_slots((#[trigger] sys.workers[w]).slots@))
    &&& (forall|w: int|
        0 <= w < sys.workers.len() ==> disjoint_slots(
            sys.shared.queue@,
            (#[trigger] sys.workers[w]).slots@,
        ))
    &&& (forall|w1: int, w2: int|
        0 <= w1 < sys.workers.len() && 0 <= w2 < sys.workers.len() && w1 != w2 ==> disjoint_slots(
            (#[trigger] sys.workers[w1]).slots@,
            (#[trigger] sys.workers[w2]).slots@,
        ))
}

/// The load a sequence of well-formed workers carries is at least the
/// occupancy of their tables, and both are nonnegative.
pub proof fn lemma_loads_bound_occupancy(ws: Seq<WorkerState>)
    requires
        forall|w: int| 0 <= w < ws.len() ==> (#[trigger] ws[w]).wf(),
    ensures
        0 <= workers_occupied(ws) <= workers_load(ws),
    decreases ws.len(),
{
    if ws.len() > 0 {
        assert(forall|w: int| 0 <= w < ws.drop_last().len() ==> (#[trigger] ws.drop_last()[w]).wf());
        lemma_loads_bound_occupancy(ws.drop_last());
        assert(ws[ws.len() - 1].wf());
        lemma_occupied_bounds(ws.last().slots@);
    }
}

/// In every state satisfying the invariant, the number of live connections
/// across the whole system never exceeds the configured capacity.
pub proof fn lemma_live_connections_bounded(sys: SystemModel)
    requires
        sys_inv(sys),
    ensures
        0 <= live_connections(sys) <= sys.shared.capacity,
{
    lemma_loads_bound_occupancy(sys.workers);
    lemma_occupied_bounds(sys.shared.queue@);
}

/// Ownership law: a connection is present in at most one owning structure
/// at any instant.  An identifier is never held both by the hand-off buffer
/// and by a worker, never by two workers, and never by two slots of the
/// same table.
pub proof fn lemma_at_most_one_owner(sys: SystemModel, id: ConnId)
    requires
        sys_inv(sys),
    ensures
        !(holds_id(sys.shared.queue@, id) && exists|w: int|
            0 <= w < sys.workers.len() && holds_id((#[trigger] sys.workers[w]).slots@, id)),
        forall|w1: int, w2: int|
            0 <= w1 < sys.workers.len() && 0 <= w2 < sys.workers.len() && w1 != w2 && holds_id(
                (#[trigger] sys.workers[w1]).slots@,
                id,
            ) ==> !holds_id((#[trigger] sys.workers[w2]).slots@, id),
        forall|i: int, j: int|
            0 <= i < sys.shared.queue@.len() && 0 <= j < sys.shared.queue@.len() && i != j
                && #[trigger] sys.shared.queue@[i] == Some(id) ==> #[trigger] sys.shared.queue@[j]
                != Some(id),
        forall|w: int, i: int, j: int|
            #![trigger sys.workers[w].slots@[i], sys.workers[w].slots@[j]]
            0 <= w < sys.workers.len() && 0 <= i < sys.workers[w].slots@.len() && 0 <= j
                < sys.workers[w].slots@.len() && i != j && sys.workers[w].slots@[i] == Some(id)
                ==> sys.workers[w].slots@[j] != Some(id),
{
    if holds_id(sys.shared.queue@, id) {
        let i = choose|i: int|
            0 <= i < sys.shared.queue@.len() && sys.shared.queue@[i] == Some(id);
        assert forall|w: int|
            0 <= w < sys.workers.len() implies !holds_id(
            (#[trigger] sys.workers[w]).slots@,
            id,
        ) by {
            if holds_id(sys.workers[w].slots@, id) {
                let j = choose|j: int|
                    0 <= j < sys.workers[w].slots@.len() && sys.workers[w].slots@[j] == Some(id);
                assert(sys.shared.queue@[i] != sys.workers[w].slots@[j]);
            }
        }
    }
    assert forall|w1: int, w2: int|
        0 <= w1 < sys.workers.len() && 0 <= w2 < sys.workers.len() && w1 != w2 && holds_id(
            (#[trigger] sys.workers[w1]).slots@,
            id,
        ) implies !holds_id((#[trigger] sys.workers[w2]).slots@, id) by {
        let i = choose|i: int|
            0 <= i < sys.workers[w1].slots@.len() && sys.workers[w1].slots@[i] == Some(id);
        if holds_id(sys.workers[w2].slots@, id) {
            let j = choose|j: int|
                0 <= j < sys.workers[w2].slots@.len() && sys.workers[w2].slots@[j] == Some(id);
            assert(sys.workers[w1].slots@[i] != sys.workers[w2].slots@[j]);
        }
    }
}

/// Sum frame lemma: when only worker `j` changes, the sums over the workers
/// change by exactly that worker's difference.
proof fn lemma_sums_pointwise(pre: Seq<WorkerState>, post: Seq<WorkerState>, j: int)
    requires
        pre.len() == post.len(),
        0 <= j < pre.len(),
        forall|w: int| 0 <= w < pre.len() && w != j ==> post[w] == #[trigger] pre[w],
    ensures
        workers_load(post) == workers_load(pre) - pre[j].counter - pre[j].drop_count + post[j].counter
            + post[j].drop_count,
        workers_occupied(post) == workers_occupied(pre) - occupied(pre[j].slots@) + occupied(
            post[j].slots@,
        ),
    decreases pre.len(),
{
    if j == pre.len() - 1 {
        assert(pre.drop_last() =~= post.drop_last());
    } else {
        assert forall|w: int|
            0 <= w < pre.drop_last().len() && w != j implies post.drop_last()[w]
            == #[trigger] pre.drop_last()[w] by {
            assert(post[w] == pre[w]);
        }
        lemma_sums_pointwise(pre.drop_last(), post.drop_last(), j);
        assert(post.last() == pre.last());
        assert(pre.drop_last()[j] == pre[j]);
        assert(post.drop_last()[j] == post[j]);
    }
}

/// Acceptor law: one step of the accept loop preserves the system
/// invariant, and the termination flag is monotonic across it.
pub proof fn lemma_acceptor_preserves_inv(
    pre: SystemModel,
    post: SystemModel,
    ev: AcceptEvent,
    act: AcceptAction,
)
    requires
        sys_inv(pre),
        acceptor_transition(pre.shared, post.shared, ev, act),
        post.shared.wf(),
        post.workers == pre.workers,
    ensures
        sys_inv(post),
        pre.shared.terminated ==> post.shared.terminated,
{
    if !pre.shared.terminated && ev is Incoming {
        match act {
            AcceptAction::Admitted { id, slot } => {
                let q0 = pre.shared.queue@;
                let q1 = post.shared.queue@;
                let s = slot as int;
                lemma_occupied_update(q0, s, Some(id));
                assert forall|w: int|
                    0 <= w < post.workers.len() implies ids_below(
                    (#[trigger] post.workers[w]).slots@,
                    post.shared.next_id,
                ) by {
                    assert(ids_below(pre.workers[w].slots@, pre.shared.next_id));
                    assert forall|i: int|
                        0 <= i < post.workers[w].slots@.len()
                            && #[trigger] post.workers[w].slots@[i] is Some implies post.workers[w].slots@[i]->0
                        < post.shared.next_id by {
                        assert(pre.workers[w].slots@[i] is Some);
                    }
                }
                assert forall|w: int|
                    0 <= w < post.workers.len() implies disjoint_slots(
                    post.shared.queue@,
                    (#[trigger] post.workers[w]).slots@,
                ) by {
                    let ws = post.workers[w].slots@;
                    assert forall|i: int, k: int|
                        0 <= i < q1.len() && 0 <= k < ws.len() && #[trigger] q1[i] is Some implies q1[i]
                        != #[trigger] ws[k] by {
                        if i == s {
                            if ws[k] is Some {
                                assert(pre.workers[w].slots@[k] is Some);
                                assert(ws[k]->0 < pre.shared.next_id);
                            }
                        } else {
                            assert(q0[i] is Some);
                            assert(disjoint_slots(q0, pre.workers[w].slots@));
                        }
                    }
                }
            },
            _ => {},
        }
    }
}

/// Shutdown law: raising the termination flag preserves the system
/// invariant and leaves every connection where it was; once raised, the
/// flag stays raised, and no later accept step ever admits a connection.
pub proof fn lemma_terminate_preserves_inv(pre: SystemModel, post: SystemModel)
    requires
        sys_inv(pre),
        SharedState::terminate_transition(pre.shared, post.shared),
        post.workers == pre.workers,
    ensures
        sys_inv(post),
        post.shared.terminated,
        live_connections(post) == live_connections(pre),
{
}

/// Once the termination flag is set, an accept step admits nothing and
/// changes nothing: no connection initiated after the signal is ever
/// accepted.
pub proof fn lemma_no_admission_after_shutdown(
    pre: SystemModel,
    post: SystemModel,
    ev: AcceptEvent,
    act: AcceptAction,
)
    requires
        pre.shared.terminated,
        acceptor_transition(pre.shared, post.shared, ev, act),
    ensures
        act is Stopped,
        post.shared == pre.shared,
        post.shared.terminated,
{
}

/// Once the termination flag is set, a hand-off attempt tells the worker to
/// stop and hands nothing over.
pub proof fn lemma_workers_stop_after_shutdown(
    pre: SystemModel,
    post: SystemModel,
    j: int,
    stopped: bool,
    moves: Seq<(usize, usize)>,
)
    requires
        pre.shared.terminated,
        0 <= j < pre.workers.len(),
        pull_transition(pre.shared, pre.workers[j], post.shared, post.workers[j], stopped, moves),
    ensures
        stopped,
        moves.len() == 0,
        post.shared == pre.shared,
        post.workers[j] == pre.workers[j],
{
}

/// Eviction law: clearing one owned slot (after a graceful close, a read
/// error, or a failed broadcast write) preserves the system invariant, and
/// the number of live connections drops by exactly one.
pub proof fn lemma_eviction_preserves_inv(pre: SystemModel, post: SystemModel, j: int, i: int)
    requires
        sys_inv(pre),
        0 <= j < pre.workers.len(),
        post.workers.len() == pre.workers.len(),
        forall|w: int|
            0 <= w < pre.workers.len() && w != j ==> post.workers[w] == #[trigger] pre.workers[w],
        0 <= i < pre.workers[j].slots@.len(),
        pre.workers[j].slots@[i] is Some,
        evicted_at(pre.workers[j], post.workers[j], i),
        post.shared == pre.shared,
    ensures
        sys_inv(post),
        live_connections(post) == live_connections(pre) - 1,
{
    let w0 = pre.workers[j].slots@;
    let w1 = post.workers[j].slots@;
    lemma_occupied_update(w0, i, None);
    lemma_sums_pointwise(pre.workers, post.workers, j);
    assert forall|w: int| 0 <= w < post.workers.len() implies (#[trigger] post.workers[w]).wf() by {
        assert(pre.workers[w].wf());
    }
    assert forall|w: int|
        0 <= w < post.workers.len() implies ids_below(
        (#[trigger] post.workers[w]).slots@,
        post.shared.next_id,
    ) && distinct_slots(post.workers[w].slots@) && disjoint_slots(
        post.shared.queue@,
        post.workers[w].slots@,
    ) by {
        assert(ids_below(pre.workers[w].slots@, pre.shared.next_id));
        assert(distinct_slots(pre.workers[w].slots@));
        assert(disjoint_slots(pre.shared.queue@, pre.workers[w].slots@));
        if w == j {
            assert forall|a: int|
                0 <= a < w1.len() && #[trigger] w1[a] is Some implies w1[a]->0
                < post.shared.next_id by {
                assert(w1[a] == w0[a]);
                assert(w0[a] is Some);
            }
            assert forall|a: int, b: int|
                0 <= a < w1.len() && 0 <= b < w1.len() && a != b
                    && #[trigger] w1[a] is Some implies w1[a] != #[trigger] w1[b] by {
                assert(w1[a] == w0[a]);
                assert(w0[a] is Some);
                if w1[b] is Some {
                    assert(w1[b] == w0[b]);
                }
            }
            assert forall|a: int, b: int|
                0 <= a < post.shared.queue@.len() && 0 <= b < w1.len()
                    && #[trigger] post.shared.queue@[a] is Some implies post.shared.queue@[a]
                != #[trigger] w1[b] by {
                if w1[b] is Some {
                    assert(w1[b] == w0[b]);
                }
            }
        }
    }
    assert forall|w1i: int, w2i: int|
        0 <= w1i < post.workers.len() && 0 <= w2i < post.workers.len() && w1i
            != w2i implies disjoint_slots(
        (#[trigger] post.workers[w1i]).slots@,
        (#[trigger] post.workers[w2i]).slots@,
    ) by {
        let a0 = pre.workers[w1i].slots@;
        let a1 = post.workers[w1i].slots@;
        let b0 = pre.workers[w2i].slots@;
        let b1 = post.workers[w2i].slots@;
        assert(disjoint_slots(a0, b0));
        assert forall|a: int, b: int|
            0 <= a < a1.len() && 0 <= b < b1.len() && #[trigger] a1[a] is Some implies a1[a]
            != #[trigger] b1[b] by {
            if w1i == j {
                assert(a1[a] == a0[a]);
            }
            assert(a0[a] is Some);
            if w2i == j {
                if b1[b] is Some {
                    assert(b1[b] == b0[b]);
                }
            }
        }
    }
}

/// Worker read law: handling one read observation preserves the system
/// invariant; the number of live connections never grows, and the shared
/// state — the hand-off buffer, the counter and the termination flag — is
/// untouched.
pub proof fn lemma_read_step_preserves_inv(
    pre: SystemModel,
    post: SystemModel,
    j: int,
    i: int,
    ev: ReadEvent,
    act: ReadAction,
)
    requires
        sys_inv(pre),
        0 <= j < pre.workers.len(),
        post.workers.len() == pre.workers.len(),
        forall|w: int|
            0 <= w < pre.workers.len() && w != j ==> post.workers[w] == #[trigger] pre.workers[w],
        0 <= i < pre.workers[j].slots@.len(),
        read_transition(pre.workers[j], post.workers[j], i, ev, act),
        post.shared == pre.shared,
    ensures
        sys_inv(post),
        live_connections(pre) - 1 <= live_connections(post) <= live_connections(pre),
{
    if pre.workers[j].slots@[i] is None || ev is WouldBlock {
        assert(post.workers =~= pre.workers);
        lemma_sums_pointwise(pre.workers, post.workers, j);
    } else {
        match ev {
            ReadEvent::Closed => lemma_eviction_preserves_inv(pre, post, j, i),
            ReadEvent::Failed => lemma_eviction_preserves_inv(pre, post, j, i),
            ReadEvent::Data => {
                assert(post.workers =~= pre.workers);
                lemma_sums_pointwise(pre.workers, post.workers, j);
            },
            ReadEvent::WouldBlock => {},
        }
    }
}

/// Hand-off law: a worker's hand-off attempt under the shared lock
/// preserves the system invariant; connections are moved from the hand-off
/// buffer into the worker but never created, destroyed or duplicated, so
/// the number of live connections is unchanged.
pub proof fn lemma_pull_preserves_inv(
    pre: SystemModel,
    post: SystemModel,
    j: int,
    stopped: bool,
    moves: Seq<(usize, usize)>,
)
    requires
        sys_inv(pre),
        0 <= j < pre.workers.len(),
        post.workers.len() == pre.workers.len(),
        forall|w: int|
            0 <= w < pre.workers.len() && w != j ==> post.workers[w] == #[trigger] pre.workers[w],
        pull_transition(pre.shared, pre.workers[j], post.shared, post.workers[j], stopped, moves),
        post.shared.wf(),
        post.workers[j].wf(),
    ensures
        sys_inv(post),
        live_connections(post) == live_connections(pre),
        pre.shared.terminated ==> post.shared.terminated,
{
    if pre.shared.terminated {
        assert(post.workers =~= pre.workers);
        lemma_sums_pointwise(pre.workers, post.workers, j);
    } else {
        lemma_sums_pointwise(pre.workers, post.workers, j);
        let q0 = pre.shared.queue@;
        let q1 = post.shared.queue@;
        let w0 = pre.workers[j].slots@;
        let w1 = post.workers[j].slots@;
        // every identifier the worker now holds was its own already or came
        // out of the hand-off buffer
        assert forall|t: int|
            0 <= t < w1.len() && #[trigger] w1[t] is Some implies (w1[t] == w0[t] || exists|q: int|
            0 <= q < q0.len() && #[trigger] q0[q] == w1[t]) by {
            if w1[t] != w0[t] {
                let m = choose|m: int| 0 <= m < moves.len() && (#[trigger] moves[m]).1 == t;
                assert(move_ok(q0, w0, q1, w1, moves[m]));
                assert(q0[moves[m].0 as int] == w1[t]);
            }
        }
        assert(combined_distinct(q0, w0));
        assert(combined_distinct(q1, w1));
        assert forall|w: int| 0 <= w < post.workers.len() implies (#[trigger] post.workers[w]).wf() by {
            assert(pre.workers[w].wf());
        }
        assert forall|w: int|
            0 <= w < post.workers.len() implies ids_below(
            (#[trigger] post.workers[w]).slots@,
            post.shared.next_id,
        ) && distinct_slots(post.workers[w].slots@) && disjoint_slots(
            post.shared.queue@,
            post.workers[w].slots@,
        ) by {
            assert(ids_below(pre.workers[w].slots@, pre.shared.next_id));
            assert(distinct_slots(pre.workers[w].slots@));
            assert(disjoint_slots(q0, pre.workers[w].slots@));
            if w == j {
                assert forall|a: int|
                    0 <= a < w1.len() && #[trigger] w1[a] is Some implies w1[a]->0
                    < post.shared.next_id by {
                    if w1[a] == w0[a] {
                        assert(w0[a] is Some);
                    } else {
                        let q = choose|q: int| 0 <= q < q0.len() && #[trigger] q0[q] == w1[a];
                        assert(q0[q] is Some);
                    }
                }
            } else {
                assert forall|a: int, b: int|
                    0 <= a < q1.len() && 0 <= b < pre.workers[w].slots@.len()
                        && #[trigger] q1[a] is Some implies q1[a]
                    != #[trigger] pre.workers[w].slots@[b] by {
                    assert(q1[a] == q0[a]);
                    assert(q0[a] is Some);
                }
            }
        }
        assert forall|w1i: int, w2i: int|
            0 <= w1i < post.workers.len() && 0 <= w2i < post.workers.len() && w1i
                != w2i implies disjoint_slots(
            (#[trigger] post.workers[w1i]).slots@,
            (#[trigger] post.workers[w2i]).slots@,
        ) by {
            let a0 = pre.workers[w1i].slots@;
            let a1 = post.workers[w1i].slots@;
            let b0 = pre.workers[w2i].slots@;
            let b1 = post.workers[w2i].slots@;
            assert(disjoint_slots(a0, b0));
            assert(disjoint_slots(q0, b0));
            assert(disjoint_slots(q0, a0));
            assert forall|a: int, b: int|
                0 <= a < a1.len() && 0 <= b < b1.len() && #[trigger] a1[a] is Some implies a1[a]
                != #[trigger] b1[b] by {
                if w1i == j {
                    if a1[a] == a0[a] {
                        assert(a0[a] is Some);
                        if w2i == j {
                        } else {
                            if b1[b] is Some {
                                assert(b1[b] == b0[b]);
                            }
                        }
                    } else {
                        let q = choose|q: int| 0 <= q < q0.len() && #[trigger] q0[q] == a1[a];
                        assert(q0[q] is Some);
                        if b1[b] is Some {
                            assert(b1[b] == b0[b]);
                        }
                    }
                } else {
                    assert(a1[a] == a0[a]);
                    assert(a0[a] is Some);
                    if w2i == j {
                        if b1[b] is Some {
                            if b1[b] == b0[b] {
                            } else {
                                let q = choose|q: int|
                                    0 <= q < q0.len() && #[trigger] q0[q] == b1[b];
                                assert(q0[q] is Some);
                                assert(q0[q] != a0[a]);
                            }
                        }
                    } else {
                        if b1[b] is Some {
                            assert(b1[b] == b0[b]);
                        }
                    }
                }
            }
        }
    }
}

/// A freshly started system — empty hand-off buffer, counter zero, and
/// every worker empty — satisfies the invariant, with no live connection.
pub proof fn lemma_initial_state_inv(sys: SystemModel)
    requires
        sys.shared.wf(),
        sys.shared.counter == 0,
        forall|i: int| 0 <= i < sys.shared.queue@.len() ==> #[trigger] sys.shared.queue@[i] is None,
        forall|w: int|
            0 <= w < sys.workers.len() ==> (#[trigger] sys.workers[w]).counter == 0
                && sys.workers[w].drop_count == 0,
        forall|w: int, i: int|
            #![trigger sys.workers[w].slots@[i]]
            0 <= w < sys.workers.len() && 0 <= i < sys.workers[w].slots@.len()
                ==> sys.workers[w].slots@[i] is None,
    ensures
        sys_inv(sys),
        live_connections(sys) == 0,
{
    lemma_occupied_all_none(sys.shared.queue@);
    assert forall|w: int| 0 <= w < sys.workers.len() implies (#[trigger] sys.workers[w]).wf() by {
        lemma_occupied_all_none(sys.workers[w].slots@);
    }
    lemma_workers_all_empty(sys.workers);
}

/// Both sums vanish over a sequence of empty workers.
proof fn lemma_workers_all_empty(ws: Seq<WorkerState>)
    requires
        forall|w: int|
            0 <= w < ws.len() ==> (#[trigger] ws[w]).counter == 0 && ws[w].drop_count == 0
                && (forall|i: int| 0 <= i < ws[w].slots@.len() ==> #[trigger] ws[w].slots@[i] is None),
    ensures
        workers_load(ws) == 0,
        workers_occupied(ws) == 0,
    decreases ws.len(),
{
    if ws.len() > 0 {
        assert forall|w: int|
            0 <= w < ws.drop_last().len() implies (#[trigger] ws.drop_last()[w]).counter == 0
            && ws.drop_last()[w].drop_count == 0 && (forall|i: int|
            0 <= i < ws.drop_last()[w].slots@.len()
                ==> #[trigger] ws.drop_last()[w].slots@[i] is None) by {
            assert(ws.drop_last()[w] == ws[w]);
        }
        lemma_workers_all_empty(ws.drop_last());
        assert(ws[ws.len() - 1].counter == 0);
        lemma_occupied_all_none(ws.last().slots@);
    }
}

} // verus!
