//! Slot tables and the shared coordination state.
//!
//! A slot either is empty or holds exactly one live connection, identified by
//! a `ConnId`.  The shared coordination state is a fixed-capacity hand-off
//! buffer between the acceptor and the workers, together with a live
//! connection counter and a monotonic termination flag.

use vstd::prelude::*;

verus! {

/// Identifier of one accepted connection.  Identifiers are handed out by the
/// shared state in increasing order, so every live identifier is unique.
pub type ConnId = u64;

/// Number of occupied slots in a slot table.
pub open spec fn occupied(s: Seq<Option<ConnId>>) -> int
    decreases s.len(),
{
    if s.len() == 0 {
        0
    } else {
        occupied(s.drop_last()) + (if s.last() is Some {
            1int
        } else {
            0int
        })
    }
}

/// Some slot of the table holds `id`.
pub open spec fn holds_id(s: Seq<Option<ConnId>>, id: ConnId) -> bool {
    exists|i: int| 0 <= i < s.len() && s[i] == Some(id)
}

/// Every identifier held by the table is below `bound`.
pub open spec fn ids_below(s: Seq<Option<ConnId>>, bound: ConnId) -> bool {
    forall|i: int| 0 <= i < s.len() && #[trigger] s[i] is Some ==> s[i]->0 < bound
}

/// No identifier is held by two slots of the table.
pub open spec fn distinct_slots(s: Seq<Option<ConnId>>) -> bool {
    forall|i: int, j: int|
        0 <= i < s.len() && 0 <= j < s.len() && i != j && #[trigger] s[i] is Some ==> s[i]
            != #[trigger] s[j]
}

/// No identifier is held both by a slot of `a` and by a slot of `b`.
pub open spec fn disjoint_slots(a: Seq<Option<ConnId>>, b: Seq<Option<ConnId>>) -> bool {
    forall|i: int, j: int|
        0 <= i < a.len() && 0 <= j < b.len() && #[trigger] a[i] is Some ==> a[i] != #[trigger] b[j]
}

/// The two tables hold every identifier at most once between them.
pub open spec fn combined_distinct(a: Seq<Option<ConnId>>, b: Seq<Option<ConnId>>) -> bool {
    &&& distinct_slots(a)
    &&& distinct_slots(b)
    &&& disjoint_slots(a, b)
}

pub proof fn lemma_occupied_bounds(s: Seq<Option<ConnId>>)
    ensures
        0 <= occupied(s) <= s.len(),
    decreases s.len(),
{
    if s.len() > 0 {
        lemma_occupied_bounds(s.drop_last());
    }
}

pub proof fn lemma_occupied_update(s: Seq<Option<ConnId>>, i: int, v: Option<ConnId>)
    requires
        0 <= i < s.len(),
    ensures
        occupied(s.update(i, v)) == occupied(s) - (if s[i] is Some {
            1int
        } else {
            0int
        }) + (if v is Some {
            1int
        } else {
            0int
        }),
    decreases s.len(),
{
    let t = s.update(i, v);
    if i == s.len() - 1 {
        assert(t.drop_last() =~= s.drop_last());
    } else {
        assert(t.drop_last() =~= s.drop_last().update(i, v));
        lemma_occupied_update(s.drop_last(), i, v);
        assert(t.last() == s.last());
    }
}

pub proof fn lemma_occupied_all_some(s: Seq<Option<ConnId>>)
    requires
        forall|i: int| 0 <= i < s.len() ==> #[trigger] s[i] is Some,
    ensures
        occupied(s) == s.len(),
    decreases s.len(),
{
    if s.len() > 0 {
        assert(forall|i: int|
            0 <= i < s.drop_last().len() ==> #[trigger] s.drop_last()[i] is Some);
        lemma_occupied_all_some(s.drop_last());
    }
}

pub proof fn lemma_occupied_all_none(s: Seq<Option<ConnId>>)
    requires
        forall|i: int| 0 <= i < s.len() ==> #[trigger] s[i] is None,
    ensures
        occupied(s) == 0,
    decreases s.len(),
{
    if s.len() > 0 {
        assert(forall|i: int|
            0 <= i < s.drop_last().len() ==> #[trigger] s.drop_last()[i] is None);
        lemma_occupied_all_none(s.drop_last());
    }
}

/// A table that is not fully occupied has an empty slot.
pub proof fn lemma_occupied_not_full(s: Seq<Option<ConnId>>)
    requires
        occupied(s) < s.len(),
    ensures
        exists|i: int| 0 <= i < s.len() && #[trigger] s[i] is None,
    decreases s.len(),
{
    if s.last() is None {
        assert(s[s.len() - 1] is None);
    } else {
        lemma_occupied_not_full(s.drop_last());
        let i = choose|i: int| 0 <= i < s.drop_last().len() && #[trigger] s.drop_last()[i] is None;
        assert(s[i] is None);
    }
}

/// A table with an occupied slot has at least one occupant counted.
pub proof fn lemma_occupied_pos(s: Seq<Option<ConnId>>, i: int)
    requires
        0 <= i < s.len(),
        s[i] is Some,
    ensures
        occupied(s) >= 1,
{
    lemma_occupied_update(s, i, None);
    lemma_occupied_bounds(s.update(i, None));
}

/// Moving an identifier out of one table into an empty slot of another
/// keeps every identifier held at most once between the two tables.
pub proof fn lemma_move_preserves_combined_distinct(
    q: Seq<Option<ConnId>>,
    w: Seq<Option<ConnId>>,
    qi: int,
    wi: int,
)
    requires
        combined_distinct(q, w),
        0 <= qi < q.len(),
        0 <= wi < w.len(),
        q[qi] is Some,
        w[wi] is None,
    ensures
        combined_distinct(q.update(qi, None), w.update(wi, q[qi])),
{
    let q2 = q.update(qi, None);
    let w2 = w.update(wi, q[qi]);
    assert forall|i: int, j: int|
        0 <= i < q2.len() && 0 <= j < q2.len() && i != j && #[trigger] q2[i] is Some implies q2[i]
        != #[trigger] q2[j] by {
        assert(q[i] is Some);
    }
    assert forall|i: int, j: int|
        0 <= i < w2.len() && 0 <= j < w2.len() && i != j && #[trigger] w2[i] is Some implies w2[i]
        != #[trigger] w2[j] by {
        if i == wi {
            if w2[j] is Some {
                assert(w[j] is Some);
                assert(q[qi] != w[j]);
            }
        } else if j == wi {
            assert(w[i] is Some);
            assert(q[qi] != w[i]);
        } else {
            assert(w[i] is Some);
        }
    }
    assert forall|i: int, j: int|
        0 <= i < q2.len() && 0 <= j < w2.len() && #[trigger] q2[i] is Some implies q2[i]
        != #[trigger] w2[j] by {
        assert(q[i] is Some);
        if j == wi {
            assert(q[i] != q[qi]);
        } else {
            if w2[j] is Some {
                assert(w[j] is Some);
            }
        }
    }
}

/// Find the first empty slot of a table, if any.
pub fn find_free_slot(v: &Vec<Option<ConnId>>) -> (r: Option<usize>)
    ensures
        r matches Some(k) ==> k < v@.len() && v@[k as int] is None && (forall|j: int|
            0 <= j < k ==> #[trigger] v@[j] is Some),
        r is None ==> forall|j: int| 0 <= j < v@.len() ==> #[trigger] v@[j] is Some,
{
    let mut k: usize = 0;
    while k < v.len()
        invariant
            k <= v@.len(),
            forall|j: int| 0 <= j < k ==> #[trigger] v@[j] is Some,
        decreases v@.len() - k,
    {
        if v[k].is_none() {
            return Some(k);
        }
        k += 1;
    }
    None
}

/// Shared coordination state: the hand-off buffer between the acceptor and
/// the workers, the live connection counter, the termination flag, and the
/// source of fresh connection identifiers.
///
/// The counter counts every connection that was admitted and not yet
/// reconciled away: connections waiting in the hand-off buffer, connections
/// owned by workers, and evictions a worker has not yet reported back.
pub struct SharedState {
    /// Total connection capacity of the system.
    pub capacity: usize,
    /// Hand-off buffer; one slot per unit of capacity.
    pub queue: Vec<Option<ConnId>>,
    /// Live connection counter, bounded by `capacity`.
    pub counter: usize,
    /// Monotonic termination flag: once set it is never cleared.
    pub terminated: bool,
    /// Next fresh connection identifier.
    pub next_id: ConnId,
}

impl SharedState {
    /// Local well-formedness of the shared state.
    pub open spec fn wf(self) -> bool {
        &&& self.queue@.len() == self.capacity
        &&& occupied(self.queue@) <= self.counter
        &&& self.counter <= self.capacity
        &&& ids_below(self.queue@, self.next_id)
        &&& distinct_slots(self.queue@)
    }

    /// Fresh shared state with an empty hand-off buffer and the flag clear.
    pub fn new(capacity: usize) -> (r: Self)
        ensures
            r.wf(),
            r.capacity == capacity,
            r.counter == 0,
            !r.terminated,
            r.next_id == 0,
            forall|i: int| 0 <= i < capacity ==> #[trigger] r.queue@[i] is None,
    {
        let mut queue: Vec<Option<ConnId>> = Vec::new();
        let mut i: usize = 0;
        while i < capacity
            invariant
                i <= capacity,
                queue@.len() == i,
                forall|j: int| 0 <= j < i ==> #[trigger] queue@[j] is None,
            decreases capacity - i,
        {
            queue.push(None);
            i += 1;
        }
        proof {
            lemma_occupied_all_none(queue@);
        }
        SharedState { capacity, queue, counter: 0, terminated: false, next_id: 0 }
    }

    /// Relates the states before and after the termination flag is raised.
    pub open spec fn terminate_transition(pre: Self, post: Self) -> bool {
        &&& post.terminated
        &&& post.capacity == pre.capacity
        &&& post.queue@ == pre.queue@
        &&& post.counter == pre.counter
        &&& post.next_id == pre.next_id
    }

    /// Raise the termination flag.  This is the whole decision of the
    /// interrupt handler, and it is also taken when the accept loop dies of a
    /// fatal error, so that the workers wind down consistently.
    pub fn set_terminated(&mut self)
        ensures
            Self::terminate_transition(*old(self), *final(self)),
            old(self).wf() ==> final(self).wf(),
    {
        self.terminated = true;
    }

    /// Observe the termination flag.
    pub fn is_terminated(&self) -> (r: bool)
        ensures
            r == self.terminated,
    {
        self.terminated
    }
}

/// Capacity of one worker's slot table: the total capacity divided evenly
/// among the workers.  Any remainder of an uneven division is unreachable
/// capacity; this is a documented limitation of the design.
pub fn per_worker_capacity(capacity: usize, thread_count: usize) -> (r: usize)
    requires
        thread_count > 0,
    ensures
        r == capacity / thread_count,
{
    capacity / thread_count
}

} // verus!
