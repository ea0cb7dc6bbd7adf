//! How the records of a collector are laid out in rows, and when a layout is sound.
//!
//! List 0 has a row per thread slot: how many guards are held on it, the batch and the entry at the
//! head of the list of what waits for it, and its local batch. List 1 has a row per list: what the
//! list is used for, how many slots a batch waits for, how many of its objects have been
//! reclaimed, and the next ready batch. Every other list is a batch. Each of its rows is an object
//! and, once the batch has been handed over, a node in the list of one slot: the row then
//! also says which entry of which batch comes next there. A batch of as many objects as there are
//! active slots can so be handed over without allocating.
use vstd::prelude::*;

use crate::memory::Row;
use crate::state::joined;
use crate::state::Retired;
use crate::state::State;

verus! {

/// The list of thread slots.
pub const SLOTS: usize = 0;

/// The list of what each list is used for.
pub const HEADERS: usize = 1;

/// A list that is not in use.
pub const VACANT: usize = 0;

/// The local batch of a slot.
pub const LOCAL: usize = 1;

/// A batch that has been handed over.
pub const RETIRED: usize = 2;

/// A batch whose objects may be reclaimed.
pub const READY: usize = 3;

/// An entry of a batch: the batch and the index of the row.
pub type Node = (int, int);

/// The rows, and the lists that are threaded through them.
#[verifier::ext_equal]
pub struct Heap {
    /// The rows of each list.
    pub rows: Seq<Seq<Row>>,
    /// For each slot, the nodes of the list of what waits for it.
    pub waiting: Seq<Seq<Node>>,
    /// The ready batches.
    pub queue: Seq<int>,
    /// The first ready batch, or zero.
    pub head: int,
    /// The last ready batch, or zero.
    pub tail: int,
}

/// The objects in the rows of a batch.
pub open spec fn items(rows: Seq<Row>) -> Seq<Retired> {
    Seq::new(rows.len(), |i: int| Retired { ptr: rows[i].0, reclaim: rows[i].1 })
}

/// The words `b` and `i` refer to node `k` of the list, or say that there is none.
#[verifier::opaque]
pub open spec fn refers(b: usize, i: usize, list: Seq<Node>, k: int) -> bool {
    if k < list.len() {
        list[k] == (b as int, i as int)
    } else {
        b == 0 && i == 0
    }
}

/// A node of batch `b` is in the list.
pub open spec fn in_list(list: Seq<Node>, b: int) -> bool {
    exists|k: int| 0 <= k < list.len() && (#[trigger] list[k]).0 == b
}

/// How many of the lists have a node of batch `b`.
pub open spec fn waiters(lists: Seq<Seq<Node>>, b: int) -> nat
    decreases lists.len(),
{
    if lists.len() == 0 {
        0
    } else if in_list(lists.last(), b) {
        waiters(lists.drop_last(), b) + 1
    } else {
        waiters(lists.drop_last(), b)
    }
}

impl Heap {
    /// The number of thread slots.
    pub open spec fn slots(self) -> nat {
        self.rows[0].len()
    }

    /// List `b` is used for batches, or vacant.
    pub open spec fn is_batch(self, b: int) -> bool {
        2 <= b < self.rows.len()
    }

    /// What list `b` is used for.
    pub open spec fn kind(self, b: int) -> usize {
        self.rows[1][b].0
    }

    /// The local batch of slot `u`, or zero.
    pub open spec fn local(self, u: int) -> int {
        self.rows[0][u].3 as int
    }

    /// There is a header per list and a list of nodes per slot.
    pub open spec fn shape(self) -> bool {
        &&& self.rows.len() >= 2
        &&& self.rows[1].len() == self.rows.len()
        &&& self.waiting.len() == self.rows[0].len()
    }

    /// The row of each slot refers to the first node of its list and to its local batch. Nothing
    /// waits for a slot without guards.
    pub open spec fn slots_ok(self) -> bool {
        forall|u: int| #![trigger self.rows[0][u]] 0 <= u < self.rows[0].len() ==> {
            let row = self.rows[0][u];
            &&& refers(row.1, row.2, self.waiting[u], 0)
            &&& row.0 == 0 ==> self.waiting[u].len() == 0
            &&& row.3 != 0 ==> self.is_batch(row.3 as int) && self.kind(row.3 as int) == LOCAL
        }
    }

    /// No two slots share a local batch.
    pub open spec fn locals_ok(self) -> bool {
        forall|u: int, v: int| #![trigger self.rows[0][u], self.rows[0][v]]
            0 <= u < self.rows[0].len() && 0 <= v < self.rows[0].len() && u != v
                && self.rows[0][u].3 != 0 ==> self.rows[0][u].3 != self.rows[0][v].3
    }

    /// Each node is a row of a handed-over batch and refers to the node after it.
    pub open spec fn nodes_ok(self) -> bool {
        forall|u: int, k: int| #![trigger self.waiting[u][k]]
            0 <= u < self.waiting.len() && 0 <= k < self.waiting[u].len() ==> {
                let (b, i) = self.waiting[u][k];
                &&& self.is_batch(b)
                &&& self.kind(b) == RETIRED
                &&& 0 <= i < self.rows[b].len()
                &&& refers(self.rows[b][i].2, self.rows[b][i].3, self.waiting[u], k + 1)
            }
    }

    /// No row is a node twice.
    pub open spec fn nodes_unique(self) -> bool {
        forall|u: int, k: int, v: int, j: int| #![trigger self.waiting[u][k], self.waiting[v][j]]
            0 <= u < self.waiting.len() && 0 <= k < self.waiting[u].len() && 0 <= v
                < self.waiting.len() && 0 <= j < self.waiting[v].len() && self.waiting[u][k]
                == self.waiting[v][j] ==> u == v && k == j
    }

    /// A batch is at most once in the list of a slot.
    pub open spec fn once(self) -> bool {
        forall|u: int, k: int, j: int| #![trigger self.waiting[u][k], self.waiting[u][j]]
            0 <= u < self.waiting.len() && 0 <= k < self.waiting[u].len() && 0 <= j
                < self.waiting[u].len() && self.waiting[u][k].0 == self.waiting[u][j].0 ==> k == j
    }

    /// The header of a handed-over batch counts the slots that it waits for.
    pub open spec fn counts_ok(self) -> bool {
        forall|b: int| #![trigger self.rows[1][b]]
            self.is_batch(b) && self.rows[1][b].0 == RETIRED ==> self.rows[1][b].1 == waiters(
                self.waiting,
                b,
            )
    }

    /// The ready batches are chained through their headers, and each has objects left.
    pub open spec fn queue_ok(self) -> bool {
        &&& self.queue.no_duplicates()
        &&& self.head == if self.queue.len() > 0 { self.queue[0] } else { 0 }
        &&& self.tail == if self.queue.len() > 0 { self.queue.last() } else { 0 }
        &&& forall|q: int| #![trigger self.queue[q]] 0 <= q < self.queue.len() ==> {
            let b = self.queue[q];
            &&& self.is_batch(b)
            &&& self.kind(b) == READY
            &&& self.rows[1][b].2 < self.rows[b].len()
            &&& self.rows[1][b].3 == if q + 1 < self.queue.len() { self.queue[q + 1] } else { 0 }
        }
    }

    /// A vacant list is empty.
    pub open spec fn vacant_ok(self) -> bool {
        forall|b: int| #![trigger self.rows[1][b]]
            self.is_batch(b) && self.rows[1][b].0 == VACANT ==> self.rows[b].len() == 0
    }

    /// The layout is sound.
    #[verifier::opaque]
    pub open spec fn linked(self) -> bool {
        &&& self.shape()
        &&& self.slots_ok()
        &&& self.locals_ok()
        &&& self.nodes_ok()
        &&& self.nodes_unique()
        &&& self.once()
        &&& self.counts_ok()
        &&& self.queue_ok()
        &&& self.vacant_ok()
    }

    /// Every handed-over batch waits for some slot.
    pub open spec fn settled(self) -> bool {
        forall|b: int| #![trigger self.rows[1][b]]
            self.is_batch(b) && self.rows[1][b].0 == RETIRED ==> self.rows[1][b].1 > 0
    }

    /// The objects in the local batch of slot `u`.
    pub open spec fn local_items(self, u: int) -> Seq<Retired> {
        if self.local(u) == 0 {
            Seq::empty()
        } else {
            items(self.rows[self.local(u)])
        }
    }

    /// The batches that wait for slot `u`.
    pub open spec fn waiting_ids(self, u: int) -> Seq<int> {
        Seq::new(self.waiting[u].len(), |k: int| self.waiting[u][k].0)
    }

    /// For each ready batch, the objects that have not been reclaimed.
    pub open spec fn left(self) -> Seq<Seq<Retired>> {
        Seq::new(
            self.queue.len(),
            |q: int| items(self.rows[self.queue[q]]).skip(self.rows[1][self.queue[q]].2 as int),
        )
    }

    /// The state that the rows stand for.
    pub open spec fn state(self, batch_size: nat) -> State {
        State {
            batch_size,
            guards: Seq::new(self.slots(), |u: int| self.rows[0][u].0 as nat),
            local: Seq::new(self.slots(), |u: int| self.local_items(u)),
            waiting: Seq::new(self.slots(), |u: int| self.waiting_ids(u)),
            batches: Map::new(
                |b: int| self.is_batch(b) && self.kind(b) == RETIRED,
                |b: int| items(self.rows[b]),
            ),
            ready: joined(self.left(), self.queue.len() as int),
        }
    }
}

/// Whether batch `b` waits for a slot shows in the count.
pub proof fn lemma_waiters(lists: Seq<Seq<Node>>, b: int)
    ensures
        waiters(lists, b) == 0 <==> forall|u: int|
            0 <= u < lists.len() ==> !in_list(#[trigger] lists[u], b),
        waiters(lists, b) <= lists.len(),
    decreases lists.len(),
{
    if lists.len() > 0 {
        lemma_waiters(lists.drop_last(), b);
        if waiters(lists, b) == 0 {
            assert forall|u: int| 0 <= u < lists.len() implies !in_list(#[trigger] lists[u], b) by {
                if u < lists.len() - 1 {
                    assert(lists.drop_last()[u] == lists[u]);
                }
            }
        }
        if forall|u: int| 0 <= u < lists.len() ==> !in_list(#[trigger] lists[u], b) {
            assert forall|u: int| 0 <= u < lists.drop_last().len() implies !in_list(
                #[trigger] lists.drop_last()[u],
                b,
            ) by {
                assert(lists.drop_last()[u] == lists[u]);
            }
            assert(!in_list(lists[lists.len() - 1], b));
        }
    }
}

/// Replacing one list changes the count by what that list had and has.
pub proof fn lemma_waiters_update(lists: Seq<Seq<Node>>, u: int, list: Seq<Node>, b: int)
    requires
        0 <= u < lists.len(),
    ensures
        waiters(lists.update(u, list), b) + (if in_list(lists[u], b) {
            1int
        } else {
            0
        }) == waiters(lists, b) + (if in_list(list, b) {
            1int
        } else {
            0
        }),
    decreases lists.len(),
{
    let new = lists.update(u, list);
    if u == lists.len() - 1 {
        assert(new.drop_last() =~= lists.drop_last());
    } else {
        lemma_waiters_update(lists.drop_last(), u, list, b);
        assert(new.drop_last() =~= lists.drop_last().update(u, list));
    }
}

/// An empty list more changes no count.
pub proof fn lemma_waiters_push(lists: Seq<Seq<Node>>, b: int)
    ensures
        waiters(lists.push(Seq::empty()), b) == waiters(lists, b),
{
    assert(lists.push(Seq::empty()).drop_last() =~= lists);
}

/// A batch that waits for slot `u` waits for no other exactly if the count is one.
pub proof fn lemma_waiters_only(lists: Seq<Seq<Node>>, u: int, b: int)
    requires
        0 <= u < lists.len(),
        in_list(lists[u], b),
    ensures
        waiters(lists, b) == 1 <==> forall|v: int|
            0 <= v < lists.len() && in_list(#[trigger] lists[v], b) ==> v == u,
{
    let rest = lists.update(u, Seq::empty());
    lemma_waiters_update(lists, u, Seq::empty(), b);
    lemma_waiters(rest, b);
    if waiters(lists, b) == 1 {
        assert forall|v: int| 0 <= v < lists.len() && in_list(#[trigger] lists[v], b) implies v == u by {
            if v != u {
                assert(rest[v] == lists[v]);
            }
        }
    }
    if forall|v: int| 0 <= v < lists.len() && in_list(#[trigger] lists[v], b) ==> v == u {
        assert forall|v: int| 0 <= v < rest.len() implies !in_list(#[trigger] rest[v], b) by {
            if v != u {
                assert(rest[v] == lists[v]);
            }
        }
    }
}

} // verus!
