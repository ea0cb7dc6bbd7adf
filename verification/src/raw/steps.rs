//! The elementary changes of a layout: each keeps it sound and has one effect on the state.
use vstd::prelude::*;

use crate::memory::Row;
use crate::raw::heap::in_list;
use crate::raw::heap::items;
use crate::raw::heap::lemma_waiters;
use crate::raw::heap::lemma_waiters_push;
use crate::raw::heap::lemma_waiters_update;
use crate::raw::heap::refers;
use crate::raw::heap::waiters;
use crate::raw::heap::Heap;
use crate::raw::heap::LOCAL;
use crate::raw::heap::READY;
use crate::raw::heap::RETIRED;
use crate::raw::heap::VACANT;
use crate::state::joined;
use crate::state::Retired;
use crate::state::State;

verus! {

/// Rows with one row replaced.
pub open spec fn with_row(rows: Seq<Seq<Row>>, list: int, index: int, row: Row) -> Seq<Seq<Row>> {
    rows.update(list, rows[list].update(index, row))
}

/// A row that refers to nothing.
pub open spec fn blank() -> Row {
    (0, 0, 0, 0)
}

impl Heap {
    /// A slot more.
    pub open spec fn pad(self) -> Heap {
        Heap {
            rows: self.rows.update(0, self.rows[0].push(blank())),
            waiting: self.waiting.push(Seq::empty()),
            ..self
        }
    }

    /// A vacant list more.
    pub open spec fn grow(self) -> Heap {
        Heap {
            rows: self.rows.update(1, self.rows[1].push((VACANT, 0, 0, 0))).push(Seq::empty()),
            ..self
        }
    }

    /// Slot `u` has `guards` guards.
    pub open spec fn set_guards(self, u: int, guards: usize) -> Heap {
        let row = self.rows[0][u];
        Heap { rows: with_row(self.rows, 0, u, (guards, row.1, row.2, row.3)), ..self }
    }

    /// The vacant list `b` is the local batch of slot `t`.
    pub open spec fn adopt(self, t: int, b: int) -> Heap {
        let row = self.rows[0][t];
        let rows = with_row(self.rows, 1, b, (LOCAL, 0, 0, 0));
        Heap { rows: with_row(rows, 0, t, (row.0, row.1, row.2, b as usize)), ..self }
    }

    /// The local batch of slot `t` has an object more.
    pub open spec fn append(self, t: int, object: Retired) -> Heap {
        let l = self.local(t);
        Heap {
            rows: self.rows.update(l, self.rows[l].push((object.ptr, object.reclaim, 0, 0))),
            ..self
        }
    }

    /// The local batch of slot `t` is a handed-over batch that waits for no slot yet.
    pub open spec fn detach(self, t: int) -> Heap {
        let row = self.rows[0][t];
        let rows = with_row(self.rows, 1, row.3 as int, (RETIRED, 0, 0, 0));
        Heap { rows: with_row(rows, 0, t, (row.0, row.1, row.2, 0)), ..self }
    }

    /// Entry `i` of batch `b` is put in front of what waits for slot `u`.
    pub open spec fn link(self, u: int, b: int, i: int) -> Heap {
        let row = self.rows[0][u];
        let entry = self.rows[b][i];
        let header = self.rows[1][b];
        let rows = with_row(self.rows, b, i, (entry.0, entry.1, row.1, row.2));
        let rows = with_row(rows, 0, u, (row.0, b as usize, i as usize, row.3));
        Heap {
            rows: with_row(
                rows,
                1,
                b,
                (header.0, (header.1 + 1) as usize, header.2, header.3),
            ),
            waiting: self.waiting.update(u, seq![(b, i)] + self.waiting[u]),
            ..self
        }
    }

    /// The first node is taken out of what waits for slot `u`.
    pub open spec fn unlink(self, u: int) -> Heap {
        let row = self.rows[0][u];
        let (b, i) = self.waiting[u][0];
        let entry = self.rows[b][i];
        let header = self.rows[1][b];
        let rows = with_row(self.rows, 0, u, (row.0, entry.2, entry.3, row.3));
        Heap {
            rows: with_row(
                rows,
                1,
                b,
                (header.0, (header.1 - 1) as usize, header.2, header.3),
            ),
            waiting: self.waiting.update(u, self.waiting[u].skip(1)),
            ..self
        }
    }

    /// The handed-over batch `b`, which waits for no slot, is ready.
    pub open spec fn enqueue(self, b: int) -> Heap {
        let rows = with_row(self.rows, 1, b, (READY, 0, 0, 0));
        let last = rows[1][self.tail];
        Heap {
            rows: if self.tail == 0 {
                rows
            } else {
                with_row(rows, 1, self.tail, (last.0, last.1, last.2, b as usize))
            },
            queue: self.queue.push(b),
            head: if self.tail == 0 {
                b
            } else {
                self.head
            },
            tail: b,
            ..self
        }
    }

    /// The first ready batch has an object less, and some left.
    pub open spec fn advance(self) -> Heap {
        let header = self.rows[1][self.head];
        Heap {
            rows: with_row(
                self.rows,
                1,
                self.head,
                (header.0, header.1, (header.2 + 1) as usize, header.3),
            ),
            ..self
        }
    }

    /// The first ready batch has no objects left, and is vacant.
    pub open spec fn dequeue(self) -> Heap {
        let header = self.rows[1][self.head];
        let rows = with_row(self.rows, 1, self.head, (VACANT, 0, 0, 0));
        Heap {
            rows: rows.update(self.head, Seq::empty()),
            queue: self.queue.skip(1),
            head: header.3 as int,
            tail: if header.3 == 0 {
                0
            } else {
                self.tail
            },
            ..self
        }
    }
}

/// Two layouts stand for the same ready objects if they agree on the ready batches.
proof fn lemma_left(h: Heap, g: Heap)
    requires
        g.queue == h.queue,
        forall|q: int| #![trigger h.queue[q]]
            0 <= q < h.queue.len() ==> items(g.rows[h.queue[q]]) == items(h.rows[h.queue[q]])
                && g.rows[1][h.queue[q]].2 == h.rows[1][h.queue[q]].2,
    ensures
        g.left() == h.left(),
{
    assert(g.left() =~= h.left());
}

/// A new slot.
pub proof fn lemma_pad(h: Heap, n: nat)
    requires
        h.linked(),
    ensures
        h.pad().linked(),
        h.settled() ==> h.pad().settled(),
        h.pad().state(n) == (State {
            guards: h.state(n).guards.push(0),
            local: h.state(n).local.push(Seq::empty()),
            waiting: h.state(n).waiting.push(Seq::empty()),
            ..h.state(n)
        }),
{
    reveal(Heap::linked);
    let g = h.pad();
    assert forall|b: int| waiters(g.waiting, b) == waiters(h.waiting, b) by {
        lemma_waiters_push(h.waiting, b);
    }
    lemma_left(h, g);
    assert(g.slots_ok()) by {
        reveal(refers);
    }
    assert(g.state(n).guards =~= h.state(n).guards.push(0));
    assert(g.state(n).local =~= h.state(n).local.push(Seq::empty()));
    assert(g.state(n).waiting =~~= h.state(n).waiting.push(Seq::empty()));
    assert(g.state(n).batches =~= h.state(n).batches);
}

/// A new vacant list.
pub proof fn lemma_grow(h: Heap, n: nat)
    requires
        h.linked(),
    ensures
        h.grow().linked(),
        h.settled() ==> h.grow().settled(),
        h.grow().state(n) == h.state(n),
        h.grow().is_batch(h.rows.len() as int),
        h.grow().kind(h.rows.len() as int) == VACANT,
{
    reveal(Heap::linked);
    let g = h.grow();
    lemma_left(h, g);
    assert(g.rows[0] == h.rows[0]);
    assert(g.linked());
    assert(g.state(n).guards =~= h.state(n).guards);
    assert(g.state(n).local =~= h.state(n).local);
    assert(g.state(n).waiting =~~= h.state(n).waiting);
    assert(g.state(n).batches =~= h.state(n).batches);
}

/// Another number of guards.
pub proof fn lemma_set_guards(h: Heap, n: nat, u: int, guards: usize)
    requires
        h.linked(),
        0 <= u < h.slots(),
        guards > 0 || h.waiting[u].len() == 0,
    ensures
        h.set_guards(u, guards).linked(),
        h.settled() ==> h.set_guards(u, guards).settled(),
        h.set_guards(u, guards).state(n) == (State {
            guards: h.state(n).guards.update(u, guards as nat),
            ..h.state(n)
        }),
{
    reveal(Heap::linked);
    let g = h.set_guards(u, guards);
    lemma_left(h, g);
    assert(g.state(n).guards =~= h.state(n).guards.update(u, guards as nat));
    assert(g.state(n).local =~= h.state(n).local);
    assert(g.state(n).waiting =~~= h.state(n).waiting);
    assert(g.state(n).batches =~= h.state(n).batches);
}

/// A vacant list becomes a local batch.
pub proof fn lemma_adopt(h: Heap, n: nat, t: int, b: int)
    requires
        h.linked(),
        0 <= t < h.slots(),
        h.local(t) == 0,
        h.is_batch(b),
        b <= usize::MAX,
        h.kind(b) == VACANT,
    ensures
        h.adopt(t, b).linked(),
        h.settled() ==> h.adopt(t, b).settled(),
        h.adopt(t, b).state(n) == h.state(n),
        h.adopt(t, b).local(t) == b,
{
    reveal(Heap::linked);
    let g = h.adopt(t, b);
    lemma_left(h, g);
    assert(items(h.rows[b]) =~= Seq::<Retired>::empty());
    assert(g.state(n).guards =~= h.state(n).guards);
    assert(g.state(n).local =~= h.state(n).local);
    assert(g.state(n).waiting =~~= h.state(n).waiting);
    assert(g.state(n).batches =~= h.state(n).batches);
}

/// An object is added to a local batch.
pub proof fn lemma_append(h: Heap, n: nat, t: int, object: Retired)
    requires
        h.linked(),
        0 <= t < h.slots(),
        h.local(t) != 0,
    ensures
        h.append(t, object).linked(),
        h.settled() ==> h.append(t, object).settled(),
        h.append(t, object).state(n) == (State {
            local: h.state(n).local.update(t, h.state(n).local[t].push(object)),
            ..h.state(n)
        }),
        h.append(t, object).local(t) == h.local(t),
{
    reveal(Heap::linked);
    let g = h.append(t, object);
    let l = h.local(t);
    lemma_left(h, g);
    assert(items(g.rows[l]) =~= items(h.rows[l]).push(object));
    assert(g.state(n).guards =~= h.state(n).guards);
    assert(g.state(n).local =~= h.state(n).local.update(t, h.state(n).local[t].push(object)));
    assert(g.state(n).waiting =~~= h.state(n).waiting);
    assert(g.state(n).batches =~= h.state(n).batches);
}

/// A local batch becomes one that has been handed over, to no slot yet.
pub proof fn lemma_detach(h: Heap, n: nat, t: int)
    requires
        h.linked(),
        0 <= t < h.slots(),
        h.local(t) != 0,
    ensures
        h.detach(t).linked(),
        h.detach(t).state(n) == (State {
            local: h.state(n).local.update(t, Seq::empty()),
            batches: h.state(n).batches.insert(h.local(t), h.state(n).local[t]),
            ..h.state(n)
        }),
        forall|u: int| 0 <= u < h.slots() ==> !in_list(#[trigger] h.waiting[u], h.local(t)),
{
    reveal(Heap::linked);
    let g = h.detach(t);
    let l = h.local(t);
    lemma_left(h, g);
    assert forall|u: int| 0 <= u < h.slots() implies !in_list(#[trigger] h.waiting[u], l) by {}
    lemma_waiters(h.waiting, l);
    assert(g.state(n).guards =~= h.state(n).guards);
    assert(g.state(n).local =~= h.state(n).local.update(t, Seq::empty()));
    assert(g.state(n).waiting =~~= h.state(n).waiting);
    assert(g.state(n).batches =~= h.state(n).batches.insert(l, h.state(n).local[t]));
}

/// A batch is handed to a slot.
pub proof fn lemma_link(h: Heap, n: nat, u: int, b: int, i: int)
    requires
        h.linked(),
        0 <= u < h.slots(),
        h.rows[0][u].0 > 0,
        h.is_batch(b),
        b <= usize::MAX,
        h.kind(b) == RETIRED,
        h.rows[1][b].1 < usize::MAX,
        0 <= i < h.rows[b].len(),
        i <= usize::MAX,
        !in_list(h.waiting[u], b),
        forall|v: int, k: int| #![trigger h.waiting[v][k]]
            0 <= v < h.slots() && 0 <= k < h.waiting[v].len() ==> h.waiting[v][k] != (b, i),
    ensures
        h.link(u, b, i).linked(),
        h.link(u, b, i).state(n) == (State {
            waiting: h.state(n).waiting.update(u, seq![b] + h.state(n).waiting[u]),
            ..h.state(n)
        }),
{
    reveal(Heap::linked);
    let g = h.link(u, b, i);
    let list = seq![(b, i)] + h.waiting[u];
    assert(g.rows[0] =~= h.rows[0].update(u, g.rows[0][u]));
    assert(g.rows[1] =~= h.rows[1].update(b, g.rows[1][b]));
    assert(g.rows[b] =~= h.rows[b].update(i, g.rows[b][i]));
    assert(items(g.rows[b]) =~= items(h.rows[b]));
    assert forall|c: int| c != b implies in_list(list, c) == in_list(h.waiting[u], c) by {
        if in_list(h.waiting[u], c) {
            let k = choose|k: int| 0 <= k < h.waiting[u].len() && (#[trigger] h.waiting[u][k]).0 == c;
            assert(list[k + 1].0 == c);
        }
        if in_list(list, c) {
            let k = choose|k: int| 0 <= k < list.len() && (#[trigger] list[k]).0 == c;
            assert(h.waiting[u][k - 1].0 == c);
        }
    }
    assert(list[0].0 == b);
    assert forall|c: int| #![trigger waiters(g.waiting, c)] waiters(g.waiting, c) == waiters(h.waiting, c) + (if c == b {
        1int
    } else {
        0
    }) by {
        lemma_waiters_update(h.waiting, u, list, c);
    }
    assert(g.counts_ok());
    assert(g.nodes_ok()) by {
        assert forall|v: int, k: int| #![trigger g.waiting[v][k]]
            0 <= v < g.waiting.len() && 0 <= k < g.waiting[v].len() implies {
            let (c, j) = g.waiting[v][k];
            &&& g.is_batch(c)
            &&& g.kind(c) == RETIRED
            &&& 0 <= j < g.rows[c].len()
            &&& refers(g.rows[c][j].2, g.rows[c][j].3, g.waiting[v], k + 1)
        } by {
            reveal(refers);
            let (c, j) = g.waiting[v][k];
            if v == u {
                if k == 0 {
                    assert(refers(h.rows[0][u].1, h.rows[0][u].2, h.waiting[u], 0));
                } else {
                    assert(h.waiting[u][k - 1] == (c, j));
                    assert(refers(h.rows[c][j].2, h.rows[c][j].3, h.waiting[u], k));
                }
            } else {
                assert(h.waiting[v][k] == (c, j));
                assert(refers(h.rows[c][j].2, h.rows[c][j].3, h.waiting[v], k + 1));
            }
        }
    }
    assert(g.nodes_unique()) by {
        assert forall|v: int, k: int, w: int, j: int| #![trigger g.waiting[v][k], g.waiting[w][j]]
            0 <= v < g.waiting.len() && 0 <= k < g.waiting[v].len() && 0 <= w < g.waiting.len()
                && 0 <= j < g.waiting[w].len() && g.waiting[v][k] == g.waiting[w][j] implies v == w
            && k == j by {
            let k0 = if v == u { k - 1 } else { k };
            let j0 = if w == u { j - 1 } else { j };
            if k0 >= 0 {
                assert(g.waiting[v][k] == h.waiting[v][k0]);
            }
            if j0 >= 0 {
                assert(g.waiting[w][j] == h.waiting[w][j0]);
            }
        }
    }
    assert(g.once()) by {
        assert forall|v: int, k: int, j: int| #![trigger g.waiting[v][k], g.waiting[v][j]]
            0 <= v < g.waiting.len() && 0 <= k < g.waiting[v].len() && 0 <= j
                < g.waiting[v].len() && g.waiting[v][k].0 == g.waiting[v][j].0 implies k == j by {
            if v == u {
                if k > 0 {
                    assert(g.waiting[v][k] == h.waiting[v][k - 1]);
                }
                if j > 0 {
                    assert(g.waiting[v][j] == h.waiting[v][j - 1]);
                }
            } else {
                assert(g.waiting[v][k] == h.waiting[v][k]);
            }
        }
    }
    assert(g.slots_ok()) by {
        reveal(refers);
    }
    lemma_left(h, g);
    assert(g.queue_ok());
    assert(g.linked());
    assert(g.state(n).guards =~= h.state(n).guards);
    assert(g.state(n).local =~= h.state(n).local);
    assert(g.state(n).waiting =~~= h.state(n).waiting.update(u, seq![b] + h.state(n).waiting[u]));
    assert(g.state(n).batches =~= h.state(n).batches);
}

/// The first batch that waits for a slot waits for it no longer.
pub proof fn lemma_unlink(h: Heap, n: nat, u: int)
    requires
        h.linked(),
        0 <= u < h.slots(),
        h.waiting[u].len() > 0,
    ensures
        h.rows[1][h.waiting[u][0].0].1 > 0,
        h.unlink(u).linked(),
        h.unlink(u).state(n) == (State {
            waiting: h.state(n).waiting.update(u, h.state(n).waiting[u].skip(1)),
            ..h.state(n)
        }),
        h.settled() ==> forall|c: int| #![trigger h.unlink(u).rows[1][c]]
            c != h.waiting[u][0].0 && h.unlink(u).is_batch(c) && h.unlink(u).rows[1][c].0
                == RETIRED ==> h.unlink(u).rows[1][c].1 > 0,
{
    reveal(Heap::linked);
    let (b, i) = h.waiting[u][0];
    let list = h.waiting[u].skip(1);
    assert(in_list(h.waiting[u], b));
    lemma_waiters(h.waiting, b);
    let g = h.unlink(u);
    assert(g.rows[0] =~= h.rows[0].update(u, g.rows[0][u]));
    assert(g.rows[1] =~= h.rows[1].update(b, g.rows[1][b]));
    assert forall|c: int| in_list(list, c) == (c != b && in_list(h.waiting[u], c)) by {
        if c != b && in_list(h.waiting[u], c) {
            let k = choose|k: int| 0 <= k < h.waiting[u].len() && (#[trigger] h.waiting[u][k]).0 == c;
            assert(list[k - 1].0 == c);
        }
        if in_list(list, c) {
            let k = choose|k: int| 0 <= k < list.len() && (#[trigger] list[k]).0 == c;
            assert(h.waiting[u][k + 1].0 == c);
        }
    }
    assert forall|c: int| #![trigger waiters(g.waiting, c)] waiters(g.waiting, c) == waiters(h.waiting, c) - (if c == b {
        1int
    } else {
        0
    }) by {
        lemma_waiters_update(h.waiting, u, list, c);
    }
    assert(g.counts_ok());
    assert(g.nodes_ok()) by {
        assert forall|v: int, k: int| #![trigger g.waiting[v][k]]
            0 <= v < g.waiting.len() && 0 <= k < g.waiting[v].len() implies {
            let (c, j) = g.waiting[v][k];
            &&& g.is_batch(c)
            &&& g.kind(c) == RETIRED
            &&& 0 <= j < g.rows[c].len()
            &&& refers(g.rows[c][j].2, g.rows[c][j].3, g.waiting[v], k + 1)
        } by {
            reveal(refers);
            let k0 = if v == u { k + 1 } else { k };
            let (c, j) = g.waiting[v][k];
            assert(h.waiting[v][k0] == (c, j));
            assert(refers(h.rows[c][j].2, h.rows[c][j].3, h.waiting[v], k0 + 1));
        }
    }
    assert(g.nodes_unique()) by {
        assert forall|v: int, k: int, w: int, j: int| #![trigger g.waiting[v][k], g.waiting[w][j]]
            0 <= v < g.waiting.len() && 0 <= k < g.waiting[v].len() && 0 <= w < g.waiting.len()
                && 0 <= j < g.waiting[w].len() && g.waiting[v][k] == g.waiting[w][j] implies v == w
            && k == j by {
            let k0 = if v == u { k + 1 } else { k };
            let j0 = if w == u { j + 1 } else { j };
            assert(g.waiting[v][k] == h.waiting[v][k0]);
            assert(g.waiting[w][j] == h.waiting[w][j0]);
        }
    }
    assert(g.once()) by {
        assert forall|v: int, k: int, j: int| #![trigger g.waiting[v][k], g.waiting[v][j]]
            0 <= v < g.waiting.len() && 0 <= k < g.waiting[v].len() && 0 <= j
                < g.waiting[v].len() && g.waiting[v][k].0 == g.waiting[v][j].0 implies k == j by {
            let d: int = if v == u { 1 } else { 0 };
            assert(g.waiting[v][k] == h.waiting[v][k + d]);
            assert(g.waiting[v][j] == h.waiting[v][j + d]);
        }
    }
    assert(g.slots_ok()) by {
        assert(refers(h.rows[b][i].2, h.rows[b][i].3, h.waiting[u], 1));
        reveal(refers);
    }
    lemma_left(h, g);
    assert(g.queue_ok());
    assert(g.linked());
    assert(g.state(n).guards =~= h.state(n).guards);
    assert(g.state(n).local =~= h.state(n).local);
    assert(g.state(n).waiting =~~= h.state(n).waiting.update(u, h.state(n).waiting[u].skip(1)));
    assert(g.state(n).batches =~= h.state(n).batches);
}

/// The first parts do not depend on what follows them.
pub proof fn lemma_joined_prefix(parts: Seq<Seq<Retired>>, other: Seq<Seq<Retired>>, n: int)
    requires
        n <= parts.len(),
        n <= other.len(),
        forall|i: int| 0 <= i < n ==> parts[i] == other[i],
    ensures
        joined(parts, n) == joined(other, n),
    decreases n,
{
    if n > 0 {
        lemma_joined_prefix(parts, other, n - 1);
    }
}

/// The first part comes first.
pub proof fn lemma_joined_first(parts: Seq<Seq<Retired>>, n: int)
    requires
        0 < n <= parts.len(),
    ensures
        joined(parts, n) == parts[0] + joined(parts.skip(1), n - 1),
    decreases n,
{
    if n > 1 {
        lemma_joined_first(parts, n - 1);
        assert(parts.skip(1)[n - 2] == parts[n - 1]);
        assert(joined(parts, n) =~= parts[0] + joined(parts.skip(1), n - 1));
    } else {
        assert(joined(parts, 1) =~= parts[0] + joined(parts.skip(1), 0)) by {
            assert(joined(parts, 0) =~= Seq::<Retired>::empty());
        }
    }
}

/// A batch that waits for no slot becomes ready.
pub proof fn lemma_enqueue(h: Heap, n: nat, b: int)
    requires
        h.linked(),
        h.is_batch(b),
        b <= usize::MAX,
        h.kind(b) == RETIRED,
        h.rows[1][b].1 == 0,
        h.rows[b].len() > 0,
    ensures
        h.enqueue(b).linked(),
        h.enqueue(b).state(n) == (State {
            batches: h.state(n).batches.remove(b),
            ready: h.state(n).ready + h.state(n).batches[b],
            ..h.state(n)
        }),
        forall|c: int| #![trigger h.enqueue(b).rows[1][c]]
            h.enqueue(b).is_batch(c) && h.enqueue(b).rows[1][c].0 == RETIRED ==> c != b
                && h.rows[1][c].0 == RETIRED && h.enqueue(b).rows[1][c].1 == h.rows[1][c].1,
{
    reveal(Heap::linked);
    let g = h.enqueue(b);
    lemma_waiters(h.waiting, b);
    assert(forall|u: int| 0 <= u < h.waiting.len() ==> !in_list(#[trigger] h.waiting[u], b));
    assert(g.rows[0] == h.rows[0]);
    if h.queue.len() > 0 {
        assert(h.queue[h.queue.len() - 1] == h.tail);
    }
    assert(g.nodes_ok()) by {
        assert forall|v: int, k: int| #![trigger g.waiting[v][k]]
            0 <= v < g.waiting.len() && 0 <= k < g.waiting[v].len() implies {
            let (c, j) = g.waiting[v][k];
            &&& g.is_batch(c)
            &&& g.kind(c) == RETIRED
            &&& 0 <= j < g.rows[c].len()
            &&& refers(g.rows[c][j].2, g.rows[c][j].3, g.waiting[v], k + 1)
        } by {
            let (c, j) = h.waiting[v][k];
            assert(in_list(h.waiting[v], c));
            assert(refers(h.rows[c][j].2, h.rows[c][j].3, h.waiting[v], k + 1));
        }
    }
    assert(g.queue_ok()) by {
        assert forall|q: int| #![trigger g.queue[q]] 0 <= q < g.queue.len() implies {
            let c = g.queue[q];
            &&& g.is_batch(c)
            &&& g.kind(c) == READY
            &&& g.rows[1][c].2 < g.rows[c].len()
            &&& g.rows[1][c].3 == if q + 1 < g.queue.len() { g.queue[q + 1] } else { 0 }
        } by {
            if q < h.queue.len() {
                assert(g.queue[q] == h.queue[q]);
                if q + 1 < h.queue.len() {
                    assert(g.queue[q + 1] == h.queue[q + 1]);
                    assert(h.queue[q] != h.queue[h.queue.len() - 1]);
                }
            }
        }
    }
    let extra = items(h.rows[b]).skip(0);
    assert(extra =~= items(h.rows[b]));
    assert(g.left() =~= h.left().push(extra)) by {
        assert forall|q: int| 0 <= q < h.queue.len() implies #[trigger] g.left()[q] == h.left()[q] by {
            assert(g.queue[q] == h.queue[q]);
        }
    }
    lemma_joined_prefix(h.left().push(extra), h.left(), h.queue.len() as int);
    assert(g.state(n).guards =~= h.state(n).guards);
    assert(g.state(n).local =~= h.state(n).local);
    assert(g.state(n).waiting =~~= h.state(n).waiting);
    assert(g.state(n).batches =~= h.state(n).batches.remove(b));
}

/// An object of the first ready batch is taken out, and it has more.
pub proof fn lemma_advance(h: Heap, n: nat)
    requires
        h.linked(),
        h.queue.len() > 0,
        h.rows[1][h.head].2 + 1 < h.rows[h.head].len(),
        h.rows[h.head].len() <= usize::MAX,
    ensures
        h.advance().linked(),
        h.settled() ==> h.advance().settled(),
        h.state(n).ready.len() > 0,
        h.state(n).ready[0] == items(h.rows[h.head])[h.rows[1][h.head].2 as int],
        h.advance().state(n) == h.state(n).take_ready(),
{
    reveal(Heap::linked);
    let g = h.advance();
    let b = h.queue[0];
    let c = h.rows[1][b].2 as int;
    assert(g.queue_ok());
    lemma_joined_first(h.left(), h.queue.len() as int);
    lemma_joined_first(g.left(), h.queue.len() as int);
    assert(g.left()[0] =~= h.left()[0].drop_first());
    assert(g.left().skip(1) =~= h.left().skip(1)) by {
        assert forall|q: int| 0 <= q < h.queue.len() - 1 implies #[trigger] g.left().skip(1)[q]
            == h.left().skip(1)[q] by {
            assert(h.queue[q + 1] != h.queue[0]);
        }
    }
    assert(g.state(n).ready =~= h.state(n).ready.drop_first());
    assert(g.state(n).guards =~= h.state(n).guards);
    assert(g.state(n).local =~= h.state(n).local);
    assert(g.state(n).waiting =~~= h.state(n).waiting);
    assert(g.state(n).batches =~= h.state(n).batches);
}

/// The last object of the first ready batch is taken out, and its list is vacant.
pub proof fn lemma_dequeue(h: Heap, n: nat)
    requires
        h.linked(),
        h.queue.len() > 0,
        h.rows[1][h.head].2 + 1 == h.rows[h.head].len(),
    ensures
        h.dequeue().linked(),
        h.settled() ==> h.dequeue().settled(),
        h.state(n).ready.len() > 0,
        h.state(n).ready[0] == items(h.rows[h.head])[h.rows[1][h.head].2 as int],
        h.dequeue().state(n) == h.state(n).take_ready(),
{
    reveal(Heap::linked);
    let g = h.dequeue();
    let b = h.queue[0];
    if h.queue.len() > 1 {
        assert(h.queue[1] != 0);
    }
    assert(g.queue_ok()) by {
        assert forall|q: int| #![trigger g.queue[q]] 0 <= q < g.queue.len() implies {
            let c = g.queue[q];
            &&& g.is_batch(c)
            &&& g.kind(c) == READY
            &&& g.rows[1][c].2 < g.rows[c].len()
            &&& g.rows[1][c].3 == if q + 1 < g.queue.len() { g.queue[q + 1] } else { 0 }
        } by {
            assert(g.queue[q] == h.queue[q + 1]);
            assert(h.queue[q + 1] != h.queue[0]);
        }
    }
    assert(g.rows[0] == h.rows[0]);
    lemma_joined_first(h.left(), h.queue.len() as int);
    assert(h.left()[0].len() == 1);
    assert(g.left() =~= h.left().skip(1)) by {
        assert forall|q: int| 0 <= q < h.queue.len() - 1 implies #[trigger] g.left()[q]
            == h.left().skip(1)[q] by {
            assert(g.queue[q] == h.queue[q + 1]);
            assert(h.queue[q + 1] != h.queue[0]);
        }
    }
    assert(g.state(n).ready =~= h.state(n).ready.drop_first());
    assert(g.state(n).guards =~= h.state(n).guards);
    assert(g.state(n).local =~= h.state(n).local);
    assert(g.state(n).waiting =~~= h.state(n).waiting);
    assert(g.state(n).batches =~= h.state(n).batches);
}

/// The state and the rows agree on which batch waits for which slot.
pub proof fn lemma_waits(h: Heap, n: nat, u: int, b: int)
    requires
        h.linked(),
    ensures
        h.state(n).waits(u, b) <==> 0 <= u < h.slots() && in_list(h.waiting[u], b),
{
    reveal(Heap::linked);
    if 0 <= u < h.slots() {
        let ids = h.state(n).waiting[u];
        if in_list(h.waiting[u], b) {
            let k = choose|k: int| 0 <= k < h.waiting[u].len() && (#[trigger] h.waiting[u][k]).0 == b;
            assert(ids[k] == b);
        }
        if ids.contains(b) {
            let k = choose|k: int| 0 <= k < ids.len() && ids[k] == b;
            assert(h.waiting[u][k].0 == b);
        }
    }
}

/// A sound layout in which every handed-over batch waits stands for a valid state.
pub proof fn lemma_valid(h: Heap, n: nat)
    requires
        h.linked(),
        h.settled(),
    ensures
        h.state(n).valid(),
{
    reveal(Heap::linked);
    let s = h.state(n);
    assert forall|u: int, b: int| #[trigger] s.waits(u, b) implies s.batches.contains_key(b) by {
        lemma_waits(h, n, u, b);
        let k = choose|k: int| 0 <= k < h.waiting[u].len() && (#[trigger] h.waiting[u][k]).0 == b;
        assert(h.is_batch(h.waiting[u][k].0));
    }
    assert forall|b: int| #[trigger] s.batches.contains_key(b) implies exists|u: int| #[trigger]
        s.waits(u, b) by {
        assert(h.rows[1][b].1 > 0);
        lemma_waiters(h.waiting, b);
        let u = choose|u: int| 0 <= u < h.waiting.len() && in_list(#[trigger] h.waiting[u], b);
        lemma_waits(h, n, u, b);
        assert(s.waits(u, b));
    }
    assert forall|u: int| 0 <= u < s.slots() && s.guards[u] == 0 implies #[trigger] s.waiting[u].len()
        == 0 by {
        assert(h.rows[0][u].0 == 0);
    }
    assert forall|u: int| 0 <= u < s.slots() implies #[trigger] s.waiting[u].no_duplicates() by {
        assert forall|k: int, j: int| 0 <= k < s.waiting[u].len() && 0 <= j < s.waiting[u].len() && k
            != j implies s.waiting[u][k] != s.waiting[u][j] by {
            assert(h.waiting[u][k].0 != h.waiting[u][j].0);
        }
    }
}

/// The state after one node more has been released.
pub open spec fn release_one(s: State, t: int, only: bool) -> State {
    let b = s.waiting[t][0];
    State {
        waiting: s.waiting.update(t, s.waiting[t].skip(1)),
        batches: if only {
            s.batches.remove(b)
        } else {
            s.batches
        },
        ready: if only {
            s.ready + s.batches[b]
        } else {
            s.ready
        },
        ..s
    }
}

/// What is freed is among what waits, and waits for no other slot.
pub proof fn lemma_freed(s: State, t: int, n: int, b: int)
    requires
        0 <= t < s.slots(),
        0 <= n <= s.waiting[t].len(),
        s.freed(t, n).contains(b),
    ensures
        s.waits_only(t, b),
        exists|j: int| 0 <= j < n && #[trigger] s.waiting[t][j] == b,
    decreases n,
{
    let after = s.freed(t, n);
    let i = choose|i: int| 0 <= i < after.len() && after[i] == b;
    if n > 0 {
        let before = s.freed(t, n - 1);
        if i < before.len() {
            assert(before[i] == b);
            lemma_freed(s, t, n - 1, b);
        } else {
            assert(s.waiting[t][n - 1] == b);
        }
    }
}

/// Releasing one batch more.
pub proof fn lemma_release_step(s: State, t: int, n: int)
    requires
        0 <= t < s.slots(),
        s.waiting.len() == s.slots(),
        0 <= n < s.waiting[t].len(),
        s.waiting[t].no_duplicates(),
        s.batches.contains_key(s.waiting[t][n]),
    ensures
        s.release_first(t, n).waiting[t].len() > 0,
        s.release_first(t, n).waiting[t][0] == s.waiting[t][n],
        s.release_first(t, n).batches.contains_key(s.waiting[t][n]),
        s.release_first(t, n + 1) == release_one(
            s.release_first(t, n),
            t,
            s.waits_only(t, s.waiting[t][n]),
        ),
{
    let b = s.waiting[t][n];
    let before = s.freed(t, n);
    let r = s.release_first(t, n);
    assert(!before.contains(b)) by {
        if before.contains(b) {
            lemma_freed(s, t, n, b);
            let j = choose|j: int| 0 <= j < n && #[trigger] s.waiting[t][j] == b;
            assert(s.waiting[t][j] == s.waiting[t][n]);
        }
    }
    assert(!before.to_set().contains(b));
    assert(r.batches.contains_key(b));
    let o = release_one(r, t, s.waits_only(t, b));
    assert(s.waiting[t].skip(n).skip(1) =~= s.waiting[t].skip(n + 1));
    assert(s.release_first(t, n + 1).waiting =~= o.waiting);
    if s.waits_only(t, b) {
        let after = before.push(b);
        assert(s.freed(t, n + 1) == after);
        assert(after.to_set() =~= before.to_set().insert(b)) by {
            assert forall|c: int| after.contains(c) == (c == b || before.contains(c)) by {
                if before.contains(c) {
                    let i = choose|i: int| 0 <= i < before.len() && before[i] == c;
                    assert(after[i] == c);
                }
                assert(after[before.len() as int] == b);
            }
        }
        assert(s.release_first(t, n + 1).batches =~= o.batches);
        lemma_joined_prefix(s.contents(after), s.contents(before), before.len() as int);
        assert(s.contents(after)[before.len() as int] == s.batches[b]);
        assert(s.release_first(t, n + 1).ready =~= o.ready);
    }
}

} // verus!
