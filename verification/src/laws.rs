//! What holds of a collector as a whole.
//!
//! The laws are stated over [`State`]. The contract of each operation of a collector says which
//! transition of the state it is, so a law about transitions is a law about the operations.
use vstd::prelude::*;

use crate::collector::Collector;
use crate::process::Process;
use crate::raw::steps::lemma_freed;
use crate::raw::steps::lemma_release_step;
use crate::state::joined;
use crate::state::positives;
use crate::state::Retired;
use crate::state::State;

verus! {

/// How many objects of a sequence have a property.
pub open spec fn times(objects: Seq<Retired>, p: spec_fn(Retired) -> bool) -> nat
    decreases objects.len(),
{
    if objects.len() == 0 {
        0
    } else if p(objects.last()) {
        times(objects.drop_last(), p) + 1
    } else {
        times(objects.drop_last(), p)
    }
}

/// How many objects of the first `n` sequences have a property.
pub open spec fn times_in_all(parts: Seq<Seq<Retired>>, p: spec_fn(Retired) -> bool, n: int) -> nat
    decreases n,
{
    if n <= 0 {
        0
    } else {
        times_in_all(parts, p, n - 1) + times(parts[n - 1], p)
    }
}

/// How many objects of the batches below `n` have a property.
pub open spec fn times_in_batches(
    batches: Map<int, Seq<Retired>>,
    p: spec_fn(Retired) -> bool,
    n: int,
) -> nat
    decreases n,
{
    if n <= 0 {
        0
    } else {
        times_in_batches(batches, p, n - 1) + if batches.contains_key(n - 1) {
            times(batches[n - 1], p)
        } else {
            0
        }
    }
}

impl State {
    /// Every handed-over batch has a number below `n`.
    pub open spec fn below(self, n: int) -> bool {
        forall|b: int| #[trigger] self.batches.contains_key(b) ==> 0 <= b < n
    }

    /// How many objects with a property are held: in local batches, in handed-over batches and among
    /// what is ready.
    pub open spec fn held(self, p: spec_fn(Retired) -> bool, n: int) -> nat {
        times_in_all(self.local, p, self.local.len() as int) + times_in_batches(
            self.batches,
            p,
            n,
        ) + times(self.ready, p)
    }

    /// The handed-over batches that wait for slot `u`.
    pub open spec fn batches_of(self, u: int) -> Map<int, Seq<Retired>> {
        self.batches.restrict(Set::new(|b: int| self.waits(u, b)))
    }

    /// How many objects with a property are held back as long as slot `u` stays active: in local
    /// batches and in the batches that wait for the slot.
    pub open spec fn held_back(self, u: int, p: spec_fn(Retired) -> bool, n: int) -> nat {
        times_in_all(self.local, p, self.local.len() as int) + times_in_batches(
            self.batches_of(u),
            p,
            n,
        )
    }
}

/// Counts add up over sequences.
proof fn lemma_times_add(a: Seq<Retired>, b: Seq<Retired>, p: spec_fn(Retired) -> bool)
    ensures
        times(a + b, p) == times(a, p) + times(b, p),
    decreases b.len(),
{
    if b.len() == 0 {
        assert(a + b =~= a);
    } else {
        lemma_times_add(a, b.drop_last(), p);
        assert((a + b).drop_last() =~= a + b.drop_last());
        assert((a + b).last() == b.last());
    }
}

/// Joining sequences changes no count.
pub(crate) proof fn lemma_times_joined(parts: Seq<Seq<Retired>>, p: spec_fn(Retired) -> bool, n: int)
    requires
        0 <= n <= parts.len(),
    ensures
        times(joined(parts, n), p) == times_in_all(parts, p, n),
    decreases n,
{
    if n > 0 {
        lemma_times_joined(parts, p, n - 1);
        lemma_times_add(joined(parts, n - 1), parts[n - 1], p);
    }
}

/// Replacing a sequence changes the count by the difference.
proof fn lemma_times_update(
    parts: Seq<Seq<Retired>>,
    t: int,
    part: Seq<Retired>,
    p: spec_fn(Retired) -> bool,
    n: int,
)
    requires
        0 <= n <= parts.len(),
        0 <= t < parts.len(),
    ensures
        times_in_all(parts.update(t, part), p, n) == times_in_all(parts, p, n) + (if t < n {
            times(part, p) - times(parts[t], p)
        } else {
            0
        }),
    decreases n,
{
    if n > 0 {
        lemma_times_update(parts, t, part, p, n - 1);
    }
}

/// Empty sequences at the end change no count.
proof fn lemma_times_same(
    parts: Seq<Seq<Retired>>,
    more: Seq<Seq<Retired>>,
    p: spec_fn(Retired) -> bool,
    n: int,
)
    requires
        0 <= n <= more.len(),
        forall|i: int|
            0 <= i < n ==> #[trigger] more[i] == if i < parts.len() {
                parts[i]
            } else {
                Seq::<Retired>::empty()
            },
    ensures
        times_in_all(more, p, n) == times_in_all(
            parts,
            p,
            if n < parts.len() {
                n
            } else {
                parts.len() as int
            },
        ),
    decreases n,
{
    if n > 0 {
        lemma_times_same(parts, more, p, n - 1);
    }
}

/// A new batch adds what it holds.
proof fn lemma_batches_insert(
    batches: Map<int, Seq<Retired>>,
    b: int,
    part: Seq<Retired>,
    p: spec_fn(Retired) -> bool,
    n: int,
)
    requires
        !batches.contains_key(b),
    ensures
        times_in_batches(batches.insert(b, part), p, n) == times_in_batches(batches, p, n)
            + (if 0 <= b < n {
            times(part, p)
        } else {
            0
        }),
    decreases n,
{
    if n > 0 {
        lemma_batches_insert(batches, b, part, p, n - 1);
    }
}

/// A batch that is gone takes away what it held.
proof fn lemma_batches_remove(
    batches: Map<int, Seq<Retired>>,
    b: int,
    p: spec_fn(Retired) -> bool,
    n: int,
)
    requires
        batches.contains_key(b),
        0 <= b < n,
    ensures
        times_in_batches(batches, p, n) == times_in_batches(batches.remove(b), p, n) + times(
            batches[b],
            p,
        ),
{
    lemma_batches_insert(batches.remove(b), b, batches[b], p, n);
    assert(batches.remove(b).insert(b, batches[b]) =~= batches);
}

/// Making room changes nothing else.
proof fn lemma_cover(s: State, t: int, p: spec_fn(Retired) -> bool)
    requires
        s.valid(),
        0 <= t,
    ensures
        times_in_all(s.cover(t).local, p, s.cover(t).local.len() as int) == times_in_all(
            s.local,
            p,
            s.local.len() as int,
        ),
        forall|u: int, b: int| #[trigger] s.cover(t).waits(u, b) == s.waits(u, b),
        s.cover(t).valid(),
        t < s.cover(t).slots(),
{
    let c = s.cover(t);
    lemma_times_same(s.local, c.local, p, c.local.len() as int);
    assert forall|u: int, b: int| #[trigger] c.waits(u, b) == s.waits(u, b) by {}
    assert forall|b: int| #[trigger] c.batches.contains_key(b) implies exists|u: int| #[trigger]
        c.waits(u, b) by {
        assert(s.batches.contains_key(b));
        let u = choose|u: int| #[trigger] s.waits(u, b);
        assert(c.waits(u, b));
    }
}

/// Every batch that waits for slot `t` alone is freed.
proof fn lemma_freed_all(s: State, t: int, n: int, j: int)
    requires
        0 <= t < s.slots(),
        0 <= j < n <= s.waiting[t].len(),
        s.waits_only(t, s.waiting[t][j]),
    ensures
        s.freed(t, n).contains(s.waiting[t][j]),
    decreases n,
{
    let after = s.freed(t, n);
    if j == n - 1 {
        assert(after.last() == s.waiting[t][j]);
    } else {
        lemma_freed_all(s, t, n - 1, j);
        let before = s.freed(t, n - 1);
        let i = choose|i: int| 0 <= i < before.len() && before[i] == s.waiting[t][j];
        assert(after[i] == s.waiting[t][j]);
    }
}

/// What becomes of a batch when slot `t` lets go: it is gone exactly if it waited for that slot
/// alone.
pub(crate) proof fn lemma_release(s: State, t: int)
    requires
        s.valid(),
        0 <= t < s.slots(),
    ensures
        forall|b: int| #[trigger]
            s.release(t).batches.contains_key(b) <==> s.batches.contains_key(b) && !s.waits_only(
                t,
                b,
            ),
        forall|u: int, b: int| #[trigger]
            s.release(t).waits(u, b) <==> u != t && s.waits(u, b),
        forall|b: int| #[trigger]
            s.release(t).batches.contains_key(b) ==> s.release(t).batches[b] == s.batches[b],
        s.release(t).waiting[t].len() == 0,
{
    let n = s.waiting[t].len() as int;
    let r = s.release(t);
    let freed = s.freed(t, n);
    assert forall|b: int| #[trigger] r.batches.contains_key(b) <==> s.batches.contains_key(b)
        && !s.waits_only(t, b) by {
        if s.batches.contains_key(b) {
            if freed.contains(b) {
                lemma_freed(s, t, n, b);
            }
            if s.waits_only(t, b) {
                let j = choose|j: int| 0 <= j < s.waiting[t].len() && s.waiting[t][j] == b;
                lemma_freed_all(s, t, n, j);
            }
            assert(freed.to_set().contains(b) == freed.contains(b));
        }
    }
}

/// Letting go leads to a valid state.
proof fn lemma_release_valid(s: State, t: int)
    requires
        s.valid(),
        0 <= t < s.slots(),
    ensures
        s.release(t).valid(),
{
    let r = s.release(t);
    lemma_release(s, t);
    assert forall|u: int, b: int| #[trigger] r.waits(u, b) implies r.batches.contains_key(b) by {
        assert(s.waits(u, b));
    }
    assert forall|b: int| #[trigger] r.batches.contains_key(b) implies exists|u: int| #[trigger]
        r.waits(u, b) by {
        let u = choose|u: int| #[trigger] s.waits(u, b);
        if u == t {
            let v = choose|v: int| #[trigger] s.waits(v, b) && v != t;
            assert(r.waits(v, b));
        } else {
            assert(r.waits(u, b));
        }
    }
}

/// Letting go loses nothing.
proof fn lemma_release_held(s: State, t: int, k: int, p: spec_fn(Retired) -> bool, n: int)
    requires
        s.valid(),
        s.below(n),
        0 <= t < s.slots(),
        0 <= k <= s.waiting[t].len(),
    ensures
        s.release_first(t, k).held(p, n) == s.held(p, n),
    decreases k,
{
    if k == 0 {
        assert(s.freed(t, 0).to_set() =~= Set::empty());
        assert(s.release_first(t, 0) =~= s) by {
            assert(s.waiting[t].skip(0) =~= s.waiting[t]);
        }
    } else {
        lemma_release_held(s, t, k - 1, p, n);
        let r = s.release_first(t, k - 1);
        let b = s.waiting[t][k - 1];
        assert(s.waits(t, b));
        lemma_release_step(s, t, k - 1);
        if s.waits_only(t, b) {
            assert(s.batches.contains_key(b));
            lemma_batches_remove(r.batches, b, p, n);
            lemma_times_add(r.ready, r.batches[b], p);
        }
    }
}

/// What waits for whom after a batch was handed over.
proof fn lemma_hand_over_waits(s: State, t: int, b: int)
    requires
        s.valid(),
        0 <= t < s.slots(),
        s.active() > 0,
        !s.batches.contains_key(b),
    ensures
        forall|u: int, c: int| #[trigger]
            s.hand_over(t, b).waits(u, c) <==> s.waits(u, c) || (c == b && 0 <= u < s.slots()
                && s.guards[u] > 0),
{
    let h = s.hand_over(t, b);
    assert forall|u: int, c: int| #[trigger] h.waits(u, c) <==> s.waits(u, c) || (c == b && 0 <= u
        < s.slots() && s.guards[u] > 0) by {
        if 0 <= u < s.slots() && s.guards[u] > 0 {
            let list = seq![b] + s.waiting[u];
            assert(h.waiting[u] == list);
            assert(list[0] == b);
            if s.waiting[u].contains(c) {
                let k = choose|k: int| 0 <= k < s.waiting[u].len() && s.waiting[u][k] == c;
                assert(list[k + 1] == c);
            }
            if list.contains(c) && c != b {
                let k = choose|k: int| 0 <= k < list.len() && list[k] == c;
                assert(s.waiting[u][k - 1] == c);
            }
        }
    }
}

/// A positive count has a witness.
proof fn lemma_positive(counts: Seq<nat>, n: int)
    requires
        0 <= n <= counts.len(),
        positives(counts, n) > 0,
    ensures
        exists|u: int| 0 <= u < n && counts[u] > 0,
    decreases n,
{
    if counts[n - 1] == 0 {
        lemma_positive(counts, n - 1);
    }
}

/// A witness makes the count positive.
pub(crate) proof fn lemma_not_positive(counts: Seq<nat>, n: int, u: int)
    requires
        0 <= u < n <= counts.len(),
        counts[u] > 0,
    ensures
        positives(counts, n) > 0,
    decreases n,
{
    if u < n - 1 {
        lemma_not_positive(counts, n - 1, u);
    }
}

/// Handing over leads to a valid state.
proof fn lemma_hand_over_valid(s: State, t: int, b: int)
    requires
        s.valid(),
        0 <= t < s.slots(),
        !s.batches.contains_key(b),
    ensures
        s.hand_over(t, b).valid(),
{
    let h = s.hand_over(t, b);
    if s.active() > 0 {
        lemma_hand_over_waits(s, t, b);
        assert forall|c: int| #[trigger] h.batches.contains_key(c) implies exists|u: int| #[trigger]
            h.waits(u, c) by {
            if c == b {
                lemma_positive(s.guards, s.slots() as int);
                let u = choose|u: int| 0 <= u < s.slots() && s.guards[u] > 0;
                assert(h.waits(u, b));
            } else {
                let u = choose|u: int| #[trigger] s.waits(u, c);
                assert(h.waits(u, c));
            }
        }
        assert forall|u: int| 0 <= u < h.slots() implies #[trigger] h.waiting[u].no_duplicates() by {
            assert(s.waiting[u].no_duplicates());
            if s.guards[u] > 0 {
                assert forall|k: int| 0 <= k < s.waiting[u].len() implies s.waiting[u][k] != b by {
                    assert(s.waits(u, s.waiting[u][k]));
                }
            }
        }
    } else {
        assert forall|u: int, c: int| #[trigger] h.waits(u, c) == s.waits(u, c) by {}
        assert forall|c: int| #[trigger] h.batches.contains_key(c) implies exists|u: int| #[trigger]
            h.waits(u, c) by {
            let u = choose|u: int| #[trigger] s.waits(u, c);
            assert(h.waits(u, c));
        }
    }
}

/// Two states in which the same batches wait for the same active slots are valid together.
pub(crate) proof fn lemma_valid_same(s: State, r: State)
    requires
        s.valid(),
        r.waiting == s.waiting,
        r.batches == s.batches,
        r.guards.len() == s.guards.len(),
        r.local.len() == s.local.len(),
        forall|u: int| 0 <= u < s.slots() && #[trigger] r.guards[u] == 0 ==> s.guards[u] == 0
            || s.waiting[u].len() == 0,
    ensures
        r.valid(),
        forall|u: int, b: int| #[trigger] r.waits(u, b) == s.waits(u, b),
{
    assert forall|u: int, b: int| #[trigger] r.waits(u, b) == s.waits(u, b) by {}
    assert forall|b: int| #[trigger] r.batches.contains_key(b) implies exists|u: int| #[trigger]
        r.waits(u, b) by {
        let u = choose|u: int| #[trigger] s.waits(u, b);
        assert(r.waits(u, b));
    }
}

/// The last guard on a slot lets go of what waits for the slot.
pub(crate) proof fn lemma_leave_last(s: State, t: int)
    requires
        s.valid(),
        0 <= t < s.slots(),
        s.guards[t] == 1,
    ensures
        s.leave(t) == (State { guards: s.guards.update(t, 0), ..s.release(t) }),
{
    let r = State { guards: s.guards.update(t, 0), ..s };
    lemma_freed_guards(s, r, t, s.waiting[t].len() as int);
    assert(r.contents(r.freed(t, s.waiting[t].len() as int)) =~= s.contents(
        s.freed(t, s.waiting[t].len() as int),
    ));
}

/// What is freed does not depend on the number of guards.
proof fn lemma_freed_guards(s: State, r: State, t: int, n: int)
    requires
        r.waiting == s.waiting,
        r.guards.len() == s.guards.len(),
    ensures
        r.freed(t, n) == s.freed(t, n),
    decreases n,
{
    if n > 0 {
        lemma_freed_guards(s, r, t, n - 1);
        let b = s.waiting[t][n - 1];
        assert forall|u: int| r.waits(u, b) == s.waits(u, b) by {}
        assert(r.waits_only(t, b) == s.waits_only(t, b));
    }
}

/// Leaving leads to a valid state.
proof fn lemma_leave_valid(s: State, t: int)
    requires
        s.valid(),
        0 <= t < s.slots(),
        s.guards[t] > 0,
    ensures
        s.leave(t).valid(),
{
    if s.guards[t] == 1 {
        lemma_leave_last(s, t);
        lemma_release(s, t);
        lemma_release_valid(s, t);
        lemma_valid_same(s.release(t), s.leave(t));
    } else {
        lemma_valid_same(s, s.leave(t));
    }
}

/// The bound on the numbers of the batches does not matter.
pub proof fn lemma_held_bound(s: State, p: spec_fn(Retired) -> bool, n: int, m: int)
    requires
        s.below(n),
        0 <= n <= m,
    ensures
        s.below(m),
        s.held(p, m) == s.held(p, n),
    decreases m - n,
{
    if n < m {
        lemma_held_bound(s, p, n, m - 1);
    }
}

/// Every operation leads from a valid state to a valid state.
pub proof fn law_states_stay_valid(s: State, t: int, object: Retired, b: int)
    requires
        s.valid(),
        0 <= t,
        !s.batches.contains_key(b),
    ensures
        s.cover(t).valid(),
        s.enter(t).valid(),
        t < s.slots() && s.guards[t] > 0 ==> s.leave(t).valid(),
        t < s.slots() ==> s.refresh(t).valid(),
        t < s.slots() ==> s.flush(t, b).valid(),
        s.retire(t, object, b).valid(),
        s.reclaim_all().valid(),
        s.take_ready().valid(),
{
    let c = s.cover(t);
    lemma_cover(s, t, |x: Retired| true);
    lemma_valid_same(c, s.enter(t));
    if t < s.slots() && s.guards[t] > 0 {
        lemma_leave_valid(s, t);
    }
    if t < s.slots() {
        lemma_release_valid(s, t);
        lemma_hand_over_valid(s, t, b);
    }
    let a = s.add_local(t, object);
    lemma_valid_same(c, a);
    lemma_hand_over_valid(a, t, b);
    lemma_valid_same(s, s.reclaim_all());
    lemma_valid_same(s, s.take_ready());
}

/// Handing over loses nothing.
proof fn lemma_hand_over_held(s: State, t: int, b: int, p: spec_fn(Retired) -> bool, n: int)
    requires
        s.valid(),
        0 <= t < s.slots(),
        !s.batches.contains_key(b),
        0 <= b < n,
    ensures
        s.hand_over(t, b).held(p, n) == s.held(p, n),
{
    lemma_times_update(s.local, t, Seq::empty(), p, s.local.len() as int);
    lemma_times_add(s.ready, s.local[t], p);
    lemma_batches_insert(s.batches, b, s.local[t], p, n);
}

/// An object that has been retired stays held, once for each time that it was retired, until it is
/// taken out to be reclaimed. Retiring adds it once, taking it out removes it once, and no other
/// operation changes how many objects with whatever property are held: nothing is lost, and nothing
/// is reclaimed twice.
pub proof fn law_reclaimed_exactly_once(
    s: State,
    t: int,
    object: Retired,
    p: spec_fn(Retired) -> bool,
    b: int,
    n: int,
)
    requires
        s.valid(),
        s.below(n),
        0 <= t,
        !s.batches.contains_key(b),
        0 <= b < n,
    ensures
        s.cover(t).held(p, n) == s.held(p, n),
        s.enter(t).held(p, n) == s.held(p, n),
        t < s.slots() && s.guards[t] > 0 ==> s.leave(t).held(p, n) == s.held(p, n),
        t < s.slots() ==> s.refresh(t).held(p, n) == s.held(p, n),
        t < s.slots() ==> s.flush(t, b).held(p, n) == s.held(p, n),
        s.reclaim_all().held(p, n) == s.held(p, n),
        s.retire(t, object, b).held(p, n) == s.held(p, n) + (if p(object) {
            1nat
        } else {
            0
        }),
        s.ready.len() > 0 ==> s.held(p, n) == s.take_ready().held(p, n) + (if p(s.ready[0]) {
            1nat
        } else {
            0
        }),
{
    lemma_cover(s, t, p);
    if t < s.slots() && s.guards[t] > 0 {
        if s.guards[t] == 1 {
            lemma_leave_last(s, t);
            lemma_release_held(s, t, s.waiting[t].len() as int, p, n);
        }
    }
    if t < s.slots() {
        lemma_release_held(s, t, s.waiting[t].len() as int, p, n);
        lemma_hand_over_held(s, t, b, p, n);
    }
    let c = s.cover(t);
    let a = s.add_local(t, object);
    lemma_times_update(c.local, t, c.local[t].push(object), p, c.local.len() as int);
    assert(c.local[t].push(object).drop_last() =~= c.local[t]);
    lemma_valid_same(c, a);
    lemma_hand_over_held(a, t, b, p, n);
    let none = Seq::new(s.local.len(), |u: int| Seq::<Retired>::empty());
    lemma_times_same(Seq::empty(), none, p, none.len() as int);
    lemma_times_joined(s.local, p, s.local.len() as int);
    lemma_times_add(s.ready, joined(s.local, s.local.len() as int), p);
    if s.ready.len() > 0 {
        assert(s.ready =~= seq![s.ready[0]] + s.ready.drop_first());
        lemma_times_add(seq![s.ready[0]], s.ready.drop_first(), p);
        assert(seq![s.ready[0]].drop_last() =~= Seq::<Retired>::empty());
        assert(times(seq![s.ready[0]], p) == if p(s.ready[0]) {
            1nat
        } else {
            0
        });
    }
}

/// Handing over takes nothing from what is held back for an active slot.
proof fn lemma_hand_over_held_back(s: State, u: int, t: int, b: int, p: spec_fn(Retired) -> bool, n: int)
    requires
        s.valid(),
        0 <= u < s.slots(),
        s.guards[u] > 0,
        0 <= t < s.slots(),
        !s.batches.contains_key(b),
        0 <= b < n,
    ensures
        s.hand_over(t, b).held_back(u, p, n) == s.held_back(u, p, n),
{
    let h = s.hand_over(t, b);
    lemma_not_positive(s.guards, s.slots() as int, u);
    lemma_hand_over_waits(s, t, b);
    assert(h.batches_of(u) =~= s.batches_of(u).insert(b, s.local[t])) by {
        assert(h.waits(u, b));
        assert forall|c: int| c != b implies h.waits(u, c) == s.waits(u, c) by {}
    }
    lemma_times_update(s.local, t, Seq::empty(), p, s.local.len() as int);
    lemma_batches_insert(s.batches_of(u), b, s.local[t], p, n);
}

/// As long as slot `u` is active, what is retired is held back for it. No operation takes an
/// object from what is held back, unless the last guard on the slot leaves or is refreshed: what
/// was retired after the slot became active stays in a local batch or waits for the slot, and is
/// neither ready nor reclaimed.
pub proof fn law_guard_protects(
    s: State,
    u: int,
    t: int,
    object: Retired,
    p: spec_fn(Retired) -> bool,
    b: int,
    n: int,
)
    requires
        s.valid(),
        0 <= u < s.slots(),
        s.guards[u] > 0,
        0 <= t,
        !s.batches.contains_key(b),
        0 <= b < n,
    ensures
        s.cover(t).held_back(u, p, n) == s.held_back(u, p, n),
        s.enter(t).held_back(u, p, n) == s.held_back(u, p, n),
        t < s.slots() && s.guards[t] > 0 && (t != u || s.guards[t] > 1) ==> s.leave(t).held_back(
            u,
            p,
            n,
        ) == s.held_back(u, p, n),
        t < s.slots() && (t != u || s.guards[t] > 1) ==> s.refresh(t).held_back(u, p, n)
            == s.held_back(u, p, n),
        t < s.slots() ==> s.flush(t, b).held_back(u, p, n) == s.held_back(u, p, n),
        s.retire(t, object, b).held_back(u, p, n) == s.held_back(u, p, n) + (if p(object) {
            1nat
        } else {
            0
        }),
        s.take_ready().held_back(u, p, n) == s.held_back(u, p, n),
{
    let c = s.cover(t);
    lemma_cover(s, t, p);
    lemma_valid_same(c, s.enter(t));
    assert(c.batches_of(u) =~= s.batches_of(u));
    assert(s.enter(t).batches_of(u) =~= s.batches_of(u));
    if t < s.slots() {
        lemma_release(s, t);
        if t != u {
            let r = s.release(t);
            assert(r.batches_of(u) =~= s.batches_of(u)) by {
                assert forall|d: int| r.waits(u, d) == s.waits(u, d) by {}
                assert forall|d: int| s.waits(u, d) implies !s.waits_only(t, d) by {}
            }
            if s.guards[t] == 1 {
                lemma_leave_last(s, t);
                assert forall|d: int| s.leave(t).waits(u, d) == r.waits(u, d) by {}
                assert(s.leave(t).batches_of(u) =~= s.batches_of(u));
            }
        }
        if s.guards[t] > 1 {
            lemma_valid_same(s, s.leave(t));
            assert(s.leave(t).batches_of(u) =~= s.batches_of(u));
        }
        lemma_hand_over_held_back(s, u, t, b, p, n);
    }
    let a = s.add_local(t, object);
    lemma_valid_same(c, a);
    assert(a.batches_of(u) =~= c.batches_of(u));
    lemma_times_update(c.local, t, c.local[t].push(object), p, c.local.len() as int);
    assert(c.local[t].push(object).drop_last() =~= c.local[t]);
    lemma_hand_over_held_back(a, u, t, b, p, n);
    lemma_valid_same(s, s.take_ready());
    assert(s.take_ready().batches_of(u) =~= s.batches_of(u));
}

/// While no guard is held there is no handed-over batch: everything that was retired is in a
/// local batch or ready.
pub proof fn law_without_guards_nothing_waits(s: State)
    requires
        s.valid(),
        s.active() == 0,
    ensures
        s.batches == Map::<int, Seq<Retired>>::empty(),
        forall|u: int| 0 <= u < s.slots() ==> #[trigger] s.waiting[u].len() == 0,
{
    assert forall|u: int| 0 <= u < s.slots() implies #[trigger] s.waiting[u].len() == 0 by {
        if s.guards[u] > 0 {
            lemma_not_positive(s.guards, s.slots() as int, u);
        }
    }
    assert forall|b: int| !s.batches.contains_key(b) by {
        if s.batches.contains_key(b) {
            let u = choose|u: int| #[trigger] s.waits(u, b);
            assert(s.waiting[u].len() > 0);
        }
    }
    assert(s.batches =~= Map::<int, Seq<Retired>>::empty());
}

/// After reclaiming all, everything that had been retired is ready, on all slots.
pub proof fn law_reclaim_all_leaves_nothing(s: State, p: spec_fn(Retired) -> bool, n: int)
    requires
        s.valid(),
        s.below(n),
        s.active() == 0,
    ensures
        times(s.reclaim_all().ready, p) == s.held(p, n),
        s.reclaim_all().batches == Map::<int, Seq<Retired>>::empty(),
        forall|u: int| 0 <= u < s.slots() ==> #[trigger] s.reclaim_all().local[u].len() == 0,
{
    law_without_guards_nothing_waits(s);
    lemma_times_joined(s.local, p, s.local.len() as int);
    lemma_times_add(s.ready, joined(s.local, s.local.len() as int), p);
    lemma_batches_none(s.batches, p, n);
}

/// Reclaiming one object after another reclaims everything: while no guard is held, there is a next
/// object to reclaim as long as any is held, so the last one leaves none behind, however many were
/// retired in between.
pub proof fn law_reclaiming_leaves_nothing(s: State, p: spec_fn(Retired) -> bool, n: int)
    requires
        s.valid(),
        s.below(n),
        s.active() == 0,
        s.all_ready().ready.len() == 0,
    ensures
        s.held(p, n) == 0,
        s.all_ready().held(p, n) == 0,
{
    law_reclaim_all_leaves_nothing(s, p, n);
    let none = s.reclaim_all();
    lemma_times_same(Seq::empty(), none.local, p, none.local.len() as int);
    lemma_batches_none(none.batches, p, n);
}

/// No batch holds nothing.
proof fn lemma_batches_none(batches: Map<int, Seq<Retired>>, p: spec_fn(Retired) -> bool, n: int)
    requires
        batches == Map::<int, Seq<Retired>>::empty(),
    ensures
        times_in_batches(batches, p, n) == 0,
    decreases n,
{
    if n > 0 {
        lemma_batches_none(batches, p, n - 1);
    }
}

/// Guards are reentrant: while several are held on a slot, one that leaves lets nothing go and the
/// slot stays active; refreshing one of them does nothing.
pub proof fn law_reentrant(s: State, t: int)
    requires
        0 <= t < s.slots(),
        s.guards[t] > 1,
    ensures
        s.leave(t) == (State { guards: s.guards.update(t, (s.guards[t] - 1) as nat), ..s }),
        s.leave(t).guards[t] > 0,
        s.refresh(t) == s,
{
}

/// Entering and leaving again, while no batch waits for the slot, is as if nothing had happened,
/// except that there is room for the slot.
pub proof fn law_enter_then_leave(s: State, t: int)
    requires
        s.valid(),
        0 <= t,
        t < s.slots() ==> s.waiting[t].len() == 0 || s.guards[t] > 0,
    ensures
        s.enter(t).leave(t) == s.cover(t),
{
    let c = s.cover(t);
    let e = s.enter(t);
    assert(e.guards.update(t, c.guards[t]) =~= c.guards);
    if c.guards[t] == 0 {
        let r = State { guards: e.guards.update(t, 0), ..e };
        assert(r.waiting[t].len() == 0);
        assert(r.freed(t, 0).to_set() =~= Set::empty());
        assert(r.waiting[t].skip(0) =~= r.waiting[t]);
        assert(r.release(t) =~= r);
    }
}

/// The last guard of all lets everything go: when the only active slot leaves, every handed-over
/// batch is ready.
pub proof fn law_last_guard_releases_all(s: State, t: int)
    requires
        s.valid(),
        0 <= t < s.slots(),
        s.guards[t] == 1,
        forall|u: int| 0 <= u < s.slots() && u != t ==> #[trigger] s.guards[u] == 0,
    ensures
        s.leave(t).active() == 0,
        s.leave(t).batches == Map::<int, Seq<Retired>>::empty(),
{
    lemma_leave_last(s, t);
    let l = s.leave(t);
    lemma_leave_valid(s, t);
    if l.active() > 0 {
        lemma_positive(l.guards, l.slots() as int);
    }
    law_without_guards_nothing_waits(l);
}

/// A batch is handed over only if it has an object for every active slot, and then every active
/// slot has to leave before it is ready.
pub proof fn law_hand_over_reaches_all_active(s: State, t: int, b: int)
    requires
        s.valid(),
        0 <= t < s.slots(),
        !s.batches.contains_key(b),
        s.flush(t, b) != s,
        s.active() > 0,
    ensures
        s.local[t].len() >= s.active(),
        s.flush(t, b).batches.contains_key(b),
        s.flush(t, b).batches[b] == s.local[t],
        s.flush(t, b).ready == s.ready,
        forall|u: int| #[trigger]
            s.flush(t, b).waits(u, b) <==> 0 <= u < s.slots() && s.guards[u] > 0,
{
    lemma_hand_over_waits(s, t, b);
    assert forall|u: int| #[trigger] s.flush(t, b).waits(u, b) implies 0 <= u < s.slots()
        && s.guards[u] > 0 by {
        assert(!s.waits(u, b));
    }
}

/// No two collectors of a process are equal, and every collector is equal to itself, whatever
/// happens to it.
pub proof fn law_collectors_are_distinct<'a>(
    first: Collector<'a>,
    later: Collector<'a>,
    second: Collector<'a>,
    before: Process,
    between: Process,
    then_on: Process,
    after: Process,
)
    requires
        first.is_new(before, between),
        later.same_collector(first),
        forall|id: u64| #[trigger] between.issued(id) ==> then_on.issued(id),
        second.is_new(then_on, after),
    ensures
        first.id() != second.id(),
        later.id() != second.id(),
        later.id() == first.id(),
{
}

} // verus!
