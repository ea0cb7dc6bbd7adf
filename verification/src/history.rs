//! What holds over many operations.
//!
//! A [`History`] is a run of a collector: the states that it went through and the operation that led
//! from each to the next, whoever performed it. What holds of every history holds of everything that
//! threads can do with a collector.
use vstd::prelude::*;

use crate::laws::law_guard_protects;
use crate::laws::law_reclaimed_exactly_once;
use crate::laws::law_states_stay_valid;
use crate::laws::lemma_held_bound;
use crate::laws::lemma_not_positive;
use crate::laws::lemma_valid_same;
use crate::laws::times_in_all;
use crate::laws::times_in_batches;
use crate::state::Retired;
use crate::state::State;

verus! {

/// An operation on a collector.
pub enum Operation {
    /// A guard enters on slot `t`.
    Enter { t: int },
    /// A guard leaves slot `t`.
    Leave { t: int },
    /// A guard on slot `t` is refreshed.
    Refresh { t: int },
    /// The local batch of slot `t` is flushed.
    Flush { t: int },
    /// Space for an object is reserved on slot `t`.
    Reserve { t: int },
    /// An object is retired on slot `t`.
    Retire { t: int, object: Retired },
    /// The batch size is set.
    SetBatchSize { size: nat },
    /// Everything is to be reclaimed.
    ReclaimAll,
    /// The first object that is ready is taken out and reclaimed.
    Take,
}

impl State {
    /// The operation may be performed.
    pub open spec fn allows(self, operation: Operation) -> bool {
        match operation {
            Operation::Enter { t } => 0 <= t,
            Operation::Leave { t } => 0 <= t < self.slots() && self.guards[t] > 0,
            Operation::Refresh { t } => 0 <= t < self.slots() && self.guards[t] > 0,
            Operation::Flush { t } => 0 <= t < self.slots() && self.guards[t] > 0,
            Operation::Reserve { t } => 0 <= t,
            Operation::Retire { t, object } => 0 <= t,
            Operation::SetBatchSize { size } => true,
            Operation::ReclaimAll => self.active() == 0,
            Operation::Take => self.ready.len() > 0,
        }
    }

    /// The state after an operation, with `b` as the number of a batch that is handed over.
    pub open spec fn after(self, operation: Operation, b: int) -> State {
        match operation {
            Operation::Enter { t } => self.enter(t),
            Operation::Leave { t } => self.leave(t),
            Operation::Refresh { t } => self.refresh(t),
            Operation::Flush { t } => self.flush(t, b),
            Operation::Reserve { t } => self.cover(t),
            Operation::Retire { t, object } => self.retire(t, object, b),
            Operation::SetBatchSize { size } => State { batch_size: size, ..self },
            Operation::ReclaimAll => self.reclaim_all(),
            Operation::Take => self.take_ready(),
        }
    }

    /// The operation leads from this state to another.
    pub open spec fn leads_to(self, operation: Operation, next: State) -> bool {
        &&& self.allows(operation)
        &&& exists|b: int|
            0 <= b && !self.batches.contains_key(b) && next == #[trigger] self.after(operation, b)
    }
}

/// A run of a collector.
pub struct History {
    /// The states, one more than there are operations.
    pub states: Seq<State>,
    /// The operations.
    pub operations: Seq<Operation>,
}

impl History {
    /// Each operation leads from one state to the next.
    pub open spec fn happened(self) -> bool {
        &&& self.states.len() == self.operations.len() + 1
        &&& self.states[0].valid()
        &&& forall|i: int|
            0 <= i < self.operations.len() ==> self.states[i].leads_to(
                #[trigger] self.operations[i],
                self.states[i + 1],
            )
    }

    /// The first state.
    pub open spec fn first(self) -> State {
        self.states[0]
    }

    /// The last state.
    pub open spec fn last(self) -> State {
        self.states[self.operations.len() as int]
    }

    /// How many objects with a property the first `k` operations retired.
    pub open spec fn retired(self, p: spec_fn(Retired) -> bool, k: int) -> nat
        decreases k,
    {
        if k <= 0 {
            0
        } else {
            self.retired(p, k - 1) + match self.operations[k - 1] {
                Operation::Retire { t, object } => if p(object) {
                    1nat
                } else {
                    0
                },
                _ => 0,
            }
        }
    }

    /// How many objects with a property the first `k` operations reclaimed.
    pub open spec fn reclaimed(self, p: spec_fn(Retired) -> bool, k: int) -> nat
        decreases k,
    {
        if k <= 0 {
            0
        } else {
            self.reclaimed(p, k - 1) + match self.operations[k - 1] {
                Operation::Take => if p(self.states[k - 1].ready[0]) {
                    1nat
                } else {
                    0
                },
                _ => 0,
            }
        }
    }

    /// Slot `u` is active throughout, and no operation lets go of what waits for it.
    pub open spec fn stays_active(self, u: int) -> bool {
        &&& forall|i: int|
            #![trigger self.states[i]]
            0 <= i <= self.operations.len() ==> 0 <= u < self.states[i].slots()
                && self.states[i].guards[u] > 0
        &&& forall|i: int|
            0 <= i < self.operations.len() && #[trigger] self.operations[i] == (Operation::Refresh {
                t: u,
            }) ==> self.states[i].guards[u] > 1
    }
}

/// The larger bound.
spec fn larger(a: int, b: int) -> int {
    if a < b {
        b
    } else {
        a
    }
}

/// One operation.
proof fn lemma_step(
    s: State,
    operation: Operation,
    next: State,
    p: spec_fn(Retired) -> bool,
    n: int,
) -> (m: int)
    requires
        s.valid(),
        0 <= n,
        s.below(n),
        s.leads_to(operation, next),
    ensures
        next.valid(),
        n <= m,
        next.below(m),
        next.held(p, m) + (if operation is Take && p(s.ready[0]) {
            1nat
        } else {
            0
        }) == s.held(p, n) + (match operation {
            Operation::Retire { t, object } => if p(object) {
                1nat
            } else {
                0
            },
            _ => 0,
        }),
{
    let b = choose|b: int|
        0 <= b && !s.batches.contains_key(b) && next == #[trigger] s.after(operation, b);
    let m = larger(n, b + 1);
    lemma_held_bound(s, p, n, m);
    let (t, object) = slot_and_object(operation);
    law_states_stay_valid(s, t, object, b);
    law_reclaimed_exactly_once(s, t, object, p, b, m);
    if operation is SetBatchSize {
        lemma_valid_same(s, next);
    }
    m
}

/// The slot and the object of an operation, where it has them.
spec fn slot_and_object(operation: Operation) -> (int, Retired) {
    let none = Retired { ptr: 0, reclaim: 0 };
    match operation {
        Operation::Enter { t } => (t, none),
        Operation::Leave { t } => (t, none),
        Operation::Refresh { t } => (t, none),
        Operation::Flush { t } => (t, none),
        Operation::Reserve { t } => (t, none),
        Operation::Retire { t, object } => (t, object),
        Operation::SetBatchSize { size } => (0, none),
        Operation::ReclaimAll => (0, none),
        Operation::Take => (0, none),
    }
}

/// After any number of operations, what is held and what was reclaimed add up.
proof fn lemma_held_so_far(h: History, p: spec_fn(Retired) -> bool, n: int, k: int) -> (m: int)
    requires
        h.happened(),
        0 <= n,
        h.first().below(n),
        0 <= k <= h.operations.len(),
    ensures
        h.states[k].valid(),
        0 <= m,
        h.states[k].below(m),
        h.states[k].held(p, m) + h.reclaimed(p, k) == h.first().held(p, n) + h.retired(p, k),
    decreases k,
{
    if k == 0 {
        n
    } else {
        let before = lemma_held_so_far(h, p, n, k - 1);
        assert(h.states[k - 1].leads_to(h.operations[k - 1], h.states[k]));
        lemma_step(h.states[k - 1], h.operations[k - 1], h.states[k], p, before)
    }
}

/// Every state of a run is valid, and its handed-over batches have numbers below some bound, if that
/// is so of the first.
pub proof fn law_states_are_bounded(h: History, n: int, k: int) -> (m: int)
    requires
        h.happened(),
        0 <= n,
        h.first().below(n),
        0 <= k <= h.operations.len(),
    ensures
        h.states[k].valid(),
        0 <= m,
        h.states[k].below(m),
{
    lemma_held_so_far(h, |object: Retired| true, n, k)
}

/// An idle state is valid and holds nothing, so a run may start with it, and the bound on the numbers
/// of its batches is zero.
pub proof fn law_idle_is_a_start(slots: nat, batch_size: nat, p: spec_fn(Retired) -> bool)
    ensures
        State::idle(slots, batch_size).valid(),
        State::idle(slots, batch_size).below(0),
        State::idle(slots, batch_size).held(p, 0) == 0,
{
    let s = State::idle(slots, batch_size);
    lemma_empty(s.local, p, s.local.len() as int);
}

/// Empty sequences hold nothing.
pub(crate) proof fn lemma_empty(parts: Seq<Seq<Retired>>, p: spec_fn(Retired) -> bool, n: int)
    requires
        0 <= n <= parts.len(),
        forall|i: int| 0 <= i < n ==> (#[trigger] parts[i]).len() == 0,
    ensures
        times_in_all(parts, p, n) == 0,
    decreases n,
{
    if n > 0 {
        lemma_empty(parts, p, n - 1);
    }
}

/// Nothing is lost and nothing is reclaimed twice: whatever a collector is used for, the objects that
/// were retired are, in the end, those that were reclaimed and those that are still held.
pub proof fn law_nothing_is_lost(h: History, p: spec_fn(Retired) -> bool, n: int, m: int)
    requires
        h.happened(),
        0 <= n,
        h.first().below(n),
        0 <= m,
        h.last().below(m),
    ensures
        h.last().held(p, m) + h.reclaimed(p, h.operations.len() as int) == h.first().held(p, n)
            + h.retired(p, h.operations.len() as int),
{
    let l = lemma_held_so_far(h, p, n, h.operations.len() as int);
    lemma_held_bound(h.last(), p, l, larger(l, m));
    lemma_held_bound(h.last(), p, m, larger(l, m));
}

/// The bound on the numbers of the batches does not matter.
proof fn lemma_held_back_bound(s: State, u: int, p: spec_fn(Retired) -> bool, n: int, m: int)
    requires
        s.below(n),
        0 <= n <= m,
    ensures
        s.held_back(u, p, m) == s.held_back(u, p, n),
    decreases m - n,
{
    if n < m {
        lemma_held_back_bound(s, u, p, n, m - 1);
    }
}

/// One operation while slot `u` stays active.
proof fn lemma_held_back_step(
    s: State,
    operation: Operation,
    next: State,
    u: int,
    p: spec_fn(Retired) -> bool,
    n: int,
) -> (m: int)
    requires
        s.valid(),
        0 <= n,
        s.below(n),
        s.leads_to(operation, next),
        0 <= u < s.slots(),
        s.guards[u] > 0,
        u < next.slots(),
        next.guards[u] > 0,
        operation == (Operation::Refresh { t: u }) ==> s.guards[u] > 1,
    ensures
        next.valid(),
        n <= m,
        next.below(m),
        next.held_back(u, p, m) == s.held_back(u, p, n) + (match operation {
            Operation::Retire { t, object } => if p(object) {
                1nat
            } else {
                0
            },
            _ => 0,
        }),
{
    let m = lemma_step(s, operation, next, p, n);
    let b = choose|b: int|
        0 <= b && !s.batches.contains_key(b) && next == #[trigger] s.after(operation, b);
    let l = larger(m, b + 1);
    lemma_held_back_bound(s, u, p, n, l);
    lemma_held_back_bound(next, u, p, m, l);
    let (t, object) = slot_and_object(operation);
    law_guard_protects(s, u, t, object, p, b, l);
    if operation is SetBatchSize {
        lemma_valid_same(s, next);
        assert(next.batches_of(u) =~= s.batches_of(u));
    }
    if operation is ReclaimAll {
        lemma_not_positive(s.guards, s.slots() as int, u);
    }
    m
}

/// After any number of operations while slot `u` stays active, nothing was taken from what is held
/// back.
proof fn lemma_held_back_so_far(
    h: History,
    u: int,
    p: spec_fn(Retired) -> bool,
    n: int,
    k: int,
) -> (m: int)
    requires
        h.happened(),
        h.stays_active(u),
        0 <= n,
        h.first().below(n),
        0 <= k <= h.operations.len(),
    ensures
        h.states[k].valid(),
        0 <= m,
        h.states[k].below(m),
        h.states[k].held_back(u, p, m) == h.first().held_back(u, p, n) + h.retired(p, k),
    decreases k,
{
    if k == 0 {
        n
    } else {
        let before = lemma_held_back_so_far(h, u, p, n, k - 1);
        assert(h.states[k - 1].leads_to(h.operations[k - 1], h.states[k]));
        lemma_held_back_step(h.states[k - 1], h.operations[k - 1], h.states[k], u, p, before)
    }
}

/// A guard holds back what is retired while it is held: whatever happens meanwhile, each object that
/// was held back at first or was retired since is still held back.
pub proof fn law_guard_holds_back(
    h: History,
    u: int,
    p: spec_fn(Retired) -> bool,
    n: int,
    m: int,
)
    requires
        h.happened(),
        h.stays_active(u),
        0 <= n,
        h.first().below(n),
        0 <= m,
        h.last().below(m),
    ensures
        h.last().held_back(u, p, m) == h.first().held_back(u, p, n) + h.retired(
            p,
            h.operations.len() as int,
        ),
{
    let l = lemma_held_back_so_far(h, u, p, n, h.operations.len() as int);
    lemma_held_back_bound(h.last(), u, p, l, larger(l, m));
    lemma_held_back_bound(h.last(), u, p, m, larger(l, m));
}

/// Fewer batches hold fewer objects.
proof fn lemma_fewer_batches(
    some: Map<int, Seq<Retired>>,
    all: Map<int, Seq<Retired>>,
    p: spec_fn(Retired) -> bool,
    n: int,
)
    requires
        forall|b: int| #[trigger]
            some.contains_key(b) ==> all.contains_key(b) && all[b] == some[b],
    ensures
        times_in_batches(some, p, n) <= times_in_batches(all, p, n),
    decreases n,
{
    if n > 0 {
        lemma_fewer_batches(some, all, p, n - 1);
    }
}

/// A guard protects: an object that is retired while a guard is held is not reclaimed while it is
/// held, whatever happens meanwhile.
pub proof fn law_nothing_is_reclaimed_under_a_guard(
    h: History,
    u: int,
    p: spec_fn(Retired) -> bool,
    n: int,
)
    requires
        h.happened(),
        h.stays_active(u),
        0 <= n,
        h.first().below(n),
        h.first().held(p, n) == 0,
    ensures
        h.reclaimed(p, h.operations.len() as int) == 0,
{
    let k = h.operations.len() as int;
    let m = lemma_held_so_far(h, p, n, k);
    law_guard_holds_back(h, u, p, n, m);
    let last = h.last();
    lemma_fewer_batches(last.batches_of(u), last.batches, p, m);
}

/// Everything that is retired is reclaimed: once nothing is held any more, each object has been
/// reclaimed as often as it was retired.
pub proof fn law_everything_is_reclaimed(h: History, p: spec_fn(Retired) -> bool, n: int, m: int)
    requires
        h.happened(),
        0 <= n,
        h.first().below(n),
        h.first().held(p, n) == 0,
        0 <= m,
        h.last().below(m),
        h.last().held(p, m) == 0,
    ensures
        h.reclaimed(p, h.operations.len() as int) == h.retired(p, h.operations.len() as int),
{
    law_nothing_is_lost(h, p, n, m);
}

} // verus!
