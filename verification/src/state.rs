//! What a collector knows, and what each operation does to it.
//!
//! A [`State`] has one position per thread slot. An object that has been retired is in exactly one
//! of three places: in the *local* batch of the slot that retired it, in a batch that has been
//! handed to every slot that was active at that moment, or among the objects that are *ready* to
//! be reclaimed. A handed-over batch becomes ready when the last slot that waits on it leaves.
use vstd::prelude::*;

verus! {

/// A retired object: where it is, and the function that reclaims it, both as addresses.
#[derive(Clone, Copy, Debug, PartialEq, Eq, Structural)]
pub struct Retired {
    /// The address of the object.
    pub ptr: usize,
    /// The address of the function that reclaims it.
    pub reclaim: usize,
}

/// The state of a collector.
#[verifier::ext_equal]
pub struct State {
    /// How many objects a local batch must hold before it is handed over.
    pub batch_size: nat,
    /// For each slot, the number of guards that are held on it.
    pub guards: Seq<nat>,
    /// For each slot, the objects that were retired on it and have not been handed over.
    pub local: Seq<Seq<Retired>>,
    /// For each slot, the batches that wait for it, the newest first.
    pub waiting: Seq<Seq<int>>,
    /// The objects of each batch that has been handed over and not been released.
    pub batches: Map<int, Seq<Retired>>,
    /// The objects that may be reclaimed, in the order in which they will be.
    pub ready: Seq<Retired>,
}

/// How many of the first `n` numbers are positive.
pub open spec fn positives(counts: Seq<nat>, n: int) -> nat
    decreases n,
{
    if n <= 0 {
        0
    } else if counts[n - 1] > 0 {
        positives(counts, n - 1) + 1
    } else {
        positives(counts, n - 1)
    }
}

/// The first `n` sequences, one after the other.
pub open spec fn joined(parts: Seq<Seq<Retired>>, n: int) -> Seq<Retired>
    decreases n,
{
    if n <= 0 {
        Seq::empty()
    } else {
        joined(parts, n - 1) + parts[n - 1]
    }
}

impl State {
    /// No guard is held and nothing has been retired.
    pub open spec fn idle(slots: nat, batch_size: nat) -> State {
        State {
            batch_size,
            guards: Seq::new(slots, |u: int| 0nat),
            local: Seq::new(slots, |u: int| Seq::<Retired>::empty()),
            waiting: Seq::new(slots, |u: int| Seq::<int>::empty()),
            batches: Map::empty(),
            ready: Seq::empty(),
        }
    }

    /// The number of thread slots.
    pub open spec fn slots(self) -> nat {
        self.guards.len()
    }

    /// Batch `b` waits for slot `u`.
    pub open spec fn waits(self, u: int, b: int) -> bool {
        0 <= u < self.slots() && self.waiting[u].contains(b)
    }

    /// Batch `b` waits for slot `u` and for no other.
    pub open spec fn waits_only(self, u: int, b: int) -> bool {
        &&& self.waits(u, b)
        &&& forall|v: int| self.waits(v, b) ==> v == u
    }

    /// The number of slots on which a guard is held.
    pub open spec fn active(self) -> nat {
        positives(self.guards, self.guards.len() as int)
    }

    /// What holds of every state that a collector is in: a batch waits only for slots that are
    /// active, for each of them once, and there is no handed-over batch that waits for none.
    pub open spec fn valid(self) -> bool {
        &&& self.local.len() == self.slots()
        &&& self.waiting.len() == self.slots()
        &&& forall|u: int| 0 <= u < self.slots() && self.guards[u] == 0 ==> #[trigger] self.waiting[u].len() == 0
        &&& forall|u: int| 0 <= u < self.slots() ==> #[trigger] self.waiting[u].no_duplicates()
        &&& forall|u: int, b: int| #[trigger] self.waits(u, b) ==> self.batches.contains_key(b)
        &&& forall|b: int| #[trigger]
            self.batches.contains_key(b) ==> exists|u: int| #[trigger] self.waits(u, b)
    }

    /// Makes room for slot `t`.
    pub open spec fn cover(self, t: int) -> State {
        let slots = if t < self.slots() { self.slots() } else { (t + 1) as nat };
        State {
            guards: Seq::new(slots, |u: int| if u < self.slots() { self.guards[u] } else { 0 }),
            local: Seq::new(
                slots,
                |u: int| if u < self.slots() { self.local[u] } else { Seq::empty() },
            ),
            waiting: Seq::new(
                slots,
                |u: int| if u < self.slots() { self.waiting[u] } else { Seq::empty() },
            ),
            ..self
        }
    }

    /// One more guard on slot `t`.
    pub open spec fn enter(self, t: int) -> State {
        let s = self.cover(t);
        State { guards: s.guards.update(t, s.guards[t] + 1), ..s }
    }

    /// Of the first `n` batches that wait for slot `t`, those that wait for no other.
    pub open spec fn freed(self, t: int, n: int) -> Seq<int>
        decreases n,
    {
        if n <= 0 {
            Seq::empty()
        } else if self.waits_only(t, self.waiting[t][n - 1]) {
            self.freed(t, n - 1).push(self.waiting[t][n - 1])
        } else {
            self.freed(t, n - 1)
        }
    }

    /// The objects of the given batches.
    pub open spec fn contents(self, ids: Seq<int>) -> Seq<Seq<Retired>> {
        Seq::new(ids.len(), |i: int| self.batches[ids[i]])
    }

    /// The first `n` batches that wait for slot `t` wait for it no longer. Those that wait for no
    /// other slot are released, in order.
    pub open spec fn release_first(self, t: int, n: int) -> State {
        let freed = self.freed(t, n);
        State {
            waiting: self.waiting.update(t, self.waiting[t].skip(n)),
            batches: self.batches.remove_keys(freed.to_set()),
            ready: self.ready + joined(self.contents(freed), freed.len() as int),
            ..self
        }
    }

    /// No batch waits for slot `t` any longer.
    pub open spec fn release(self, t: int) -> State {
        self.release_first(t, self.waiting[t].len() as int)
    }

    /// One guard less on slot `t`. With the last one, what waits for the slot is let go.
    pub open spec fn leave(self, t: int) -> State {
        let s = State { guards: self.guards.update(t, (self.guards[t] - 1) as nat), ..self };
        if self.guards[t] == 1 {
            s.release(t)
        } else {
            s
        }
    }

    /// As if the only guard on slot `t` left and entered again; nothing if there are more.
    pub open spec fn refresh(self, t: int) -> State {
        if self.guards[t] == 1 {
            self.release(t)
        } else {
            self
        }
    }

    /// The local batch of slot `t` is handed, as batch `b`, to every slot that is active; with none
    /// active, its objects are ready at once.
    pub open spec fn hand_over(self, t: int, b: int) -> State {
        if self.active() == 0 {
            State {
                local: self.local.update(t, Seq::empty()),
                ready: self.ready + self.local[t],
                ..self
            }
        } else {
            State {
                local: self.local.update(t, Seq::empty()),
                waiting: Seq::new(
                    self.slots(),
                    |u: int|
                        if self.guards[u] > 0 {
                            seq![b] + self.waiting[u]
                        } else {
                            self.waiting[u]
                        },
                ),
                batches: self.batches.insert(b, self.local[t]),
                ..self
            }
        }
    }

    /// Hands over the local batch of slot `t`, unless it is empty or holds fewer objects than
    /// there are active slots.
    pub open spec fn flush(self, t: int, b: int) -> State {
        if self.local[t].len() == 0 || self.local[t].len() < self.active() {
            self
        } else {
            self.hand_over(t, b)
        }
    }

    /// Adds an object to the local batch of slot `t`.
    pub open spec fn add_local(self, t: int, object: Retired) -> State {
        let s = self.cover(t);
        State { local: s.local.update(t, s.local[t].push(object)), ..s }
    }

    /// Retires an object on slot `t`. A local batch that has reached the batch size is flushed.
    pub open spec fn retire(self, t: int, object: Retired, b: int) -> State {
        let s = self.add_local(t, object);
        if s.local[t].len() >= s.batch_size {
            s.flush(t, b)
        } else {
            s
        }
    }

    /// State `after` is this one with an object retired on slot `t`, under a number that no
    /// handed-over batch has if the local batch is handed over.
    pub open spec fn retires_to(self, t: int, object: Retired, after: State) -> bool {
        exists|b: int|
            0 <= b && !self.batches.contains_key(b) && after == #[trigger] self.retire(
                t,
                object,
                b,
            )
    }

    /// Every local batch is ready.
    pub open spec fn reclaim_all(self) -> State {
        State {
            local: Seq::new(self.local.len(), |u: int| Seq::<Retired>::empty()),
            ready: self.ready + joined(self.local, self.local.len() as int),
            ..self
        }
    }

    /// If nothing is ready, every local batch is.
    pub open spec fn all_ready(self) -> State {
        if self.ready.len() == 0 {
            self.reclaim_all()
        } else {
            self
        }
    }

    /// The first ready object is taken out to be reclaimed.
    pub open spec fn take_ready(self) -> State {
        State { ready: self.ready.drop_first(), ..self }
    }
}

} // verus!
