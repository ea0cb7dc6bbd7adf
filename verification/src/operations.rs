//! What the operations of a collector do to it, whatever its state and their arguments.
//!
//! Each law is about every call of a function, from the collector before it to the collector after it,
//! and speaks of the parts of the state rather than of the steps that lead there.
use vstd::prelude::*;

use std::collections::TryReserveError;

use crate::collector::Collector;
use crate::effects::guarded;
use crate::effects::hands_over;
use crate::effects::law_flush_hands_over;
use crate::effects::law_leave_lets_go_with_the_last_guard;
use crate::effects::law_reclaim_all_empties_the_local_batches;
use crate::effects::law_reclaim_next_conserves;
use crate::effects::law_refresh_is_leaving_and_entering;
use crate::effects::law_retire_fills_and_hands_over;
use crate::effects::law_take_takes_the_first;
use crate::effects::let_go;
use crate::guard::Guard;
use crate::guard::LocalGuard;
use crate::memory::refused;
use crate::memory::AllocError;
use crate::raw;
use crate::state::Retired;
use crate::state::State;
use crate::thread::ThreadIds;

verus! {

/// From state `before` to state `after`, everything that was retired on slot `t` was handed over, or
/// nothing changed: the latter if there was nothing, or less than an object for each slot with a guard.
pub open spec fn flushed(before: State, t: int, after: State) -> bool {
    &&& after.guards == before.guards
    &&& after.batch_size == before.batch_size
    &&& if before.local[t].len() > 0 && before.local[t].len() >= guarded(before.guards).len() {
        after.local[t].len() == 0 && exists|b: int|
            !before.batches.contains_key(b) && #[trigger] hands_over(
                before,
                t,
                before.local[t],
                b,
                after,
            )
    } else {
        after == before
    }
}

/// Flushing a slot hands over whatever was retired on it, however large the batch size is.
pub proof fn law_flush<'a>(t: usize)
    ensures
        forall|c: &mut raw::Collector<'a>|
            c.wf() && t < c.state().guards.len() && #[trigger] call_ensures(
                raw::Collector::<'a>::flush,
                (c, t),
                (),
            ) ==> flushed(c.state(), t as int, final(c).state()),
{
    assert forall|c: &mut raw::Collector<'a>|
        c.wf() && t < c.state().guards.len() && #[trigger] call_ensures(
            raw::Collector::<'a>::flush,
            (c, t),
            (),
        ) implies flushed(c.state(), t as int, final(c).state()) by {
        c.lemma_valid();
        law_flush_hands_over(c.state(), t as int, c.batch_id(t as int), 0);
    }
}

/// From state `before` to state `after`, an object was added to those that were retired on slot `t`. They
/// were handed over if they reach the batch size and are at least one for each slot with a guard. Else
/// nothing else changed.
pub open spec fn retired(before: State, t: int, object: Retired, after: State) -> bool {
    let batch = before.local[t].push(object);
    &&& after.guards == before.guards
    &&& after.batch_size == before.batch_size
    &&& if batch.len() >= before.batch_size && batch.len() >= guarded(before.guards).len() {
        after.local[t].len() == 0 && exists|b: int|
            !before.batches.contains_key(b) && #[trigger] hands_over(before, t, batch, b, after)
    } else {
        after == (State { local: before.local.update(t, batch), ..before })
    }
}

/// Retiring an object on a slot with space for it adds it to what was retired there, and hands a full
/// batch over, for every batch size.
pub proof fn law_retire_reserved<'a>(t: usize, object: Retired)
    ensures
        forall|c: &mut raw::Collector<'a>|
            c.wf() && t < c.state().guards.len() && #[trigger] call_ensures(
                raw::Collector::<'a>::retire_reserved,
                (c, t, object),
                (),
            ) ==> retired(c.state(), t as int, object, final(c).state()),
{
    assert forall|c: &mut raw::Collector<'a>|
        c.wf() && t < c.state().guards.len() && #[trigger] call_ensures(
            raw::Collector::<'a>::retire_reserved,
            (c, t, object),
            (),
        ) implies retired(c.state(), t as int, object, final(c).state()) by {
        c.lemma_valid();
        let s = c.state();
        law_retire_fills_and_hands_over(s, t as int, object, c.batch_id(t as int));
        assert(s.cover(t as int) =~~= s);
    }
}

/// From state `before` to state `after`, nothing waits for slot `t` any longer, and what waited for it
/// alone is ready.
pub open spec fn let_go_of(before: State, t: int, after: State) -> bool {
    &&& after.local == before.local
    &&& after.batch_size == before.batch_size
    &&& after.waiting == before.waiting.update(t, Seq::empty())
    &&& after.ready == before.ready + let_go(before, t)
}

/// Refreshing the only guard of a slot lets go of everything that waits for the slot, as leaving and
/// entering again would. With more guards nothing changes.
pub proof fn law_refresh<'a>(t: usize)
    ensures
        forall|c: &mut raw::Collector<'a>|
            c.wf() && t < c.state().guards.len() && c.state().guards[t as int] > 0
                && #[trigger] call_ensures(raw::Collector::<'a>::refresh, (c, t), ()) ==> {
                &&& final(c).state().guards == c.state().guards
                &&& c.state().guards[t as int] == 1 ==> let_go_of(
                    c.state(),
                    t as int,
                    final(c).state(),
                ) && final(c).state() == c.state().leave(t as int).enter(t as int)
                &&& c.state().guards[t as int] > 1 ==> final(c).state() == c.state()
            },
{
    assert forall|c: &mut raw::Collector<'a>|
        c.wf() && t < c.state().guards.len() && c.state().guards[t as int] > 0
            && #[trigger] call_ensures(raw::Collector::<'a>::refresh, (c, t), ()) implies {
        &&& final(c).state().guards == c.state().guards
        &&& c.state().guards[t as int] == 1 ==> let_go_of(c.state(), t as int, final(c).state())
            && final(c).state() == c.state().leave(t as int).enter(t as int)
        &&& c.state().guards[t as int] > 1 ==> final(c).state() == c.state()
    } by {
        c.lemma_valid();
        law_refresh_is_leaving_and_entering(c.state(), t as int);
    }
}

/// Giving up a guard gives up just one, and lets go of what waits for the slot exactly if it was the
/// last.
pub proof fn law_leave<'a>(t: usize)
    ensures
        forall|c: &mut raw::Collector<'a>|
            c.wf() && t < c.state().guards.len() && c.state().guards[t as int] > 0
                && #[trigger] call_ensures(raw::Collector::<'a>::leave, (c, t), ()) ==> {
                &&& final(c).state().guards == c.state().guards.update(
                    t as int,
                    (c.state().guards[t as int] - 1) as nat,
                )
                &&& c.state().guards[t as int] == 1 ==> let_go_of(
                    c.state(),
                    t as int,
                    final(c).state(),
                )
                &&& c.state().guards[t as int] > 1 ==> final(c).state() == (State {
                    guards: final(c).state().guards,
                    ..c.state()
                })
            },
{
    assert forall|c: &mut raw::Collector<'a>|
        c.wf() && t < c.state().guards.len() && c.state().guards[t as int] > 0
            && #[trigger] call_ensures(raw::Collector::<'a>::leave, (c, t), ()) implies {
        &&& final(c).state().guards == c.state().guards.update(
            t as int,
            (c.state().guards[t as int] - 1) as nat,
        )
        &&& c.state().guards[t as int] == 1 ==> let_go_of(c.state(), t as int, final(c).state())
        &&& c.state().guards[t as int] > 1 ==> final(c).state() == (State {
            guards: final(c).state().guards,
            ..c.state()
        })
    } by {
        c.lemma_valid();
        law_leave_lets_go_with_the_last_guard(c.state(), t as int);
    }
}

/// From state `before` to state `after`, `taken` was the next object to be reclaimed and was taken out:
/// the first that was ready or, if none was, the first of all that was retired. Those after it are
/// ready, in order, and everything else is as it was.
pub open spec fn next_taken(before: State, taken: Option<Retired>, after: State) -> bool {
    let all = if before.ready.len() > 0 {
        before.ready
    } else {
        before.local.flatten()
    };
    &&& match taken {
        Some(object) => all == seq![object] + after.ready,
        None => all.len() == 0 && after.ready.len() == 0,
    }
    &&& after.local.len() == before.local.len()
    &&& before.ready.len() > 0 ==> after.local == before.local
    &&& before.ready.len() == 0 ==> forall|u: int|
        0 <= u < after.local.len() ==> (#[trigger] after.local[u]).len() == 0
    &&& after.guards == before.guards
    &&& after.waiting == before.waiting
    &&& after.batches == before.batches
    &&& after.batch_size == before.batch_size
}

/// Reclaiming the next object takes out the first of all and no other. For every property, what was held
/// is what is held, and the object that was taken if it has the property.
pub proof fn law_reclaim_next<'a>(taken: Option<Retired>, p: spec_fn(Retired) -> bool, n: int)
    requires
        0 <= n,
    ensures
        forall|c: &mut Collector<'a>|
            c.wf() && #[trigger] call_ensures(Collector::<'a>::reclaim_next, (c,), taken) ==> {
                &&& next_taken(c.state(), taken, final(c).state())
                &&& c.state().below(n) ==> c.state().held(p, n) == final(c).state().held(p, n) + (
                if taken is Some && p(taken->0) {
                    1nat
                } else {
                    0
                })
            },
{
    assert forall|c: &mut Collector<'a>|
        c.wf() && #[trigger] call_ensures(Collector::<'a>::reclaim_next, (c,), taken) implies {
        &&& next_taken(c.state(), taken, final(c).state())
        &&& c.state().below(n) ==> c.state().held(p, n) == final(c).state().held(p, n) + (
        if taken is Some && p(taken->0) {
            1nat
        } else {
            0
        })
    } by {
        c.lemma_valid();
        let s = c.state();
        if s.below(n) {
            law_reclaim_next_conserves(s, p, n);
        }
        law_reclaim_all_empties_the_local_batches(s);
        assert(s.ready.len() == 0 ==> s.ready + s.local.flatten() =~= s.local.flatten());
        if taken is Some {
            law_take_takes_the_first(s.all_ready());
        }
    }
}

/// Giving a thread slot back frees it, unless a request for space for one more free identifier, beside
/// exactly those that are free, was refused. No other identifier is affected.
pub proof fn law_release(id: usize, recycled: bool)
    ensures
        forall|ids: &mut ThreadIds| #[trigger]
            call_ensures(ThreadIds::release, (ids, id), recycled) ==> {
                &&& recycled ==> final(ids).in_use() == ids.in_use().remove(id as int)
                &&& !recycled ==> final(ids).in_use() == ids.in_use() && exists|
                    free: &mut Vec<usize>,
                    e: TryReserveError,
                |
                    (forall|other: usize| #[trigger]
                        free@.contains(other) <==> other < ids.known() && !ids.in_use().contains(
                            other as int,
                        )) && #[trigger] call_ensures(
                        Vec::<usize>::try_reserve,
                        (free, 1usize),
                        Err::<(), TryReserveError>(e),
                    )
            },
{
}

/// A guard that was entered on a thread is one more on its slot. The guards of other threads do not
/// change, and nothing is let go.
pub proof fn law_enter<'a>(thread: usize, guard: LocalGuard)
    ensures
        forall|c: &mut Collector<'a>| #[trigger]
            call_ensures(
                Collector::<'a>::enter,
                (c, thread),
                Ok::<LocalGuard, AllocError>(guard),
            ) ==> {
                &&& guard.slot() == thread
                &&& guard.owner() == c.id()
                &&& final(c).state().guards[thread as int] == if thread < c.state().guards.len() {
                    c.state().guards[thread as int] + 1
                } else {
                    1
                }
                &&& final(c).state().ready == c.state().ready
                &&& final(c).state().batches == c.state().batches
                &&& forall|u: int|
                    0 <= u < c.state().guards.len() && u != thread ==> #[trigger] final(
                        c
                    ).state().guards[u] == c.state().guards[u]
            },
{
}

/// An operation fails only if the allocator refused, or if there can be no slot for the thread, and then
/// leaves the state as it was.
pub proof fn law_failures_are_refusals<'a>(thread: usize, ptr: usize, reclaim: usize, e: AllocError)
    ensures
        forall|c: &mut Collector<'a>|
            c.wf() && #[trigger] call_ensures(
                Collector::<'a>::enter,
                (c, thread),
                Err::<LocalGuard, AllocError>(e),
            ) ==> final(c).state() == c.state() && (refused() || thread == usize::MAX),
        forall|c: &mut Collector<'a>|
            c.wf() && #[trigger] call_ensures(
                Collector::<'a>::reserve_retire,
                (c, thread),
                Err::<(), AllocError>(e),
            ) ==> final(c).state() == c.state() && (refused() || thread == usize::MAX),
        forall|c: &mut Collector<'a>|
            c.wf() && #[trigger] call_ensures(
                Collector::<'a>::retire,
                (c, thread, ptr, reclaim),
                Err::<(), AllocError>(e),
            ) ==> final(c).state() == c.state() && (refused() || thread == usize::MAX),
{
    assert forall|c: &mut Collector<'a>|
        c.wf() && #[trigger] call_ensures(
            Collector::<'a>::enter,
            (c, thread),
            Err::<LocalGuard, AllocError>(e),
        ) implies final(c).state() == c.state() && (refused() || thread == usize::MAX) by {
        c.law_want_of_memory_is_a_refusal(thread as int);
    }
    assert forall|c: &mut Collector<'a>|
        c.wf() && #[trigger] call_ensures(
            Collector::<'a>::reserve_retire,
            (c, thread),
            Err::<(), AllocError>(e),
        ) implies final(c).state() == c.state() && (refused() || thread == usize::MAX) by {
        c.law_want_of_memory_is_a_refusal(thread as int);
    }
    assert forall|c: &mut Collector<'a>|
        c.wf() && #[trigger] call_ensures(
            Collector::<'a>::retire,
            (c, thread, ptr, reclaim),
            Err::<(), AllocError>(e),
        ) implies final(c).state() == c.state() && (refused() || thread == usize::MAX) by {
        c.law_want_of_memory_is_a_refusal(thread as int);
    }
}

/// An object that was retired on a thread is the last of what was retired on its slot, or was handed over
/// with it as a full batch.
pub proof fn law_retire<'a>(thread: usize, ptr: usize, reclaim: usize)
    ensures
        forall|c: &mut Collector<'a>|
            c.wf() && thread < c.state().guards.len() && #[trigger] call_ensures(
                Collector::<'a>::retire,
                (c, thread, ptr, reclaim),
                Ok::<(), AllocError>(()),
            ) ==> retired(
                c.state(),
                thread as int,
                (Retired { ptr, reclaim }),
                final(c).state(),
            ),
{
    assert forall|c: &mut Collector<'a>|
        c.wf() && thread < c.state().guards.len() && #[trigger] call_ensures(
            Collector::<'a>::retire,
            (c, thread, ptr, reclaim),
            Ok::<(), AllocError>(()),
        ) implies retired(
        c.state(),
        thread as int,
        (Retired { ptr, reclaim }),
        final(c).state(),
    ) by {
        c.lemma_valid();
        let s = c.state();
        let object = Retired { ptr, reclaim };
        let b = choose|b: int|
            0 <= b && !s.batches.contains_key(b) && final(c).state() == #[trigger] s.retire(
                thread as int,
                object,
                b,
            );
        law_retire_fills_and_hands_over(s, thread as int, object, b);
        assert(s.cover(thread as int) =~~= s);
    }
}

} // verus!
