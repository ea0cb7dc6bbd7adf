//! What each operation does to each part of a state, and how operations relate.
//!
//! The laws here speak of the parts themselves: of the guards on a slot, of the objects in a batch, of
//! what waits for whom and of what is ready.
use vstd::prelude::*;

use crate::laws::law_reclaimed_exactly_once;
use crate::laws::law_states_stay_valid;
use crate::laws::lemma_held_bound;
use crate::laws::lemma_leave_last;
use crate::laws::lemma_release;
use crate::laws::lemma_times_joined;
use crate::laws::times;
use crate::laws::times_in_all;
use crate::state::joined;
use crate::state::positives;
use crate::state::Retired;
use crate::state::State;

verus! {

/// The slots on which a guard is held.
pub open spec fn guarded(guards: Seq<nat>) -> Set<int> {
    Set::new(|u: int| 0 <= u < guards.len() && guards[u] > 0)
}

/// The objects that were retired on slot `t` and have not been handed over, for a slot that may not be
/// there yet.
pub open spec fn pending(s: State, t: int) -> Seq<Retired> {
    if t < s.local.len() {
        s.local[t]
    } else {
        Seq::empty()
    }
}

/// No slot but `t` is waited for by batch `b`.
pub open spec fn for_no_other(waiting: Seq<Seq<int>>, t: int, b: int) -> bool {
    forall|u: int| 0 <= u < waiting.len() && u != t ==> !(#[trigger] waiting[u]).contains(b)
}

/// The objects of the batches that wait for slot `t` alone, in the order in which the batches wait.
pub open spec fn let_go(s: State, t: int) -> Seq<Retired> {
    s.waiting[t].filter(|b: int| for_no_other(s.waiting, t, b)).map_values(
        |b: int| s.batches[b],
    ).flatten()
}

/// The count of positive numbers is the number of places where they are.
proof fn lemma_positives_are_places(counts: Seq<nat>, n: int)
    requires
        0 <= n <= counts.len(),
    ensures
        Set::new(|u: int| 0 <= u < n && counts[u] > 0).finite(),
        positives(counts, n) == Set::new(|u: int| 0 <= u < n && counts[u] > 0).len(),
    decreases n,
{
    let now = Set::new(|u: int| 0 <= u < n && counts[u] > 0);
    if n == 0 {
        assert(now =~= Set::<int>::empty());
    } else {
        lemma_positives_are_places(counts, n - 1);
        let before = Set::new(|u: int| 0 <= u < n - 1 && counts[u] > 0);
        if counts[n - 1] > 0 {
            assert(now =~= before.insert(n - 1));
        } else {
            assert(now =~= before);
        }
    }
}

/// Joining sequences is flattening them.
proof fn lemma_joined_flat(parts: Seq<Seq<Retired>>, n: int)
    requires
        0 <= n <= parts.len(),
    ensures
        joined(parts, n) == parts.take(n).flatten(),
    decreases n,
{
    if n == 0 {
        assert(parts.take(0).len() == 0);
    } else {
        lemma_joined_flat(parts, n - 1);
        parts.take(n - 1).lemma_flatten_push(parts[n - 1]);
        assert(parts.take(n - 1).push(parts[n - 1]) =~= parts.take(n));
    }
}

/// The number of active slots is the number of slots on which a guard is held.
pub proof fn law_active_counts_guarded_slots(s: State)
    ensures
        guarded(s.guards).finite(),
        s.active() == guarded(s.guards).len(),
        s.active() == 0 <==> forall|u: int| 0 <= u < s.guards.len() ==> #[trigger] s.guards[u] == 0,
{
    lemma_positives_are_places(s.guards, s.guards.len() as int);
    let places = Set::new(|u: int| 0 <= u < s.guards.len() && s.guards[u] > 0);
    assert(guarded(s.guards) =~= places);
    if s.active() == 0 {
        assert forall|u: int| 0 <= u < s.guards.len() implies #[trigger] s.guards[u] == 0 by {
            if s.guards[u] > 0 {
                assert(places.contains(u));
                assert(places.len() > 0);
            }
        }
    } else if forall|u: int| 0 <= u < s.guards.len() ==> #[trigger] s.guards[u] == 0 {
        assert(places =~= Set::<int>::empty());
    }
}

/// A new collector has its slots, no guard, and nothing that was retired.
pub proof fn law_idle_is_empty(slots: nat, batch_size: nat)
    ensures
        State::idle(slots, batch_size).batch_size == batch_size,
        State::idle(slots, batch_size).guards.len() == slots,
        State::idle(slots, batch_size).local.len() == slots,
        State::idle(slots, batch_size).waiting.len() == slots,
        forall|u: int|
            0 <= u < slots ==> {
                &&& #[trigger] State::idle(slots, batch_size).guards[u] == 0
                &&& State::idle(slots, batch_size).local[u].len() == 0
                &&& State::idle(slots, batch_size).waiting[u].len() == 0
            },
        State::idle(slots, batch_size).batches.dom() == Set::<int>::empty(),
        State::idle(slots, batch_size).ready.len() == 0,
{
}

/// Making room for a slot adds the slots up to it, without guards and with nothing retired, and changes
/// nothing else.
pub proof fn law_cover_adds_empty_slots(s: State, t: int)
    requires
        s.valid(),
        0 <= t,
    ensures
        s.cover(t).guards.len() == if t < s.guards.len() {
            s.guards.len() as int
        } else {
            t + 1
        },
        s.cover(t).local.len() == s.cover(t).guards.len(),
        s.cover(t).waiting.len() == s.cover(t).guards.len(),
        forall|u: int|
            0 <= u < s.guards.len() ==> {
                &&& #[trigger] s.cover(t).guards[u] == s.guards[u]
                &&& s.cover(t).local[u] == s.local[u]
                &&& s.cover(t).waiting[u] == s.waiting[u]
            },
        forall|u: int|
            s.guards.len() <= u < s.cover(t).guards.len() ==> {
                &&& #[trigger] s.cover(t).guards[u] == 0
                &&& s.cover(t).local[u].len() == 0
                &&& s.cover(t).waiting[u].len() == 0
            },
        s.cover(t).batches == s.batches,
        s.cover(t).ready == s.ready,
        s.cover(t).batch_size == s.batch_size,
{
}

/// Entering holds one more guard on the slot, which is added if it is not there, and changes nothing
/// else: no other slot, nothing that was retired and nothing that is ready.
pub proof fn law_enter_adds_a_guard(s: State, t: int)
    requires
        s.valid(),
        0 <= t,
    ensures
        s.enter(t).guards.len() == if t < s.guards.len() {
            s.guards.len() as int
        } else {
            t + 1
        },
        s.enter(t).local.len() == s.enter(t).guards.len(),
        s.enter(t).waiting.len() == s.enter(t).guards.len(),
        s.enter(t).guards[t] == if t < s.guards.len() {
            s.guards[t] + 1
        } else {
            1
        },
        forall|u: int|
            0 <= u < s.enter(t).guards.len() ==> {
                &&& u != t ==> #[trigger] s.enter(t).guards[u] == if u < s.guards.len() {
                    s.guards[u]
                } else {
                    0
                }
                &&& s.enter(t).local[u] == pending(s, u)
                &&& s.enter(t).waiting[u] == if u < s.waiting.len() {
                    s.waiting[u]
                } else {
                    Seq::<int>::empty()
                }
            },
        s.enter(t).batches == s.batches,
        s.enter(t).ready == s.ready,
        s.enter(t).batch_size == s.batch_size,
{
}

/// What is freed is what waits for the slot alone, in order.
proof fn lemma_freed_is_filter(s: State, t: int, n: int)
    requires
        s.valid(),
        0 <= t < s.slots(),
        0 <= n <= s.waiting[t].len(),
    ensures
        s.freed(t, n) == s.waiting[t].take(n).filter(|b: int| for_no_other(s.waiting, t, b)),
    decreases n,
{
    reveal(Seq::filter);
    let list = s.waiting[t].take(n);
    if n > 0 {
        lemma_freed_is_filter(s, t, n - 1);
        assert(list.drop_last() =~= s.waiting[t].take(n - 1));
        let b = s.waiting[t][n - 1];
        assert(s.waits(t, b));
        assert(s.waits_only(t, b) == for_no_other(s.waiting, t, b)) by {
            if s.waits_only(t, b) {
                assert forall|u: int| 0 <= u < s.waiting.len() && u != t implies !(
                #[trigger] s.waiting[u]).contains(b) by {
                    assert(s.waits(u, b) ==> u == t);
                }
            }
        }
    }
}

/// Letting go, part by part.
proof fn lemma_release_parts(s: State, t: int)
    requires
        s.valid(),
        0 <= t < s.slots(),
    ensures
        s.release(t).guards == s.guards,
        s.release(t).local == s.local,
        s.release(t).batch_size == s.batch_size,
        s.release(t).waiting == s.waiting.update(t, Seq::empty()),
        s.release(t).ready == s.ready + let_go(s, t),
        forall|b: int| #[trigger]
            s.release(t).batches.contains_key(b) <==> s.batches.contains_key(b) && !(
            s.waiting[t].contains(b) && for_no_other(s.waiting, t, b)),
        forall|b: int| #[trigger]
            s.release(t).batches.contains_key(b) ==> s.release(t).batches[b] == s.batches[b],
{
    let n = s.waiting[t].len() as int;
    let p = |b: int| for_no_other(s.waiting, t, b);
    lemma_release(s, t);
    lemma_freed_is_filter(s, t, n);
    assert(s.waiting[t].take(n) =~= s.waiting[t]);
    let freed = s.freed(t, n);
    let parts = s.contents(freed);
    lemma_joined_flat(parts, parts.len() as int);
    assert(parts.take(parts.len() as int) =~= parts);
    assert(parts =~= s.waiting[t].filter(p).map_values(|b: int| s.batches[b]));
    assert(s.waiting[t].skip(n) =~= Seq::<int>::empty());
    assert forall|b: int| s.waits_only(t, b) <==> s.waiting[t].contains(b) && for_no_other(
        s.waiting,
        t,
        b,
    ) by {
        if s.waits_only(t, b) {
            assert(s.waits(t, b));
            assert forall|u: int| 0 <= u < s.waiting.len() && u != t implies !(
            #[trigger] s.waiting[u]).contains(b) by {
                assert(s.waits(u, b) ==> u == t);
            }
        }
        if s.waiting[t].contains(b) && for_no_other(s.waiting, t, b) {
            assert(s.waits(t, b));
            assert forall|v: int| s.waits(v, b) implies v == t by {}
        }
    }
}

/// Leaving gives up one guard. While another is held on the slot nothing else changes. With the last
/// one, nothing waits for the slot any longer: the batches that waited for it alone are no longer handed
/// over, and their objects are ready after those that were, in the order in which the batches waited.
/// Every other batch, slot and object stays as it is.
pub proof fn law_leave_lets_go_with_the_last_guard(s: State, t: int)
    requires
        s.valid(),
        0 <= t < s.guards.len(),
        s.guards[t] > 0,
    ensures
        s.leave(t).guards == s.guards.update(t, (s.guards[t] - 1) as nat),
        s.leave(t).local == s.local,
        s.leave(t).batch_size == s.batch_size,
        s.guards[t] > 1 ==> s.leave(t).waiting == s.waiting && s.leave(t).batches == s.batches
            && s.leave(t).ready == s.ready,
        s.guards[t] == 1 ==> {
            &&& s.leave(t).waiting == s.waiting.update(t, Seq::empty())
            &&& s.leave(t).ready == s.ready + let_go(s, t)
            &&& forall|b: int| #[trigger]
                s.leave(t).batches.contains_key(b) <==> s.batches.contains_key(b) && !(
                s.waiting[t].contains(b) && for_no_other(s.waiting, t, b))
            &&& forall|b: int| #[trigger]
                s.leave(t).batches.contains_key(b) ==> s.leave(t).batches[b] == s.batches[b]
        },
{
    if s.guards[t] == 1 {
        lemma_leave_last(s, t);
        lemma_release_parts(s, t);
        assert(s.guards.update(t, 0) =~= s.guards.update(t, (s.guards[t] - 1) as nat));
    }
}

/// Refreshing the only guard of a slot is leaving and entering again. It lets go of everything that
/// waits for the slot, and keeps the guard. Refreshing one of several does nothing.
pub proof fn law_refresh_is_leaving_and_entering(s: State, t: int)
    requires
        s.valid(),
        0 <= t < s.guards.len(),
        s.guards[t] > 0,
    ensures
        s.guards[t] == 1 ==> s.refresh(t) == s.leave(t).enter(t),
        s.guards[t] > 1 ==> s.refresh(t) == s,
        s.refresh(t).guards == s.guards,
        s.refresh(t).local == s.local,
        s.refresh(t).batch_size == s.batch_size,
        s.guards[t] == 1 ==> {
            &&& s.refresh(t).waiting == s.waiting.update(t, Seq::empty())
            &&& s.refresh(t).waiting[t].len() == 0
            &&& s.refresh(t).ready == s.ready + let_go(s, t)
            &&& forall|b: int| #[trigger]
                s.refresh(t).batches.contains_key(b) <==> s.batches.contains_key(b) && !(
                s.waiting[t].contains(b) && for_no_other(s.waiting, t, b))
            &&& forall|b: int| #[trigger]
                s.refresh(t).batches.contains_key(b) ==> s.refresh(t).batches[b] == s.batches[b]
        },
{
    if s.guards[t] == 1 {
        lemma_leave_last(s, t);
        lemma_release_parts(s, t);
        let l = s.leave(t);
        assert(l.enter(t).guards =~= s.guards);
        assert(l.enter(t).local =~= s.local);
        assert(l.enter(t).waiting =~= l.waiting);
        assert(s.refresh(t) =~= l.enter(t));
    }
}

/// State `after` is `s` with the objects `batch` of slot `t` handed over under the number `b`. With no
/// guard held they are ready at once, after those that were. Else they wait for every slot on which a
/// guard is held, before what waited for it, and for no other.
pub open spec fn hands_over(s: State, t: int, batch: Seq<Retired>, b: int, after: State) -> bool {
    &&& after.local == s.local.update(t, Seq::empty())
    &&& if guarded(s.guards).len() == 0 {
        &&& after.ready == s.ready + batch
        &&& after.batches == s.batches
        &&& after.waiting == s.waiting
    } else {
        &&& after.ready == s.ready
        &&& after.batches == s.batches.insert(b, batch)
        &&& after.waiting.len() == s.waiting.len()
        &&& forall|u: int|
            0 <= u < s.waiting.len() ==> #[trigger] after.waiting[u] == if s.guards[u] > 0 {
                seq![b] + s.waiting[u]
            } else {
                s.waiting[u]
            }
    }
}

/// Handing over, part by part.
proof fn lemma_hand_over_parts(s: State, t: int, b: int)
    requires
        s.valid(),
        0 <= t < s.slots(),
    ensures
        hands_over(s, t, s.local[t], b, s.hand_over(t, b)),
        s.hand_over(t, b).guards == s.guards,
        s.hand_over(t, b).batch_size == s.batch_size,
{
    law_active_counts_guarded_slots(s);
}

/// Flushing hands over whatever was retired on the slot, however large the batch size is, unless that
/// is nothing or fewer objects than there are slots with a guard: then nothing changes. Flushing again
/// does nothing.
pub proof fn law_flush_hands_over(s: State, t: int, b: int, c: int)
    requires
        s.valid(),
        0 <= t < s.guards.len(),
        !s.batches.contains_key(b),
    ensures
        s.flush(t, b).guards == s.guards,
        s.flush(t, b).batch_size == s.batch_size,
        s.local[t].len() > 0 && s.local[t].len() >= guarded(s.guards).len() ==> hands_over(
            s,
            t,
            s.local[t],
            b,
            s.flush(t, b),
        ),
        s.local[t].len() > 0 && s.local[t].len() >= guarded(s.guards).len() ==> s.flush(
            t,
            b,
        ).local[t].len() == 0,
        s.local[t].len() == 0 || s.local[t].len() < guarded(s.guards).len() ==> s.flush(t, b) == s,
        s.flush(t, b).flush(t, c) == s.flush(t, b),
{
    law_active_counts_guarded_slots(s);
    law_active_counts_guarded_slots(s.flush(t, b));
    lemma_hand_over_parts(s, t, b);
}

/// Retiring puts an object at the end of the local batch of the slot. A batch that has then reached the
/// batch size, and has an object for every slot with a guard, is handed over whole; else it stays. The
/// guards, the batch size and the local batches of other slots do not change.
pub proof fn law_retire_fills_and_hands_over(s: State, t: int, object: Retired, b: int)
    requires
        s.valid(),
        0 <= t,
        !s.batches.contains_key(b),
    ensures
        ({
            let batch = pending(s, t).push(object);
            let c = s.cover(t);
            let r = s.retire(t, object, b);
            &&& r.guards == c.guards
            &&& r.batch_size == s.batch_size
            &&& batch.len() >= s.batch_size && batch.len() >= guarded(s.guards).len() ==> hands_over(
                c,
                t,
                batch,
                b,
                r,
            )
            &&& batch.len() < s.batch_size || batch.len() < guarded(s.guards).len() ==> {
                &&& r.local == c.local.update(t, batch)
                &&& r.waiting == c.waiting
                &&& r.batches == s.batches
                &&& r.ready == s.ready
            }
        }),
{
    let c = s.cover(t);
    let a = s.add_local(t, object);
    let batch = pending(s, t).push(object);
    law_states_stay_valid(s, t, object, b);
    assert(a.local[t] == batch);
    assert(guarded(c.guards) =~= guarded(s.guards));
    assert(a.guards == c.guards);
    law_active_counts_guarded_slots(s);
    law_active_counts_guarded_slots(a);
    assert(a.local.update(t, Seq::empty()) =~= c.local.update(t, Seq::empty()));
}

/// A full batch is handed over: after a retirement the local batch of the slot is empty, or has not
/// reached the batch size, or has fewer objects than there are slots with a guard.
pub proof fn law_full_batches_are_handed_over(s: State, t: int, object: Retired, b: int)
    requires
        s.valid(),
        0 <= t,
        !s.batches.contains_key(b),
    ensures
        ({
            let r = s.retire(t, object, b);
            ||| r.local[t].len() == 0
            ||| r.local[t].len() < r.batch_size
            ||| r.local[t].len() < guarded(r.guards).len()
        }),
        ({
            let r = s.retire(t, object, b);
            ||| r.local[t].len() == 0
            ||| r.local[t].len() < r.batch_size
            ||| r.local[t].len() < r.active()
        }),
{
    law_retire_fills_and_hands_over(s, t, object, b);
    law_active_counts_guarded_slots(s.retire(t, object, b));
    assert(guarded(s.cover(t).guards) =~= guarded(s.guards));
    assert(0 <= t < s.cover(t).local.len());
}

/// A retirement that succeeds leads to a state in which the object was retired once, under a number that
/// no batch has: it is at the end of the local batch of the slot, or at the end of the batch that was
/// handed over or is ready.
pub proof fn law_retirement_keeps_the_object(s: State, t: int, object: Retired, after: State)
    requires
        s.valid(),
        0 <= t,
        s.retires_to(t, object, after),
    ensures
        exists|b: int|
            0 <= b && !s.batches.contains_key(b) && #[trigger] s.retire(t, object, b) == after,
        after.guards == s.cover(t).guards,
        after.batch_size == s.batch_size,
        after.local.len() == s.cover(t).local.len(),
        forall|u: int|
            0 <= u < after.local.len() && u != t ==> #[trigger] after.local[u] == pending(s, u),
        ({
            let batch = pending(s, t).push(object);
            ||| after.local[t] == batch && after.ready == s.ready && after.batches == s.batches
            ||| after.local[t].len() == 0 && after.ready == s.ready + batch && after.batches
                == s.batches
            ||| after.local[t].len() == 0 && after.ready == s.ready && exists|b: int|
                0 <= b && !s.batches.contains_key(b) && after.batches
                    == #[trigger] s.batches.insert(b, batch)
        }),
{
    let b = choose|b: int|
        0 <= b && !s.batches.contains_key(b) && after == #[trigger] s.retire(t, object, b);
    law_retire_fills_and_hands_over(s, t, object, b);
    let batch = pending(s, t).push(object);
    if batch.len() >= s.batch_size && batch.len() >= guarded(s.guards).len() {
        if guarded(s.cover(t).guards).len() != 0 {
            assert(after.batches == s.batches.insert(b, batch));
        }
    }
}

/// Reclaiming all empties every local batch. The objects are ready, slot by slot, after those that
/// were, and nothing else changes.
pub proof fn law_reclaim_all_empties_the_local_batches(s: State)
    ensures
        s.reclaim_all().local.len() == s.local.len(),
        forall|u: int| 0 <= u < s.local.len() ==> #[trigger] s.reclaim_all().local[u].len() == 0,
        s.reclaim_all().ready == s.ready + s.local.flatten(),
        s.reclaim_all().guards == s.guards,
        s.reclaim_all().waiting == s.waiting,
        s.reclaim_all().batches == s.batches,
        s.reclaim_all().batch_size == s.batch_size,
{
    lemma_joined_flat(s.local, s.local.len() as int);
    assert(s.local.take(s.local.len() as int) =~= s.local);
}

/// Taking out an object takes the first that is ready, leaves the others in order, and changes nothing
/// else.
pub proof fn law_take_takes_the_first(s: State)
    requires
        s.ready.len() > 0,
    ensures
        s.ready == seq![s.ready[0]] + s.take_ready().ready,
        s.take_ready().local == s.local,
        s.take_ready().guards == s.guards,
        s.take_ready().waiting == s.waiting,
        s.take_ready().batches == s.batches,
        s.take_ready().batch_size == s.batch_size,
{
    assert(s.ready =~= seq![s.ready[0]] + s.take_ready().ready);
}

/// Reclaiming the next object conserves the others: for every property, what is held before is what is
/// held after, and one more if the object that was handed out has the property. It is the first that was
/// ready or, if none was, the first of all that was retired, slot by slot.
pub proof fn law_reclaim_next_conserves(s: State, p: spec_fn(Retired) -> bool, n: int)
    requires
        s.valid(),
        0 <= n,
        s.below(n),
    ensures
        s.all_ready().valid(),
        s.all_ready().below(n),
        s.all_ready().held(p, n) == s.held(p, n),
        s.all_ready().ready.len() > 0 ==> s.held(p, n) == s.all_ready().take_ready().held(p, n) + (
        if p(s.all_ready().ready[0]) {
            1nat
        } else {
            0
        }),
        s.ready.len() > 0 ==> s.all_ready() == s,
        s.ready.len() == 0 ==> s.all_ready().ready == s.local.flatten(),
        s.all_ready().guards == s.guards,
        s.all_ready().waiting == s.waiting,
        s.all_ready().batches == s.batches,
        s.all_ready().batch_size == s.batch_size,
        s.ready.len() == 0 ==> s.all_ready().local.len() == s.local.len() && forall|u: int|
            0 <= u < s.local.len() ==> #[trigger] s.all_ready().local[u].len() == 0,
{
    let object = Retired { ptr: 0, reclaim: 0 };
    lemma_held_bound(s, p, n, n + 1);
    law_states_stay_valid(s, 0, object, n);
    law_reclaimed_exactly_once(s, 0, object, p, n, n + 1);
    let a = s.all_ready();
    assert(a.below(n));
    lemma_held_bound(a, p, n, n + 1);
    law_reclaimed_exactly_once(a, 0, object, p, n, n + 1);
    if a.ready.len() > 0 {
        lemma_held_bound(a.take_ready(), p, n, n + 1);
    }
    law_reclaim_all_empties_the_local_batches(s);
    if s.ready.len() == 0 {
        assert(s.ready + s.local.flatten() =~= s.local.flatten());
    }
}

/// Counting objects is counting those that are left when the others are taken away.
pub proof fn law_times_counts(objects: Seq<Retired>, p: spec_fn(Retired) -> bool)
    ensures
        times(objects, p) == objects.filter(p).len(),
    decreases objects.len(),
{
    reveal(Seq::filter);
    if objects.len() > 0 {
        law_times_counts(objects.drop_last(), p);
    }
}

/// What is held in local batches is what they hold together.
pub proof fn law_times_in_all_counts(
    parts: Seq<Seq<Retired>>,
    p: spec_fn(Retired) -> bool,
    n: int,
)
    requires
        0 <= n <= parts.len(),
    ensures
        times_in_all(parts, p, n) == parts.take(n).flatten().filter(p).len(),
    decreases n,
{
    lemma_times_joined(parts, p, n);
    lemma_joined_flat(parts, n);
    law_times_counts(joined(parts, n), p);
}

} // verus!
