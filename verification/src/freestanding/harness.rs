//! A program that exercises a collector from end to end and reports through its exit code.
use vstd::prelude::*;

use crate::collector::Collector;
use crate::guard::Guard;
use crate::guard::OwnedGuard;
use crate::history::lemma_empty;
use crate::laws::law_last_guard_releases_all;
use crate::laws::law_reclaim_all_leaves_nothing;
use crate::laws::law_reclaimed_exactly_once;
use crate::laws::lemma_held_bound;
use crate::laws::lemma_not_positive;
use crate::laws::times;
use crate::memory::refused;
use crate::memory::AllocError;
use crate::process::Process;
use crate::raw::law_refused_layout_is_a_refusal;
use crate::state::Retired;
use crate::state::State;
use crate::thread::less_one;

verus! {

/// Every check passed.
pub const PASSED: i32 = 0;

/// The initial registration of a lock was refused.
pub const REGISTRATION_REFUSED: i32 = 2;

/// The host's lock was never used.
pub const LOCK_UNUSED: i32 = 3;

/// A second registration was accepted.
pub const SECOND_ACCEPTED: i32 = 4;

/// A check failed.
pub const CHECK_FAILED: i32 = 101;

/// How many objects were reclaimed.
#[derive(Clone, Copy, Debug, PartialEq, Eq)]
pub struct Tally {
    /// While a guard was held.
    pub early: usize,
    /// In all.
    pub total: usize,
}

/// What the program does next.
#[derive(Clone, Copy, Debug, PartialEq, Eq)]
pub enum Next {
    /// Register the host's lock.
    Register,
    /// Retire objects, and count how many are reclaimed.
    Check,
    /// Register another lock.
    RegisterSecond,
    /// Exit with a code.
    Exit(i32),
}

/// What has happened.
#[derive(Clone, Copy, Debug, PartialEq, Eq)]
pub enum Event {
    /// The program was started.
    Started,
    /// The host's lock was registered, or refused.
    Registered(bool),
    /// So many objects were retired, and so many reclaimed. The lock was used so often.
    Checked {
        /// How many objects were retired.
        retired: usize,
        /// How many were reclaimed.
        tally: Tally,
        /// How often a section was to be entered.
        acquires: usize,
        /// How often a thread was woken.
        wakes: usize,
    },
    /// Another lock was registered, or refused.
    RegisteredSecond(bool),
    /// Memory ran out, or a check panicked.
    Panicked,
}

/// The checks hold: nothing was reclaimed while a guard was held, and everything was in the end.
pub open spec fn passes(retired: usize, tally: Tally) -> bool {
    tally.early == 0 && tally.total == retired
}

/// What the program does after an event.
pub open spec fn next_step(event: Event) -> Next {
    match event {
        Event::Started => Next::Register,
        Event::Registered(accepted) => if accepted {
            Next::Check
        } else {
            Next::Exit(REGISTRATION_REFUSED)
        },
        Event::Checked { retired, tally, acquires, wakes } => if !passes(retired, tally) {
            Next::Exit(CHECK_FAILED)
        } else if acquires == 0 || wakes == 0 {
            Next::Exit(LOCK_UNUSED)
        } else {
            Next::RegisterSecond
        },
        Event::RegisteredSecond(accepted) => if accepted {
            Next::Exit(SECOND_ACCEPTED)
        } else {
            Next::Exit(PASSED)
        },
        Event::Panicked => Next::Exit(CHECK_FAILED),
    }
}

/// What the program does after an event.
pub fn step(event: Event) -> (next: Next)
    ensures
        next == next_step(event),
{
    match event {
        Event::Started => Next::Register,
        Event::Registered(accepted) => {
            if accepted {
                Next::Check
            } else {
                Next::Exit(REGISTRATION_REFUSED)
            }
        },
        Event::Checked { retired, tally, acquires, wakes } => {
            if tally.early != 0 || tally.total != retired {
                Next::Exit(CHECK_FAILED)
            } else if acquires == 0 || wakes == 0 {
                Next::Exit(LOCK_UNUSED)
            } else {
                Next::RegisterSecond
            }
        },
        Event::RegisteredSecond(accepted) => {
            if accepted {
                Next::Exit(SECOND_ACCEPTED)
            } else {
                Next::Exit(PASSED)
            }
        },
        Event::Panicked => Next::Exit(CHECK_FAILED),
    }
}

/// What the program does after an event on a host that registers no lock: the first section decides
/// against a lock, so one that comes later has to be refused.
pub open spec fn next_step_without_lock(event: Event) -> Next {
    match event {
        Event::Started => Next::Check,
        Event::Registered(_) => Next::Exit(CHECK_FAILED),
        Event::Checked { retired, tally, acquires, wakes } => if passes(retired, tally) {
            Next::RegisterSecond
        } else {
            Next::Exit(CHECK_FAILED)
        },
        Event::RegisteredSecond(accepted) => if accepted {
            Next::Exit(CHECK_FAILED)
        } else {
            Next::Exit(PASSED)
        },
        Event::Panicked => Next::Exit(CHECK_FAILED),
    }
}

/// What the program does after an event on a host that registers no lock.
pub fn step_without_lock(event: Event) -> (next: Next)
    ensures
        next == next_step_without_lock(event),
{
    match event {
        Event::Started => Next::Check,
        Event::Checked { retired, tally, acquires: _, wakes: _ } => {
            if tally.early == 0 && tally.total == retired {
                Next::RegisterSecond
            } else {
                Next::Exit(CHECK_FAILED)
            }
        },
        Event::RegisteredSecond(accepted) => {
            if accepted {
                Next::Exit(CHECK_FAILED)
            } else {
                Next::Exit(PASSED)
            }
        },
        Event::Registered(_) => Next::Exit(CHECK_FAILED),
        Event::Panicked => Next::Exit(CHECK_FAILED),
    }
}

/// The exit code is zero exactly if every step went as it should.
pub proof fn law_exit_code(
    accepted: bool,
    retired: usize,
    tally: Tally,
    acquires: usize,
    wakes: usize,
    second: bool,
)
    ensures
        next_step(Event::Registered(accepted)) == Next::Check <==> accepted,
        next_step(Event::Checked { retired, tally, acquires, wakes }) == Next::RegisterSecond
            <==> passes(retired, tally) && acquires > 0 && wakes > 0,
        next_step(Event::RegisteredSecond(second)) == Next::Exit(PASSED) <==> !second,
        next_step_without_lock(Event::Checked { retired, tally, acquires, wakes })
            == Next::RegisterSecond <==> passes(retired, tally),
        next_step_without_lock(Event::RegisteredSecond(second)) == Next::Exit(PASSED) <==> !second,
        next_step(Event::Registered(accepted)) != Next::Exit(PASSED),
        next_step(Event::Checked { retired, tally, acquires, wakes }) != Next::Exit(PASSED),
{
}

/// What follows each event, with and without a lock of the host, and the exit code where the program
/// ends: nothing may be reclaimed early, everything must be in the end, the lock must have been used, and
/// only the first registration may be accepted.
pub proof fn law_steps(
    accepted: bool,
    retired: usize,
    tally: Tally,
    acquires: usize,
    wakes: usize,
)
    ensures
        next_step(Event::Started) == Next::Register,
        next_step(Event::Registered(accepted)) == if accepted {
            Next::Check
        } else {
            Next::Exit(2)
        },
        ({
            let next = next_step(Event::Checked { retired, tally, acquires, wakes });
            &&& tally.early > 0 || tally.total != retired ==> next == Next::Exit(101)
            &&& tally.early == 0 && tally.total == retired && acquires > 0 && wakes > 0 ==> next
                == Next::RegisterSecond
            &&& tally.early == 0 && tally.total == retired && (acquires == 0 || wakes == 0) ==> next
                == Next::Exit(3)
        }),
        next_step(Event::RegisteredSecond(accepted)) == if accepted {
            Next::Exit(4)
        } else {
            Next::Exit(0)
        },
        next_step(Event::Panicked) == Next::Exit(101),
        next_step_without_lock(Event::Started) == Next::Check,
        next_step_without_lock(Event::Registered(accepted)) == Next::Exit(101),
        ({
            let next = next_step_without_lock(Event::Checked { retired, tally, acquires, wakes });
            &&& tally.early > 0 || tally.total != retired ==> next == Next::Exit(101)
            &&& tally.early == 0 && tally.total == retired ==> next == Next::RegisterSecond
        }),
        next_step_without_lock(Event::RegisteredSecond(accepted)) == if accepted {
            Next::Exit(101)
        } else {
            Next::Exit(0)
        },
        next_step_without_lock(Event::Panicked) == Next::Exit(101),
        passes(retired, tally) <==> tally.early == 0 && tally.total == retired,
{
}

/// Every object.
pub open spec fn any() -> spec_fn(Retired) -> bool {
    |object: Retired| true
}

/// Every object counts.
proof fn lemma_times_any(objects: Seq<Retired>)
    ensures
        times(objects, any()) == objects.len(),
    decreases objects.len(),
{
    if objects.len() > 0 {
        lemma_times_any(objects.drop_last());
    }
}

/// Slot `t` has a single guard, and there is no other.
pub open spec fn only_active(s: State, t: int) -> bool {
    &&& 0 <= t < s.slots()
    &&& s.guards[t] == 1
    &&& forall|u: int| 0 <= u < s.slots() && u != t ==> #[trigger] s.guards[u] == 0
}

/// The checks have come so far: `count` objects are held, and none is ready.
pub open spec fn so_far(s: State, t: int, count: int, n: int) -> bool {
    &&& s.valid()
    &&& only_active(s, t)
    &&& s.ready.len() == 0
    &&& 0 <= n
    &&& s.below(n)
    &&& s.held(any(), n) == count
}

/// `count` objects are held and none is ready, while slot `t` alone is active.
pub open spec fn holding(s: State, t: int, count: int) -> bool {
    exists|n: int| so_far(s, t, count, n)
}

/// Nothing that has been retired is held any more.
pub open spec fn spent(s: State) -> bool {
    &&& s.batches == Map::<int, Seq<Retired>>::empty()
    &&& s.ready.len() == 0
    &&& forall|u: int| 0 <= u < s.slots() ==> #[trigger] s.local[u].len() == 0
}

/// The thread slot has been given back, unless there was no memory to remember that.
pub open spec fn given_back(before: Process, after: Process, thread: int) -> bool {
    &&& after.threads().in_use() == before.threads().in_use().remove(thread) || (
    after.threads().in_use() == before.threads().in_use() && before.threads().room() == 0
        && before.threads().refused())
    &&& after.threads().known() == before.threads().known()
    &&& after.threads().room() == less_one(before.threads().room())
}

/// A guard on a new collector.
proof fn lemma_start(s: State, slots: nat, batch_size: nat, t: int)
    requires
        0 <= t,
        s == State::idle(slots, batch_size).enter(t),
        s.valid(),
    ensures
        holding(s, t, 0),
{
    assert(so_far(s, t, 0, 0)) by {
        lemma_empty(s.local, any(), s.local.len() as int);
    }
}

/// One more object.
proof fn lemma_retire_one(
    s: State,
    t: int,
    object: Retired,
    after: State,
    count: int,
    n: int,
) -> (m: int)
    requires
        so_far(s, t, count, n),
        after.valid(),
        s.retires_to(t, object, after),
    ensures
        so_far(after, t, count + 1, m),
{
    let b = choose|b: int|
        0 <= b && !s.batches.contains_key(b) && after == #[trigger] s.retire(t, object, b);
    let m = if n <= b {
        b + 1
    } else {
        n
    };
    lemma_held_bound(s, any(), n, m);
    law_reclaimed_exactly_once(s, t, object, any(), b, m);
    let a = s.add_local(t, object);
    assert(a.guards =~= s.guards);
    lemma_not_positive(a.guards, a.slots() as int, t);
    m
}

/// Flushing lets nothing go while the guard is held.
proof fn lemma_flush(s: State, t: int, b: int, count: int, n: int) -> (m: int)
    requires
        so_far(s, t, count, n),
        s.flush(t, b).valid(),
        0 <= b,
        !s.batches.contains_key(b),
    ensures
        so_far(s.flush(t, b), t, count, m),
{
    let m = if n <= b {
        b + 1
    } else {
        n
    };
    lemma_held_bound(s, any(), n, m);
    law_reclaimed_exactly_once(s, t, Retired { ptr: 0, reclaim: 0 }, any(), b, m);
    lemma_not_positive(s.guards, s.slots() as int, t);
    m
}

/// Once the guard has left, reclaiming all yields every object.
proof fn lemma_finish(s: State, t: int, count: int, n: int)
    requires
        so_far(s, t, count, n),
        s.leave(t).valid(),
    ensures
        s.leave(t).active() == 0,
        s.leave(t).reclaim_all().ready.len() == count,
        s.leave(t).reclaim_all().batches == Map::<int, Seq<Retired>>::empty(),
{
    let l = s.leave(t);
    lemma_held_bound(s, any(), n, n + 1);
    law_reclaimed_exactly_once(s, t, Retired { ptr: 0, reclaim: 0 }, any(), n, n + 1);
    law_last_guard_releases_all(s, t);
    law_reclaim_all_leaves_nothing(l, any(), n + 1);
    lemma_times_any(l.reclaim_all().ready);
}

/// Takes out everything that is ready, and says how much that was.
fn drain<'a>(collector: &mut Collector<'a>, most: usize) -> (count: usize)
    requires
        old(collector).wf(),
        old(collector).state().ready.len() <= most,
    ensures
        final(collector).wf(),
        final(collector).same_collector(*old(collector)),
        count == old(collector).state().ready.len(),
        final(collector).state() == (State { ready: Seq::empty(), ..old(collector).state() }),
{
    let mut count: usize = 0;
    let ghost s = collector.state();
    assert(s.ready.skip(0) =~= s.ready);
    let mut more: bool = true;
    while more
        invariant
            collector.wf(),
            collector.same_collector(*old(collector)),
            s == old(collector).state(),
            s.ready.len() <= most,
            count <= s.ready.len(),
            collector.state() == (State { ready: s.ready.skip(count as int), ..s }),
            !more ==> count == s.ready.len(),
        decreases s.ready.len() - count, if more { 1int } else { 0int },
    {
        match collector.take_ready() {
            Some(_) => {
                assert(s.ready.skip(count as int).drop_first() =~= s.ready.skip(count + 1));
                count = count + 1;
            },
            None => {
                more = false;
            },
        }
    }
    assert(s.ready.skip(count as int) =~= Seq::<Retired>::empty());
    count
}

/// Retires an object through the guard once space for it has been reserved: one more object is held,
/// and none is ready. Without space nothing changes.
pub fn retire_one<'a>(
    collector: &mut Collector<'a>,
    guard: &OwnedGuard,
    object: usize,
    reserved: Result<(), AllocError>,
) -> (result: Result<(), AllocError>)
    requires
        old(collector).wf(),
        old(collector).holds(guard),
        reserved is Ok ==> old(collector).reserved(guard.slot()),
        object != 0,
    ensures
        final(collector).wf(),
        final(collector).same_collector(*old(collector)),
        final(collector).holds(guard),
        reserved is Ok ==> result is Ok && forall|count: int| #[trigger]
            holding(old(collector).state(), guard.slot(), count) ==> holding(
                final(collector).state(),
                guard.slot(),
                count + 1,
            ),
        reserved matches Err(e) ==> result == Err::<(), AllocError>(e) && *final(collector) == *old(
            collector,
        ),
{
    let ghost s = collector.state();
    let ghost t = guard.slot();
    let ghost b = collector.batch_id(t);
    let result = collector.retire_with(guard.thread_id(), object, 1, reserved);
    proof {
        if result is Ok {
            collector.lemma_valid();
            let after = collector.state();
            let retired = Retired { ptr: object, reclaim: 1 };
            assert(after == s.retire(t, retired, b));
            assert(s.retires_to(t, retired, after));
            assert(s.add_local(t, retired).guards =~= s.guards);
            assert(after.guards =~= s.guards);
            assert forall|count: int| #[trigger] holding(s, t, count) implies holding(
                after,
                t,
                count + 1,
            ) by {
                let n = choose|n: int| so_far(s, t, count, n);
                let m = lemma_retire_one(s, t, retired, after, count, n);
                assert(so_far(after, t, count + 1, m));
            }
        }
    }
    result
}

/// Counts what is reclaimed while the guard is held, gives the guard up, and counts what is reclaimed
/// in all: nothing at first, and each of the objects that are held in the end. No guard is held then,
/// and nothing is left.
pub fn finish<'a>(
    process: &mut Process,
    collector: &mut Collector<'a>,
    guard: OwnedGuard,
    retired: usize,
) -> (tally: Tally)
    requires
        old(process).wf(),
        old(process).threads().in_use().contains(guard.slot()),
        old(collector).wf(),
        old(collector).holds(&guard),
        holding(old(collector).state(), guard.slot(), retired as int),
    ensures
        final(collector).wf(),
        final(collector).same_collector(*old(collector)),
        final(collector).state().active() == 0,
        spent(final(collector).state()),
        final(process).wf(),
        final(process).cpus() == old(process).cpus(),
        final(process).next_collector() == old(process).next_collector(),
        given_back(*old(process), *final(process), guard.slot()),
        passes(retired, tally),
{
    let ghost t = guard.slot();
    let ghost s = collector.state();
    let ghost n = choose|n: int| so_far(s, t, retired as int, n);
    let early: usize = drain(collector, retired);
    assert(collector.state() =~= s);
    let ghost b = collector.batch_id(t);
    collector.flush(&guard);
    let ghost mut m: int = 0;
    proof {
        collector.lemma_valid();
        m = lemma_flush(s, t, b, retired as int, n);
    }
    let ghost s = collector.state();
    let _ = collector.leave_owned(process, guard);
    proof {
        collector.lemma_valid();
        lemma_finish(s, t, retired as int, m);
    }
    collector.reclaim_all();
    let total: usize = drain(collector, retired);
    Tally { early, total }
}

/// Retires objects under a guard on a new collector, after reserving space for each, and counts how
/// many are reclaimed while the guard is held and how many in all. Fails if memory runs out.
pub fn checks(process: &mut Process, retired: usize) -> (result: Result<Tally, AllocError>)
    requires
        old(process).wf(),
        old(process).next_collector() < u64::MAX,
        old(process).threads().available(),
        retired < usize::MAX,
    ensures
        final(process).wf(),
        final(process).cpus() == old(process).cpus(),
        final(process).keeps_threads(*old(process)),
        final(process).next_collector() == old(process).next_collector() + 1 || (result is Err
            && *final(process) == *old(process)),
        result is Err ==> refused(),
        result matches Ok(tally) ==> passes(retired, tally),
{
    let made = Collector::new(process);
    proof {
        law_refused_layout_is_a_refusal(old(process).cpus() as usize);
    }
    checks_on(process, made, retired)
}

/// The checks on a collector that nothing has been done with, or that could not be made.
pub fn checks_on<'a>(
    process: &mut Process,
    made: Result<Collector<'a>, AllocError>,
    retired: usize,
) -> (result: Result<Tally, AllocError>)
    requires
        old(process).wf(),
        old(process).threads().available(),
        retired < usize::MAX,
        made matches Ok(collector) ==> {
            &&& collector.wf()
            &&& collector.state() == State::idle(
                collector.state().slots(),
                collector.state().batch_size,
            )
        },
    ensures
        final(process).wf(),
        final(process).cpus() == old(process).cpus(),
        final(process).keeps_threads(*old(process)),
        final(process).next_collector() == old(process).next_collector(),
        made matches Err(e) ==> result == Err::<Tally, AllocError>(e) && *final(process) == *old(
            process,
        ),
        // Without anything to retire, only a slot that the collector lacks needs memory.
        retired == 0 ==> forall|thread: int|
            made is Ok && #[trigger] old(process).threads().is_next(thread) && thread
                < made->Ok_0.state().slots() ==> result is Ok,
        made is Ok && result is Err ==> refused(),
        result matches Ok(tally) ==> passes(retired, tally),
{
    let mut collector = match made {
        Ok(collector) => collector,
        Err(e) => {
            return Err(e);
        },
    };
    let ghost created = collector;
    let entered = collector.enter_owned(process);
    proof {
        if entered is Err {
            let thread = choose|thread: int| #[trigger]
                old(process).threads().is_next(thread) && created.slot_refused(thread);
            created.law_want_of_memory_is_a_refusal(thread);
        }
        collector.lemma_valid();
        if entered is Ok {
            lemma_start(
                collector.state(),
                created.state().slots(),
                created.state().batch_size,
                entered->Ok_0.slot(),
            );
        }
    }
    let ghost taken = *process;
    let result = checks_under(process, collector, entered, retired);
    proof {
        if entered is Ok {
            assert(taken.keeps_threads(*old(process)));
        }
    }
    result
}

/// The checks once a guard has been entered on a collector, or could not be.
pub fn checks_under<'a>(
    process: &mut Process,
    collector: Collector<'a>,
    entered: Result<OwnedGuard, AllocError>,
    retired: usize,
) -> (result: Result<Tally, AllocError>)
    requires
        old(process).wf(),
        retired < usize::MAX,
        collector.wf(),
        entered matches Ok(guard) ==> {
            &&& collector.holds(&guard)
            &&& holding(collector.state(), guard.slot(), 0)
            &&& old(process).threads().in_use().contains(guard.slot())
        },
    ensures
        final(process).wf(),
        final(process).cpus() == old(process).cpus(),
        final(process).next_collector() == old(process).next_collector(),
        entered matches Err(e) ==> result == Err::<Tally, AllocError>(e) && *final(process) == *old(
            process,
        ),
        entered matches Ok(guard) ==> given_back(*old(process), *final(process), guard.slot()),
        entered is Ok && retired == 0 ==> result is Ok,
        entered is Ok && result is Err ==> refused(),
        result matches Ok(tally) ==> passes(retired, tally),
{
    let mut collector = collector;
    let guard: OwnedGuard = match entered {
        Ok(guard) => guard,
        Err(e) => {
            return Err(e);
        },
    };
    let thread: usize = guard.thread_id();
    let mut i: usize = 0;
    while i < retired
        invariant
            entered is Ok,
            guard == entered->Ok_0,
            collector.wf(),
            collector.holds(&guard),
            thread == guard.slot(),
            holding(collector.state(), guard.slot(), i as int),
            i <= retired,
            retired < usize::MAX,
            *process == *old(process),
            process.wf(),
            process.threads().in_use().contains(guard.slot()),
        decreases retired - i,
    {
        let ghost s = collector.state();
        proof {
            collector.law_want_of_memory_is_a_refusal(thread as int);
        }
        // Space is reserved first, so the retirement itself cannot fail.
        let reserved = collector.reserve_retire(thread);
        assert(collector.state() =~~= s);
        match retire_one(&mut collector, &guard, i + 1, reserved) {
            Ok(()) => {},
            Err(e) => {
                let _ = collector.leave_owned(process, guard);
                return Err(e);
            },
        }
        i = i + 1;
    }
    Ok(finish(process, &mut collector, guard, retired))
}

/// While objects are held under the guard, that guard is the only one and nothing is ready; and once
/// everything is spent, nothing is held anywhere.
pub proof fn law_what_is_held(s: State, t: int, count: int, u: int)
    requires
        0 <= u < s.guards.len(),
    ensures
        holding(s, t, count) ==> s.guards[u] == if u == t {
            1nat
        } else {
            0
        },
        holding(s, t, count) ==> 0 <= t < s.guards.len() && s.ready.len() == 0 && exists|n: int|
            s.below(n) && #[trigger] s.held(any(), n) == count,
        spent(s) ==> s.ready.len() == 0 && s.local[u].len() == 0 && s.batches.dom() == Set::<
            int,
        >::empty(),
{
    if holding(s, t, count) {
        let n = choose|n: int| so_far(s, t, count, n);
        assert(s.held(any(), n) == count);
    }
}

/// A thread slot that is given back is no longer in use, unless there was no room to remember that and
/// the request for more was refused. No other slot is affected.
pub proof fn law_slots_are_given_back(before: Process, after: Process, thread: int, other: int)
    requires
        given_back(before, after, thread),
    ensures
        before.threads().room() > 0 ==> !after.threads().in_use().contains(thread),
        !before.threads().refused() ==> !after.threads().in_use().contains(thread),
        other != thread ==> (after.threads().in_use().contains(other)
            <==> before.threads().in_use().contains(other)),
{
}

} // verus!
