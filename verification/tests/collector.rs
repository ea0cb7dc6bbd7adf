use allocator_api2::alloc::System;
use seize::collector::Collector;
use seize::guard::{Guard, LocalGuard};
use seize::memory::{AllocError, DynAlloc};
use seize::process::Process;
use seize::state::Retired;

const THREADS: usize = 32;
const ITEMS: usize = 10_000;
const ITER: usize = 50;

/// The reclaimers of these tests.
const DROP: usize = 1;
const RECURSIVE: usize = 2;

/// Reclaims what is ready, and says how many objects that were.
fn drain(collector: &mut Collector<'_>) -> usize {
    let mut dropped = 0;
    while collector.take_ready().is_some() {
        dropped += 1;
    }
    dropped
}

/// Reclaims everything, as when the collector goes away.
fn finish(collector: &mut Collector<'_>) -> usize {
    let mut dropped = 0;
    while collector.reclaim_next().is_some() {
        dropped += 1;
    }
    dropped
}

/// A thread that cannot have a slot, as there is not memory enough in the world.
const UNTHINKABLE: usize = usize::MAX - 1;

#[test]
fn is_sync() {
    fn assert_send_sync<T: Send + Sync>() {}
    assert_send_sync::<Collector<'static>>();
    assert_send_sync::<Collector<'static>>();
}

#[test]
fn custom_allocator() {
    let mut process = Process::new(Some(4));
    let thread = process.create_thread();
    let mut collector = Collector::new_in(&mut process, DynAlloc::new(&System))
        .unwrap()
        .batch_size(2);
    assert!(collector.allocator().is_custom());

    let mut dropped = 0;
    let guard = collector.enter(thread).unwrap();

    // Retire enough values to allocate, and reclaim, a batch.
    for value in 1..=10 {
        collector.defer_retire(&guard, value, DROP).unwrap();
    }
    assert_eq!(drain(&mut collector), 0);
    collector.leave(guard);
    dropped += drain(&mut collector);
    dropped += finish(&mut collector);

    // All retired values were reclaimed.
    assert_eq!(dropped, 10);
}

#[test]
fn allocation_failure() {
    // A collector cannot be created if its thread slots cannot be allocated.
    let mut huge = Process::new(Some(usize::MAX));
    assert!(matches!(
        Collector::new_in(&mut huge, DynAlloc::new(&System)),
        Err(AllocError)
    ));
    assert!(matches!(Collector::new(&mut huge), Err(AllocError)));

    let mut process = Process::new(None);
    let thread = process.create_thread();
    let mut collector = Collector::new_in(&mut process, DynAlloc::new(&System))
        .unwrap()
        .batch_size(2);
    let guard = collector.enter(thread).unwrap();

    // Retirement fails instead of aborting.
    assert_eq!(collector.retire(UNTHINKABLE, 7, DROP), Err(AllocError));
    assert_eq!(collector.reserve_retire(UNTHINKABLE), Err(AllocError));
    assert!(matches!(collector.enter(UNTHINKABLE), Err(AllocError)));
    assert!(matches!(collector.enter(usize::MAX), Err(AllocError)));
    assert_eq!(collector.guards(UNTHINKABLE), 0);
    assert_eq!(collector.active(), 1);

    // The failed retirement left the object untouched.
    assert_eq!(drain(&mut collector), 0);

    // Flushing never allocates, so it succeeds.
    collector.flush(&guard);

    // Retirement succeeds where there is memory.
    collector.defer_retire(&guard, 7, DROP).unwrap();
    collector.leave(guard);

    let mut dropped = drain(&mut collector);
    dropped += finish(&mut collector);
    assert_eq!(dropped, 1);
}

#[test]
fn reserve_retire() {
    let mut process = Process::new(None);
    let thread = process.create_thread();
    let mut collector = Collector::new_in(&mut process, DynAlloc::new(&System))
        .unwrap()
        .batch_size(1);
    let guard = collector.enter(thread).unwrap();

    collector.reserve_retire(guard.thread_id()).unwrap();
    collector.reserve_retire(guard.thread_id()).unwrap();

    // The reserved retirement cannot fail.
    collector.retire_reserved(guard.thread_id(), 1, DROP);
    assert_eq!(drain(&mut collector), 0);

    // A retirement that fails leaves the object untouched.
    assert!(collector.retire(UNTHINKABLE, 2, DROP).is_err());
    assert_eq!(drain(&mut collector), 0);

    // Leaving reclaims the object that was retired.
    collector.leave(guard);
    assert_eq!(collector.take_ready(), Some(Retired { ptr: 1, reclaim: DROP }));
    assert_eq!(collector.take_ready(), None);
}

#[test]
fn reserve_retire_owned() {
    let mut process = Process::new(None);
    let mut collector = Collector::new_in(&mut process, DynAlloc::new(&System))
        .unwrap()
        .batch_size(1);
    let guard = collector.enter_owned(&mut process).unwrap();
    collector.reserve_retire(guard.thread_id()).unwrap();
    collector.retire_reserved(guard.thread_id(), 1, DROP);
    assert!(collector.leave_owned(&mut process, guard));
    assert_eq!(drain(&mut collector), 1);
}

#[test]
fn single_thread() {
    let mut process = Process::new(Some(8));
    let thread = process.create_thread();
    let mut collector = Collector::new(&mut process).unwrap().batch_size(2);
    let mut dropped = 0;

    // multiple of 2
    let items = ITEMS & !1;

    for item in 1..=items {
        let guard = collector.enter(thread).unwrap();
        collector.leave(guard);
        dropped += drain(&mut collector);

        let guard = collector.enter(thread).unwrap();
        collector.retire(thread, item, DROP).unwrap();
        collector.leave(guard);
        dropped += drain(&mut collector);
    }

    assert_eq!(dropped, items);
}

#[test]
fn two_threads() {
    let mut process = Process::new(Some(2));
    let (here, there) = (process.create_thread(), process.create_thread());
    let mut collector = Collector::new(&mut process).unwrap().batch_size(3);
    let (a, b) = (10, 20);

    let other = collector.enter(there).unwrap();

    for value in 1..=2 {
        let guard = collector.enter(here).unwrap();
        collector.retire(here, value, b).unwrap();
        collector.leave(guard);
        assert_eq!(collector.take_ready(), None);
    }

    let guard = collector.enter(here).unwrap();
    collector.retire(here, 3, a).unwrap();
    assert_eq!(collector.take_ready(), None);

    collector.leave(other);
    assert_eq!(collector.take_ready(), None);
    collector.leave(guard);

    let (mut a_dropped, mut b_dropped) = (0, 0);
    while let Some(object) = collector.take_ready() {
        if object.reclaim == a {
            a_dropped += 1;
        } else {
            b_dropped += 1;
        }
    }
    assert_eq!((b_dropped, a_dropped), (2, 1));
}

#[test]
fn refresh() {
    let mut process = Process::new(Some(8));
    let here = process.create_thread();
    let mut collector = Collector::new(&mut process).unwrap().batch_size(3);
    let mut guards: Vec<LocalGuard> = Vec::new();
    for _ in 0..THREADS {
        let thread = process.create_thread();
        guards.push(collector.enter(thread).unwrap());
    }

    let mut retired = 0;
    let mut dropped = 0;
    for _ in 0..ITER {
        for item in 1..=ITEMS {
            collector.retire(here, item, DROP).unwrap();
            retired += 1;
        }
        assert_eq!(drain(&mut collector), 0);

        for guard in guards.iter() {
            assert_eq!(drain(&mut collector), 0);
            collector.refresh(guard);
        }
        dropped += drain(&mut collector);
        assert!(retired - dropped < THREADS);
    }

    for guard in guards {
        collector.leave(guard);
    }
    dropped += finish(&mut collector);
    assert_eq!(dropped, ITER * ITEMS);
}

/// Reclaims what is ready. The recursive reclaimer retires objects of its own.
fn drain_recursive(collector: &mut Collector<'_>, thread: usize, items: usize) -> usize {
    let mut dropped = 0;
    while let Some(object) = collector.take_ready() {
        if object.reclaim == RECURSIVE {
            for item in 1..=items {
                collector.retire(thread, item, DROP).unwrap();
                dropped += drain_recursive(collector, thread, items);

                let guard = collector.enter(thread).unwrap();
                collector.flush(&guard);
                collector.refresh(&guard);
                collector.leave(guard);
                dropped += drain_recursive(collector, thread, items);
            }
        } else {
            dropped += 1;
        }
    }
    dropped
}

#[test]
fn recursive_retire() {
    let mut process = Process::new(Some(8));
    let thread = process.create_thread();
    let mut collector = Collector::new(&mut process).unwrap().batch_size(1);

    collector.retire(thread, 1, RECURSIVE).unwrap();
    let mut dropped = drain_recursive(&mut collector, thread, ITEMS);

    let guard = collector.enter(thread).unwrap();
    collector.flush(&guard);
    collector.leave(guard);
    dropped += drain_recursive(&mut collector, thread, ITEMS);
    assert_eq!(dropped, ITEMS);
}

#[test]
fn reclaim_all() {
    let mut process = Process::new(Some(8));
    let thread = process.create_thread();
    let mut collector = Collector::new(&mut process).unwrap().batch_size(2);

    for _ in 0..ITER {
        let mut dropped = 0;
        for item in 1..=ITEMS {
            collector.retire(thread, item, DROP).unwrap();
            dropped += drain(&mut collector);
        }
        collector.reclaim_all();
        dropped += drain(&mut collector);
        assert_eq!(dropped, ITEMS);
    }
}

#[test]
fn recursive_retire_reclaim_all() {
    let mut process = Process::new(Some(8));
    let thread = process.create_thread();
    let mut collector = Collector::new(&mut process).unwrap().batch_size(ITEMS * 2);
    let mut dropped = 0;

    collector.retire(thread, 1, RECURSIVE).unwrap();
    assert_eq!(collector.take_ready(), None);

    while let Some(object) = collector.reclaim_next() {
        if object.reclaim == RECURSIVE {
            for item in 1..=ITEMS {
                collector.retire(thread, item, DROP).unwrap();
            }
        } else {
            dropped += 1;
        }
    }
    assert_eq!(dropped, ITEMS);
}

#[test]
fn defer_retire() {
    let mut process = Process::new(Some(8));
    let thread = process.create_thread();
    let mut collector = Collector::new(&mut process).unwrap().batch_size(5);
    let guard = collector.enter(thread).unwrap();

    for object in 1..=30 {
        collector.defer_retire(&guard, object, DROP).unwrap();
        collector.flush(&guard);
    }

    // guard is still active
    assert_eq!(drain(&mut collector), 0);
    collector.leave(guard);
    // now the objects should have been dropped
    assert_eq!(drain(&mut collector), 30);
}

#[test]
fn reentrant() {
    let mut process = Process::new(Some(8));
    let (here, there) = (process.create_thread(), process.create_thread());
    let mut collector = Collector::new(&mut process).unwrap().batch_size(5);

    let guard1 = collector.enter(here).unwrap();
    let guard2 = collector.enter(here).unwrap();
    let guard3 = collector.enter(here).unwrap();
    assert_eq!(collector.guards(here), 3);

    let guard = collector.enter(there).unwrap();
    for object in 1..=5 {
        collector.defer_retire(&guard, object, DROP).unwrap();
    }
    collector.leave(guard);

    assert_eq!(drain(&mut collector), 0);
    collector.leave(guard1);
    assert_eq!(drain(&mut collector), 0);
    collector.leave(guard2);
    assert_eq!(drain(&mut collector), 0);
    collector.leave(guard3);
    assert_eq!(drain(&mut collector), 5);

    let guard1 = collector.enter(here).unwrap();
    let guard2 = collector.enter(here).unwrap();
    let guard3 = collector.enter(here).unwrap();

    let guard = collector.enter(there).unwrap();
    for object in 1..=5 {
        collector.defer_retire(&guard, object, DROP).unwrap();
    }
    collector.leave(guard);

    assert_eq!(drain(&mut collector), 0);
    collector.refresh(&guard1);
    assert_eq!(drain(&mut collector), 0);
    collector.leave(guard1);
    collector.refresh(&guard2);
    assert_eq!(drain(&mut collector), 0);
    collector.leave(guard2);
    assert_eq!(drain(&mut collector), 0);
    collector.refresh(&guard3);
    assert_eq!(drain(&mut collector), 5);
    collector.leave(guard3);
}

#[test]
fn owned_guard() {
    let mut process = Process::new(Some(8));
    let here = process.create_thread();
    let mut collector = Collector::new(&mut process).unwrap().batch_size(5);

    let guard1 = collector.enter_owned(&mut process).unwrap();
    let guard2 = collector.enter(here).unwrap();
    for object in 1..=5 {
        collector.defer_retire(&guard2, object, DROP).unwrap();
    }
    collector.leave(guard2);

    // guard1 is still active
    assert_eq!(drain(&mut collector), 0);
    assert!(collector.leave_owned(&mut process, guard1));
    assert_eq!(drain(&mut collector), 5);
}

#[test]
fn owned_guard_concurrent() {
    let mut process = Process::new(Some(8));
    let mut collector = Collector::new(&mut process).unwrap().batch_size(1);
    let guard = collector.enter_owned(&mut process).unwrap();

    for object in 1..=THREADS {
        collector.defer_retire(&guard, object, DROP).unwrap();
        collector.flush(&guard);
        assert_eq!(drain(&mut collector), 0);
    }

    collector.leave_owned(&mut process, guard);
    assert_eq!(drain(&mut collector), THREADS);
}

#[test]
fn collector_equality() {
    let mut process = Process::new(Some(8));
    let thread = process.create_thread();
    let mut a = Collector::new(&mut process).unwrap();
    let mut b = Collector::new(&mut process).unwrap();

    assert!(a == a);
    assert!(b == b);
    assert!(a != b);

    let in_a = a.enter(thread).unwrap();
    assert!(a.entered(&in_a));
    assert!(!b.entered(&in_a));

    let in_b = b.enter(thread).unwrap();
    assert!(b.entered(&in_b));
    assert!(!a.entered(&in_b));

    let a = a.batch_size(3);
    assert!(a.entered(&in_a));
    assert!(a != b);
}
