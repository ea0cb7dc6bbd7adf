use allocator_api2::alloc::{Global, System};
use seize::collector::{Collector, DEFAULT_BATCH_SIZE};
use seize::guard::Guard;
use seize::memory::{room, AllocError, DynAlloc};
use seize::process::Process;
use seize::raw::{self, lay_out};
use seize::state::Retired;
use seize::text::append_decimal;
use seize::sync::Mutex;
use seize::thread::ThreadIds;

fn taken(collector: &mut Collector<'_>) -> Vec<usize> {
    let mut objects = Vec::new();
    while let Some(object) = collector.take_ready() {
        objects.push(object.ptr);
    }
    objects
}

#[test]
fn every_object_is_reclaimed_exactly_once() {
    let mut process = Process::new(Some(3));
    let mut collector = Collector::new(&mut process).unwrap().batch_size(4);
    let threads = [0, 1, 2];
    let mut seen = vec![0; 1001];
    let mut guards = Vec::new();

    for object in 1..=1000 {
        let thread = threads[object % 3];
        if object % 7 == 0 {
            guards.push(collector.enter(threads[object % 2]).unwrap());
        }
        collector.retire(thread, object, object + 5).unwrap();
        if object % 11 == 0 {
            if let Some(guard) = guards.pop() {
                collector.flush(&guard);
                collector.refresh(&guard);
                collector.leave(guard);
            }
        }
        while let Some(Retired { ptr, reclaim }) = collector.take_ready() {
            assert_eq!(reclaim, ptr + 5);
            seen[ptr] += 1;
        }
    }
    for guard in guards {
        collector.leave(guard);
    }
    while let Some(object) = collector.reclaim_next() {
        seen[object.ptr] += 1;
    }
    assert!(seen[1..].iter().all(|times| *times == 1));
    assert!(collector.reclaim_next().is_none());
}

#[test]
fn a_guard_protects_what_is_retired_under_it() {
    let mut process = Process::new(Some(2));
    let mut collector = Collector::new(&mut process).unwrap().batch_size(1);
    let before = collector.enter(0).unwrap();
    collector.retire(1, 1, 0).unwrap();
    let after = collector.enter(1).unwrap();
    assert_eq!(taken(&mut collector), vec![]);

    // The second guard came after the first object was handed over, and does not hold it back.
    collector.leave(before);
    assert_eq!(taken(&mut collector), vec![1]);

    collector.retire(0, 2, 0).unwrap();
    let late = collector.enter(0).unwrap();
    collector.leave(late);
    assert_eq!(taken(&mut collector), vec![]);
    collector.leave(after);
    assert_eq!(taken(&mut collector), vec![2]);
}

#[test]
fn a_batch_needs_an_object_for_each_active_thread() {
    let mut process = Process::new(Some(1));
    let mut collector = Collector::new(&mut process).unwrap().batch_size(1);
    let guards = [
        collector.enter(0).unwrap(),
        collector.enter(1).unwrap(),
        collector.enter(2).unwrap(),
    ];
    assert_eq!(collector.active(), 3);

    // Two objects are too few for three active threads.
    collector.defer_retire(&guards[0], 1, 0).unwrap();
    collector.defer_retire(&guards[0], 2, 0).unwrap();
    collector.flush(&guards[0]);
    for guard in &guards {
        collector.refresh(guard);
    }
    assert_eq!(taken(&mut collector), vec![]);

    // With the third they are handed over, and wait for all three.
    collector.defer_retire(&guards[0], 3, 0).unwrap();
    let [first, second, third] = guards;
    collector.leave(second);
    collector.leave(first);
    assert_eq!(taken(&mut collector), vec![]);
    collector.leave(third);
    assert_eq!(taken(&mut collector), vec![1, 2, 3]);
}

#[test]
fn without_guards_a_full_batch_is_ready_at_once() {
    let mut process = Process::new(Some(1));
    let mut collector = Collector::new(&mut process).unwrap().batch_size(2);
    collector.retire(0, 1, 0).unwrap();
    assert_eq!(taken(&mut collector), vec![]);
    collector.retire(0, 2, 0).unwrap();
    assert_eq!(taken(&mut collector), vec![1, 2]);
}

#[test]
fn batches_are_released_newest_first() {
    let mut process = Process::new(Some(1));
    let mut collector = Collector::new(&mut process).unwrap().batch_size(2);
    let guard = collector.enter(0).unwrap();
    for object in 1..=6 {
        collector.defer_retire(&guard, object, 0).unwrap();
    }
    collector.leave(guard);
    assert_eq!(taken(&mut collector), vec![5, 6, 3, 4, 1, 2]);
}

#[test]
fn a_batch_size_of_zero_hands_over_each_object() {
    let mut process = Process::new(Some(1));
    let mut collector = Collector::new(&mut process).unwrap().batch_size(0);
    collector.retire(0, 1, 9).unwrap();
    assert_eq!(collector.take_ready(), Some(Retired { ptr: 1, reclaim: 9 }));
}

#[test]
fn reclaiming_all_covers_every_thread() {
    let mut process = Process::new(Some(1));
    let mut collector = Collector::new(&mut process).unwrap();
    for thread in 0..5 {
        collector.retire(thread, thread + 1, 0).unwrap();
    }
    assert_eq!(taken(&mut collector), vec![]);
    collector.reclaim_all();
    assert_eq!(taken(&mut collector), vec![1, 2, 3, 4, 5]);
    collector.reclaim_all();
    assert_eq!(taken(&mut collector), vec![]);
}

#[test]
fn entering_and_leaving_changes_nothing() {
    let mut process = Process::new(Some(1));
    let mut collector = Collector::new(&mut process).unwrap().batch_size(3);
    collector.retire(0, 1, 0).unwrap();
    let guard = collector.enter(4).unwrap();
    assert_eq!(guard.thread_id(), 4);
    assert_eq!(collector.guards(4), 1);
    collector.leave(guard);
    assert_eq!(collector.guards(4), 0);
    assert_eq!(collector.active(), 0);
    assert_eq!(taken(&mut collector), vec![]);
    collector.retire(0, 2, 0).unwrap();
    collector.retire(0, 3, 0).unwrap();
    assert_eq!(taken(&mut collector), vec![1, 2, 3]);
}

#[test]
fn reservations_of_other_threads_are_kept() {
    let mut process = Process::new(Some(1));
    let mut collector = Collector::new(&mut process).unwrap().batch_size(2);
    collector.reserve_retire(3).unwrap();
    for object in 1..=100 {
        collector.retire(0, object, 0).unwrap();
    }
    let guard = collector.enter(1).unwrap();
    collector.leave(guard);
    while collector.take_ready().is_some() {}
    collector.retire_reserved(3, 101, 0);
    collector.reclaim_all();
    assert_eq!(taken(&mut collector), vec![101]);
}

#[test]
fn the_default_batch_size_is_the_same_on_every_machine() {
    assert_eq!(DEFAULT_BATCH_SIZE, 32);
    for (parallelism, expected) in [
        (None, "Collector { batch_size: 32, allocator: Global }"),
        (Some(32), "Collector { batch_size: 32, allocator: Global }"),
        (Some(33), "Collector { batch_size: 32, allocator: Global }"),
        (Some(64), "Collector { batch_size: 32, allocator: Global }"),
    ] {
        let mut process = Process::new(parallelism);
        assert_eq!(process.get_cpus(), parallelism.unwrap_or(1));
        let collector = Collector::new(&mut process).unwrap();
        assert_eq!(collector.describe(), expected);
    }
}

#[test]
fn a_collector_is_described() {
    let mut process = Process::new(None);
    let collector = Collector::new_in(&mut process, DynAlloc::new(&System)).unwrap();
    assert_eq!(
        collector.describe(),
        "Collector { batch_size: 32, allocator: Allocator { .. } }"
    );
    assert_eq!(collector.allocator().describe(), "Allocator { .. }");
    let collector = collector.batch_size(1_234_567_890);
    assert_eq!(
        collector.describe(),
        "Collector { batch_size: 1234567890, allocator: Allocator { .. } }"
    );
    let collector = Collector::new_in(&mut process, DynAlloc::new(&Global)).unwrap();
    assert!(collector.allocator().is_custom());
    let collector = Collector::new_in(&mut process, DynAlloc::global()).unwrap();
    assert!(!collector.allocator().is_custom());
    assert_eq!(collector.allocator().describe(), "Global");
}

#[test]
fn numbers_are_written_in_decimal() {
    for number in [0, 1, 9, 10, 42, 100, 1_002_003, usize::MAX] {
        let mut text = String::from("n = ");
        append_decimal(&mut text, number);
        assert_eq!(text, format!("n = {}", number));
    }
}

#[test]
fn collectors_of_a_process_are_distinct() {
    let mut process = Process::new(None);
    let mut collectors = Vec::new();
    for _ in 0..10 {
        assert!(process.has_collector_id());
        collectors.push(Collector::new(&mut process).unwrap());
    }
    for (i, a) in collectors.iter().enumerate() {
        for (j, b) in collectors.iter().enumerate() {
            assert_eq!(a == b, i == j);
        }
    }
}

#[test]
fn the_smallest_free_identifier_is_taken() {
    let mut ids = ThreadIds::new();
    assert!(ids.has_available());
    assert_eq!([ids.create(), ids.create(), ids.create(), ids.create()], [0, 1, 2, 3]);
    assert!(ids.release(2));
    ids.recycle(0);
    assert_eq!(ids.peek(), 0);
    assert_eq!(ids.create(), 0);
    assert_eq!(ids.create(), 2);
    assert_eq!(ids.peek(), 4);
    assert_eq!(ids.create(), 4);
}

#[test]
fn thread_slots_of_a_process() {
    let mut process = Process::new(Some(2));
    assert!(process.has_thread());
    assert_eq!(process.next_thread(), 0);
    assert_eq!(process.create_thread(), 0);
    assert_eq!(process.create_thread(), 1);
    assert!(process.release_thread(0));
    assert_eq!(process.next_thread(), 0);

    let mut collector = Collector::new(&mut process).unwrap();
    let first = collector.enter_owned(&mut process).unwrap();
    let second = collector.enter_owned(&mut process).unwrap();
    assert_eq!((first.thread_id(), second.thread_id()), (0, 2));
    assert!(collector.leave_owned(&mut process, first));
    assert!(collector.leave_owned(&mut process, second));
    assert_eq!(process.next_thread(), 0);
}

#[test]
fn a_guard_on_a_slot_of_its_own() {
    let mut process = Process::new(Some(1));
    let mut collector = Collector::new(&mut process).unwrap();
    collector.set_batch_size(1);
    let guard = collector.enter_slot(6).unwrap();
    assert_eq!(guard.thread_id(), 6);
    assert_eq!(guard.collector_id(), collector.identity());
    collector.defer_retire(&guard, 1, 0).unwrap();
    assert_eq!(taken(&mut collector), vec![]);
    assert_eq!(collector.leave_slot(guard), 6);
    assert_eq!(taken(&mut collector), vec![1]);
    assert!(matches!(collector.enter_slot(usize::MAX), Err(AllocError)));
}

#[test]
fn a_failed_reservation_is_an_allocation_failure() {
    let mut rows: allocator_api2::vec::Vec<u64> = allocator_api2::vec::Vec::new();
    assert_eq!(room(rows.try_reserve(4)), Ok(()));
    assert_eq!(room(rows.try_reserve(usize::MAX)), Err(AllocError));
}

#[test]
fn a_mutex_is_send_and_sync() {
    fn assert_send_sync<T: Send + Sync>() {}
    assert_send_sync::<Mutex<Collector<'static>>>();
    assert_send_sync::<Mutex<Process>>();
}

#[test]
fn a_refreshed_guard_lets_go_and_protects_again() {
    let mut process = Process::new(Some(1));
    let mut collector = Collector::new(&mut process).unwrap().batch_size(1);
    let guard = collector.enter(0).unwrap();
    collector.defer_retire(&guard, 1, 0).unwrap();
    collector.refresh(&guard);
    assert_eq!(taken(&mut collector), vec![1]);
    collector.defer_retire(&guard, 2, 0).unwrap();
    assert_eq!(taken(&mut collector), vec![]);
    collector.leave(guard);
    assert_eq!(taken(&mut collector), vec![2]);
}

#[test]
fn an_identifier_that_had_room_is_recycled() {
    let mut ids = ThreadIds::new();
    for _ in 0..100 {
        assert_eq!(ids.create(), 0);
        assert!(ids.release(0));
    }
    assert_eq!(ids.create(), 0);
    assert_eq!(ids.create(), 1);
    assert!(!ids.recycle_if(0, false));
    assert_eq!(ids.peek(), 2);
    assert!(ids.recycle_if(0, true));
    assert_eq!(ids.peek(), 0);
}

#[test]
fn a_collector_comes_of_a_layout() {
    let mut memory = DynAlloc::new(&System);
    let laid = lay_out(&mut memory, 3);
    assert_eq!(laid, Ok(()));
    let raw = raw::Collector::of_layout(laid, 0, 3, 32, memory).unwrap();
    assert_eq!((raw.get_id(), raw.get_batch_size(), raw.count_active()), (0, 32, 0));

    let mut process = Process::new(Some(3));
    let collector = Collector::issue(&mut process, Ok(raw)).unwrap();
    assert_eq!(collector.identity(), 0);
    assert_eq!(Collector::new(&mut process).unwrap().identity(), 1);

    let mut memory = DynAlloc::global();
    let laid = lay_out(&mut memory, usize::MAX);
    assert_eq!(laid, Err(AllocError));
    let none = raw::Collector::of_layout(laid, 2, usize::MAX, 32, memory);
    assert!(matches!(none, Err(AllocError)));
    assert!(Collector::issue(&mut process, none).is_err());
    assert_eq!(Collector::new(&mut process).unwrap().identity(), 2);
}

#[test]
fn a_thread_enters_once_there_is_room() {
    let mut process = Process::new(Some(1));
    let mut collector = Collector::new(&mut process).unwrap();

    // Without room nothing changes.
    assert!(matches!(collector.enter_with(5, Err(AllocError)), Err(AllocError)));
    assert!(matches!(collector.enter_slot_with(5, Err(AllocError)), Err(AllocError)));
    assert_eq!((collector.guards(5), collector.active()), (0, 0));

    // With room it succeeds, after a failure too.
    let room = collector.make_room(5);
    assert_eq!(room, Ok(()));
    assert_eq!(collector.active(), 0);
    let local = collector.enter_with(5, room).unwrap();
    let room = collector.make_room(6);
    let owned = collector.enter_slot_with(6, room).unwrap();
    assert_eq!((local.thread_id(), owned.thread_id()), (5, 6));
    assert_eq!((collector.guards(5), collector.guards(6), collector.active()), (1, 1, 2));

    assert_eq!(collector.make_room(usize::MAX), Err(AllocError));
    assert_eq!(collector.make_room(usize::MAX - 1), Err(AllocError));
    assert_eq!(collector.make_room(5), Ok(()));
}

#[test]
fn an_owned_guard_enters_once_there_is_room() {
    let mut process = Process::new(Some(1));
    let mut collector = Collector::new(&mut process).unwrap();
    let thread = process.create_thread();
    let failed = collector.enter_owned_with(&mut process, thread, Err(AllocError));
    assert!(matches!(failed, Err(AllocError)));
    assert_eq!(process.next_thread(), thread);

    let thread = process.create_thread();
    let room = collector.make_room(thread);
    let guard = collector.enter_owned_with(&mut process, thread, room).unwrap();
    assert_eq!(guard.thread_id(), thread);
    assert_eq!(process.next_thread(), thread + 1);
    assert!(collector.leave_owned(&mut process, guard));
}

#[test]
fn an_object_is_retired_once_there_is_space() {
    let mut process = Process::new(Some(1));
    let mut collector = Collector::new(&mut process).unwrap().batch_size(2);

    // Without space nothing changes, and the object is still the caller's.
    assert_eq!(collector.reserve_retire_with(3, Err(AllocError)), Err(AllocError));
    assert_eq!(collector.retire_with(3, 7, 1, Err(AllocError)), Err(AllocError));
    collector.reclaim_all();
    assert_eq!(taken(&mut collector), vec![]);

    // The same object is retired once there is space.
    let space = collector.find_space(3);
    let reserved = collector.reserve_retire_with(3, space);
    assert_eq!(reserved, Ok(()));
    assert_eq!(collector.retire_with(3, 7, 1, reserved), Ok(()));
    collector.reclaim_all();
    assert_eq!(taken(&mut collector), vec![7]);

    assert_eq!(collector.find_space(usize::MAX), Err(AllocError));
    assert_eq!(collector.reserve_retire(usize::MAX), Err(AllocError));
    assert_eq!(collector.retire(usize::MAX, 8, 1), Err(AllocError));
}

#[test]
fn a_slot_that_was_used_before_is_recycled() {
    let mut process = Process::new(Some(2));
    let mut collector = Collector::new(&mut process).unwrap();
    for _ in 0..10 {
        let first = collector.enter_owned(&mut process).unwrap();
        let second = collector.enter_owned(&mut process).unwrap();
        assert_eq!((first.thread_id(), second.thread_id()), (0, 1));
        assert!(collector.leave_owned(&mut process, first));
        assert!(collector.leave_owned(&mut process, second));
    }
}
