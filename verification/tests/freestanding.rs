use seize::collector::Collector;
use seize::freestanding::bump::{place, Attempt, BumpAlloc};
use seize::freestanding::bytes::{bcmp, memcmp, memcpy, memmove, memset};
use seize::freestanding::futex::{FutexLock, FREE, HELD, WAKE};
use seize::freestanding::harness::{
    checks, checks_on, checks_under, finish, retire_one, step, step_without_lock, Event, Next, Tally, CHECK_FAILED, LOCK_UNUSED, PASSED,
    REGISTRATION_REFUSED, SECOND_ACCEPTED,
};
use seize::guard::Guard;
use seize::memory::AllocError;
use seize::process::Process;

#[test]
fn bytes_are_copied() {
    let mut dest = [9; 4];
    memcpy(&mut dest, &[1, 2, 3, 4]);
    assert_eq!(dest, [1, 2, 3, 4]);
    memcpy(&mut dest[..0], &[]);
    assert_eq!(dest, [1, 2, 3, 4]);
}

#[test]
fn overlapping_bytes_are_moved() {
    let mut forward = [1, 2, 3, 4, 5];
    memmove(&mut forward, 1, 0, 4);
    assert_eq!(forward, [1, 1, 2, 3, 4]);

    let mut backward = [1, 2, 3, 4, 5];
    memmove(&mut backward, 0, 1, 4);
    assert_eq!(backward, [2, 3, 4, 5, 5]);

    let mut same = [1, 2, 3, 4, 5];
    memmove(&mut same, 2, 2, 3);
    assert_eq!(same, [1, 2, 3, 4, 5]);
}

#[test]
fn bytes_move_there_and_back() {
    let mut bytes = [1, 2, 3, 7, 8, 9];
    memmove(&mut bytes, 3, 0, 3);
    let there = bytes;
    assert_eq!(there, [1, 2, 3, 1, 2, 3]);
    memmove(&mut bytes, 0, 3, 3);
    assert_eq!(bytes, there);
}

#[test]
fn bytes_are_set() {
    let mut dest = [1; 3];
    memset(&mut dest, 0x1ab);
    assert_eq!(dest, [0xab; 3]);
    memset(&mut dest, -1);
    assert_eq!(dest, [0xff; 3]);
}

#[test]
fn bytes_are_compared() {
    assert_eq!(memcmp(&[1, 2, 3], &[1, 2, 3]), 0);
    assert_eq!(memcmp(&[], &[]), 0);
    assert_eq!(memcmp(&[1, 9, 3], &[1, 2, 200]), 7);
    assert_eq!(memcmp(&[0, 0], &[0, 255]), -255);
    assert_eq!(bcmp(&[4, 5], &[4, 5]), 0);
    assert_eq!(bcmp(&[4, 6], &[4, 5]), 1);
}

#[test]
fn blocks_are_placed() {
    assert_eq!(place(100, 64, 0, 10, 8), Some((104, 14)));
    assert_eq!(place(104, 64, 0, 10, 8), Some((104, 10)));
    assert_eq!(place(104, 64, 10, 54, 1), Some((114, 64)));
    assert_eq!(place(104, 64, 10, 55, 1), None);
    assert_eq!(place(104, 64, 64, 0, 1), Some((168, 64)));
}

#[test]
fn the_arena_is_used_up() {
    let mut alloc = BumpAlloc::new(0x1000, 64);
    assert_eq!(alloc.load(), 0);
    assert_eq!(alloc.allocate(10, 8), Some(0x1000));
    assert_eq!(alloc.load(), 10);
    assert_eq!(alloc.allocate(16, 16), Some(0x1010));
    assert_eq!(alloc.load(), 32);
    assert_eq!(alloc.allocate(33, 1), None);
    assert_eq!(alloc.load(), 32);
    assert_eq!(alloc.allocate(32, 1), Some(0x1020));
    assert_eq!(alloc.allocate(1, 1), None);
    assert_eq!(alloc.allocate(2, 1), None);
}

#[test]
fn a_stale_attempt_is_repeated() {
    let mut alloc = BumpAlloc::new(0x1000, 64);
    let seen = alloc.load();
    assert_eq!(alloc.attempt(seen, 8, 8), Attempt::Claimed(0x1000));
    assert_eq!(alloc.attempt(seen, 8, 8), Attempt::Retry(8));
    assert_eq!(alloc.attempt(8, 8, 8), Attempt::Claimed(0x1008));
    assert_eq!(alloc.attempt(16, 49, 8), Attempt::Null);
}

#[test]
fn the_word_is_held_and_freed() {
    let mut lock = FutexLock::new();
    assert_eq!((FREE, HELD, WAKE), (0, 1, 1));
    lock.begin();
    assert!(lock.try_acquire());
    assert!(!lock.try_acquire());
    assert_eq!(lock.usage(), (1, 0));
    assert_eq!(lock.release(), 1);
    lock.woken(false);
    assert_eq!(lock.usage(), (1, 0));
    lock.woken(true);
    assert_eq!(lock.usage(), (1, 1));
    lock.begin();
    assert!(lock.try_acquire());
    assert_eq!(lock.usage(), (2, 1));
}

#[test]
fn the_checks_pass() {
    for retired in [0, 1, 31, 32, 33, 256, 512] {
        let mut process = Process::new(None);
        assert_eq!(
            checks(&mut process, retired),
            Ok(Tally {
                early: 0,
                total: retired
            })
        );
        assert_eq!(process.next_thread(), 0);
    }
    let mut huge = Process::new(Some(usize::MAX));
    assert!(checks(&mut huge, 1).is_err());
}

#[test]
fn the_program_with_a_lock() {
    let tally = Tally {
        early: 0,
        total: 512,
    };
    let checked = |tally, acquires, wakes| Event::Checked {
        retired: 512,
        tally,
        acquires,
        wakes,
    };
    assert_eq!(step(Event::Started), Next::Register);
    assert_eq!(step(Event::Registered(true)), Next::Check);
    assert_eq!(step(Event::Registered(false)), Next::Exit(REGISTRATION_REFUSED));
    assert_eq!(step(checked(tally, 1, 1)), Next::RegisterSecond);
    assert_eq!(step(checked(tally, 0, 1)), Next::Exit(LOCK_UNUSED));
    assert_eq!(step(checked(tally, 1, 0)), Next::Exit(LOCK_UNUSED));
    assert_eq!(
        step(checked(Tally { early: 1, ..tally }, 1, 1)),
        Next::Exit(CHECK_FAILED)
    );
    assert_eq!(
        step(checked(Tally { total: 511, ..tally }, 0, 0)),
        Next::Exit(CHECK_FAILED)
    );
    assert_eq!(step(Event::RegisteredSecond(true)), Next::Exit(SECOND_ACCEPTED));
    assert_eq!(step(Event::RegisteredSecond(false)), Next::Exit(PASSED));
    assert_eq!(step(Event::Panicked), Next::Exit(CHECK_FAILED));
    assert_eq!(
        (PASSED, REGISTRATION_REFUSED, LOCK_UNUSED, SECOND_ACCEPTED, CHECK_FAILED),
        (0, 2, 3, 4, 101)
    );
}

#[test]
fn the_program_without_a_lock() {
    let tally = Tally {
        early: 0,
        total: 256,
    };
    let checked = |tally| Event::Checked {
        retired: 256,
        tally,
        acquires: 0,
        wakes: 0,
    };
    assert_eq!(step_without_lock(Event::Started), Next::Check);
    assert_eq!(step_without_lock(checked(tally)), Next::RegisterSecond);
    assert_eq!(
        step_without_lock(checked(Tally { early: 3, ..tally })),
        Next::Exit(CHECK_FAILED)
    );
    assert_eq!(step_without_lock(Event::RegisteredSecond(false)), Next::Exit(PASSED));
    assert_eq!(
        step_without_lock(Event::RegisteredSecond(true)),
        Next::Exit(CHECK_FAILED)
    );
    assert_eq!(step_without_lock(Event::Registered(true)), Next::Exit(CHECK_FAILED));
    assert_eq!(step_without_lock(Event::Panicked), Next::Exit(CHECK_FAILED));
}

#[test]
fn the_checks_on_a_given_collector() {
    let mut process = Process::new(None);
    let made = Collector::new(&mut process);
    assert_eq!(checks_on(&mut process, made, 0), Ok(Tally { early: 0, total: 0 }));
    let made = Collector::new(&mut process);
    assert_eq!(checks_on(&mut process, made, 40), Ok(Tally { early: 0, total: 40 }));
    assert_eq!(checks_on(&mut process, Err(AllocError), 40), Err(AllocError));
}

#[test]
fn the_checks_step_by_step() {
    const RETIRED: usize = 512;

    let mut process = Process::new(None);
    let mut collector = Collector::new(&mut process).unwrap();
    let guard = collector.enter_owned(&mut process).unwrap();

    // Without space nothing is retired.
    assert_eq!(
        retire_one(&mut collector, &guard, 1, Err(AllocError)),
        Err(AllocError)
    );
    for object in 1..=RETIRED {
        let reserved = collector.reserve_retire(guard.thread_id());
        assert_eq!(retire_one(&mut collector, &guard, object, reserved), Ok(()));
        assert_eq!(collector.take_ready(), None);
    }
    assert_eq!(
        finish(&mut process, &mut collector, guard, RETIRED),
        Tally { early: 0, total: 512 }
    );
    assert_eq!(process.next_thread(), 0);
    assert_eq!(collector.active(), 0);
    assert_eq!(collector.reclaim_next(), None);

    let collector = Collector::new(&mut process).unwrap();
    assert_eq!(
        checks_under(&mut process, collector, Err(AllocError), RETIRED),
        Err(AllocError)
    );
}
