use seize::collector::Collector;
use seize::guard::{Guard, OwnedGuard};
use seize::lock::{Acquire, Registry, Release};
use seize::process::Process;

/// A stack of objects, which are retired through the guard they are popped with.
struct Stack {
    objects: Vec<usize>,
    collector: Collector<'static>,
}

impl Stack {
    fn new(process: &mut Process) -> Stack {
        Stack {
            objects: Vec::new(),
            // A batch size of one forces a retirement to be attempted on every pop.
            collector: Collector::new(process).unwrap().batch_size(1),
        }
    }

    fn push(&mut self, object: usize) {
        self.objects.push(object);
    }

    /// Pops an object, returning `false` if the stack was empty.
    fn pop(&mut self, guard: &OwnedGuard) -> bool {
        let reserved = self.collector.reserve_retire(guard.thread_id()).is_ok();
        match self.objects.pop() {
            Some(object) => {
                let retired = self.collector.defer_retire(guard, object, 1);
                assert!(!reserved || retired.is_ok());
                true
            }
            None => false,
        }
    }

    fn drain(&mut self) -> usize {
        let mut dropped = 0;
        while self.collector.take_ready().is_some() {
            dropped += 1;
        }
        dropped
    }

    /// Frees what is left on the stack and reclaims everything that was retired.
    fn finish(&mut self) -> usize {
        let mut dropped = self.objects.len();
        self.objects.clear();
        while self.collector.reclaim_next().is_some() {
            dropped += 1;
        }
        dropped
    }
}

#[test]
fn late_lock_registration_is_refused() {
    let mut registry: Registry<u32> = Registry::new();
    let mut word = false;

    // Taking a guard allocates a thread slot, which takes a lock and latches spin mode.
    let mut process = Process::new(None);
    let mut collector = Collector::new(&mut process).unwrap();
    assert_eq!(registry.acquire(&mut word), Acquire::Entered);
    let guard = collector.enter_owned(&mut process).unwrap();
    assert_eq!(registry.release(&mut word), Release::Left);
    collector.leave_owned(&mut process, guard);

    assert!(!registry.register(1));
}

#[test]
fn owned_guard_is_send_and_sync() {
    fn assert_send_sync<T: Send + Sync>() {}
    assert_send_sync::<Collector<'_>>();
    assert_send_sync::<OwnedGuard>();
}

#[test]
fn retires_through_an_owned_guard() {
    const ITEMS: usize = 128;

    let mut process = Process::new(None);
    let mut stack = Stack::new(&mut process);
    let mut dropped = 0;

    let guard = stack.collector.enter_owned(&mut process).unwrap();
    for object in 1..=ITEMS {
        stack.push(object);
    }
    for _ in 0..ITEMS {
        assert!(stack.pop(&guard));
        dropped += stack.drain();
    }
    assert!(!stack.pop(&guard));

    // Nothing can be reclaimed while the guard is active.
    assert_eq!(dropped, 0);
    stack.collector.leave_owned(&mut process, guard);

    dropped += stack.finish();
    assert_eq!(dropped, ITEMS);
}

#[test]
fn one_guard_per_worker() {
    const WORKERS: usize = 4;
    const ROUNDS: usize = 8;
    const ITEMS: usize = 512;

    let mut process = Process::new(Some(WORKERS));
    let mut stack = Stack::new(&mut process);
    let mut dropped = 0;
    let mut popped = 0;

    for round in 0..ROUNDS {
        // The workers of a round overlap: each leaves after the next one has entered.
        let mut before: Option<OwnedGuard> = None;
        for worker in 0..WORKERS {
            let guard = stack.collector.enter_owned(&mut process).unwrap();
            for item in 0..ITEMS {
                stack.push(1 + item + ITEMS * (worker + WORKERS * round));
            }
            for _ in 0..ITEMS {
                if stack.pop(&guard) {
                    popped += 1;
                }
                dropped += stack.drain();
            }
            if let Some(earlier) = before.take() {
                stack.collector.leave_owned(&mut process, earlier);
                dropped += stack.drain();
            }
            before = Some(guard);
        }
        if let Some(last) = before.take() {
            stack.collector.leave_owned(&mut process, last);
            dropped += stack.drain();
        }
    }

    assert!(popped > 0);
    assert!(
        dropped > 0,
        "retired values should have been reclaimed as guards were dropped"
    );

    dropped += stack.finish();
    assert_eq!(
        dropped,
        WORKERS * ROUNDS * ITEMS,
        "every value should have been reclaimed"
    );
}

#[test]
fn one_guard_shared_between_workers() {
    const WORKERS: usize = 4;
    const ITEMS: usize = 512;

    let mut process = Process::new(Some(WORKERS));
    let mut stack = Stack::new(&mut process);
    let guard = stack.collector.enter_owned(&mut process).unwrap();
    let mut dropped = 0;

    for worker in 0..WORKERS {
        for item in 0..ITEMS {
            stack.push(1 + item + ITEMS * worker);
        }
        for _ in 0..ITEMS {
            stack.pop(&guard);
        }
        stack.collector.flush(&guard);
        dropped += stack.drain();
    }

    // The guard held every retirement back for its whole lifetime.
    assert_eq!(dropped, 0);
    stack.collector.leave_owned(&mut process, guard);

    dropped += stack.finish();
    assert_eq!(dropped, WORKERS * ITEMS);
}

#[test]
fn thread_slots_are_recycled() {
    const CYCLES: usize = 1024;

    let mut process = Process::new(Some(4));
    let mut collector = Collector::new(&mut process).unwrap();

    for _ in 0..CYCLES {
        let guard = collector.enter_owned(&mut process).unwrap();
        assert!(guard.thread_id() < 64, "the slot should have been reused");
        collector.leave_owned(&mut process, guard);
    }
}
