use seize::collector::Collector;
use seize::freestanding::futex::FutexLock;
use seize::lock::{Acquire, Mode, Registry, Release};
use seize::process::Process;
use seize::sync::Mutex;

/// The host's lock in these tests.
const HOST: u32 = 7;

#[test]
fn mutex_excludes() {
    const THREADS: usize = 4;
    const OPS: usize = 10_000;

    let mut registry: Registry<u32> = Registry::new();
    assert!(registry.register(HOST));
    let mut host = FutexLock::new();
    let mut word = false;
    let counter = Mutex::new(0_u64);

    for _ in 0..OPS {
        for _ in 0..THREADS {
            assert_eq!(registry.acquire(&mut word), Acquire::Host(HOST));
            host.begin();
            assert!(host.try_acquire());
            assert!(!host.try_acquire());

            let mut guard = counter.lock();
            let now = *guard.deref();
            *guard.deref_mut() = now + 1;
            guard.unlock();

            assert_eq!(registry.release(&mut word), Release::Host(HOST));
            assert_eq!(host.release(), 1);
        }
    }

    let guard = counter.lock();
    assert_eq!(*guard.deref(), (THREADS * OPS) as u64);
    guard.unlock();
    assert!(host.usage().0 > 0, "the host lock was bypassed");
    assert_eq!(counter.into_inner(), 40_000);
}

#[test]
fn registration_is_first_wins() {
    let mut registry: Registry<u32> = Registry::new();
    let mut word = false;
    assert!(registry.register(1));
    assert!(!registry.register(2));
    assert_eq!(registry.mode(), Mode::Host);
    assert_eq!(registry.acquire(&mut word), Acquire::Host(1));
    assert!(!word);
    assert_eq!(registry.release(&mut word), Release::Host(1));
}

#[test]
fn late_registration_keeps_spinning() {
    let mut registry: Registry<u32> = Registry::new();
    let mut word = false;
    assert_eq!(registry.mode(), Mode::Spin);
    assert!(!registry.register(1));
    assert!(!registry.register(2));
    assert_eq!(registry.mode(), Mode::Spin);
    assert_eq!(registry.acquire(&mut word), Acquire::Entered);
}

#[test]
fn an_interrupted_registration_is_refused() {
    let mut registry: Registry<u32> = Registry::new();
    assert!(registry.publish(1));
    assert_eq!(registry.mode(), Mode::Spin);
    assert_eq!(registry.latch(Mode::Host), Mode::Spin);
    assert!(!registry.publish(2));
}

#[test]
fn decisions_are_final() {
    let mut registry: Registry<u32> = Registry::new();
    assert_eq!(registry.latch(Mode::Spin), Mode::Spin);
    assert!(registry.publish(1));
    assert_eq!(registry.latch(Mode::Host), Mode::Spin);
    assert_eq!(registry.latch(Mode::Spin), Mode::Spin);
}

#[test]
fn a_held_section_is_busy() {
    let mut registry: Registry<u32> = Registry::new();
    let mut word = false;
    let mut other = false;
    assert_eq!(registry.acquire(&mut word), Acquire::Entered);
    assert!(word);
    assert_eq!(registry.acquire(&mut word), Acquire::Busy);
    assert_eq!(registry.acquire(&mut other), Acquire::Entered);
    assert_eq!(registry.release(&mut word), Release::Left);
    assert!(!word);
    assert_eq!(registry.acquire(&mut word), Acquire::Entered);
}

#[test]
fn a_shared_collector() {
    let process = Mutex::new(Process::new(Some(2)));

    let mut access = process.lock();
    let collector = Collector::new(access.deref_mut()).unwrap().batch_size(1);
    access.unlock();

    let shared = Mutex::new(collector);
    let mut access = process.lock();
    let mut collector = shared.lock();
    let guard = collector.deref_mut().enter_owned(access.deref_mut()).unwrap();
    collector.unlock();
    access.unlock();

    let mut collector = shared.lock();
    collector.deref_mut().defer_retire(&guard, 1, 1).unwrap();
    assert!(collector.deref_mut().take_ready().is_none());
    collector.unlock();

    let mut access = process.lock();
    let mut collector = shared.lock();
    assert!(collector.deref_mut().leave_owned(access.deref_mut(), guard));
    access.unlock();
    assert_eq!(collector.deref_mut().take_ready().unwrap().ptr, 1);
    assert_eq!(collector.deref().active(), 0);
    collector.unlock();
    assert_eq!(shared.into_inner().active(), 0);
}

#[test]
fn a_shared_registry() {
    let registry: Mutex<Registry<u32>> = Mutex::new(Registry::new());
    let mut access = registry.lock();
    assert!(access.deref_mut().register(HOST));
    access.unlock();
    let mut access = registry.lock();
    assert!(!access.deref_mut().register(HOST));
    access.unlock();
}

#[test]
fn registration_with_a_system_has_no_effect() {
    let mut registry: Registry<u32> = Registry::with_system();
    let mut word = false;
    for _ in 0..3 {
        assert_eq!(registry.acquire(&mut word), Acquire::System);
        assert!(!word);
        assert_eq!(registry.release(&mut word), Release::System);
    }
    assert!(registry.register(HOST));
    assert_eq!(registry.acquire(&mut word), Acquire::System);
    assert_eq!(registry.release(&mut word), Release::System);
    assert!(!registry.register(HOST));
}

#[test]
fn a_section_is_left_as_it_was_entered() {
    let mut registry: Registry<u32> = Registry::default();
    let mut word = false;
    assert_eq!(registry.acquire(&mut word), Acquire::Entered);
    assert!(!registry.register(HOST));
    assert_eq!(registry.release(&mut word), Release::Left);

    let mut registry: Registry<u32> = Registry::new();
    assert!(registry.register(1));
    assert_eq!(registry.acquire(&mut word), Acquire::Host(1));
    assert!(!registry.register(2));
    assert_eq!(registry.release(&mut word), Release::Host(1));
}

#[test]
fn a_mutex_holds_a_default() {
    let counter: Mutex<u64> = Mutex::default();
    assert_eq!(counter.into_inner(), 0);
    let lock: Mutex<FutexLock> = Mutex::default();
    assert_eq!(lock.into_inner().usage(), (0, 0));
    let registry: Mutex<Registry<u32>> = Mutex::default();
    assert!(registry.into_inner().register(HOST));
}
