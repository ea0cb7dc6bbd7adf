//! Guards, which keep a thread slot active.
use vstd::prelude::*;

verus! {

/// A guard of either kind.
///
/// A guard stands for one of the guards that a collector counts on a thread slot. It is given
/// back to the collector to leave.
pub trait Guard {
    /// The thread slot that the guard keeps active.
    spec fn slot(&self) -> int;

    /// The identity of the collector that the guard was entered on.
    spec fn owner(&self) -> u64;

    /// The thread slot that the guard keeps active.
    fn thread_id(&self) -> (id: usize)
        ensures
            id == self.slot(),
    ;

    /// The identity of the collector that the guard was entered on.
    fn collector_id(&self) -> (id: u64)
        ensures
            id == self.owner(),
    ;
}

/// A guard on the slot of a thread. There can be several on one slot.
pub struct LocalGuard {
    thread: usize,
    collector: u64,
}

impl LocalGuard {
    /// A guard on a slot of a collector.
    pub(crate) fn new(thread: usize, collector: u64) -> (guard: LocalGuard)
        ensures
            guard.slot() == thread,
            guard.owner() == collector,
    {
        LocalGuard { thread, collector }
    }
}

impl Guard for LocalGuard {
    closed spec fn slot(&self) -> int {
        self.thread as int
    }

    closed spec fn owner(&self) -> u64 {
        self.collector
    }

    fn thread_id(&self) -> (id: usize) {
        self.thread
    }

    fn collector_id(&self) -> (id: u64) {
        self.collector
    }
}

/// A guard with a slot of its own, independent of any thread.
pub struct OwnedGuard {
    thread: usize,
    collector: u64,
}

impl OwnedGuard {
    /// A guard on a slot of a collector.
    pub(crate) fn new(thread: usize, collector: u64) -> (guard: OwnedGuard)
        ensures
            guard.slot() == thread,
            guard.owner() == collector,
    {
        OwnedGuard { thread, collector }
    }
}

impl Guard for OwnedGuard {
    closed spec fn slot(&self) -> int {
        self.thread as int
    }

    closed spec fn owner(&self) -> u64 {
        self.collector
    }

    fn thread_id(&self) -> (id: usize) {
        self.thread
    }

    fn collector_id(&self) -> (id: u64) {
        self.collector
    }
}

} // verus!
