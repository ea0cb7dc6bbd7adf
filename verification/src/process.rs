//! What all collectors of a process share.
use vstd::prelude::*;

use crate::thread::less_one;
use crate::thread::ThreadIds;

verus! {

/// The state that is shared by all collectors of a process.
pub struct Process {
    cpus: usize,
    next_collector: u64,
    threads: ThreadIds,
}

impl Process {
    /// The number of threads that the machine can run at once, as far as is known.
    pub closed spec fn cpus(self) -> nat {
        self.cpus as nat
    }

    /// A collector with this identity has been made.
    pub open spec fn issued(self, id: u64) -> bool {
        id < self.next_collector()
    }

    /// The identity of the next collector.
    pub closed spec fn next_collector(self) -> u64 {
        self.next_collector
    }

    /// The thread slots that are in use.
    pub closed spec fn threads(self) -> ThreadIds {
        self.threads
    }

    /// The thread slots that are in use are those of another state and, at most, the next one there.
    pub open spec fn keeps_threads(self, before: Process) -> bool {
        &&& before.threads().in_use().subset_of(self.threads().in_use())
        &&& forall|thread: int| #[trigger]
            self.threads().in_use().contains(thread) && !before.threads().in_use().contains(thread)
                ==> before.threads().is_next(thread)
    }

    /// The state is well-formed.
    pub closed spec fn wf(self) -> bool {
        &&& self.cpus > 0
        &&& self.threads.wf()
    }

    /// A process on a machine that can run the given number of threads at once, if that is known.
    pub fn new(parallelism: Option<usize>) -> (process: Process)
        requires
            parallelism != Some(0usize),
        ensures
            process.wf(),
            process.cpus() == match parallelism {
                Some(cpus) => cpus as nat,
                None => 1,
            },
            process.threads().in_use() == Set::<int>::empty(),
            process.next_collector() == 0,
            process.threads().known() == 0,
            process.threads().room() == 0,
    {
        let cpus: usize = match parallelism {
            Some(cpus) => cpus,
            None => 1,
        };
        Process { cpus, next_collector: 0, threads: ThreadIds::new() }
    }

    /// The number of threads that the machine can run at once, as far as is known.
    pub fn get_cpus(&self) -> (cpus: usize)
        requires
            self.wf(),
        ensures
            cpus == self.cpus(),
            cpus > 0,
    {
        self.cpus
    }

    /// The identity that the next collector will have.
    pub(crate) fn peek_collector(&self) -> (id: u64)
        ensures
            id == self.next_collector(),
    {
        self.next_collector
    }

    /// The next collector has been made.
    pub(crate) fn issue_collector(&mut self)
        requires
            old(self).wf(),
            old(self).next_collector() < u64::MAX,
        ensures
            final(self).wf(),
            final(self).cpus() == old(self).cpus(),
            final(self).threads() == old(self).threads(),
            final(self).next_collector() == old(self).next_collector() + 1,
    {
        self.next_collector = self.next_collector + 1;
    }

    /// Whether another collector can be made.
    pub fn has_collector_id(&self) -> (available: bool)
        ensures
            available == (self.next_collector() < u64::MAX),
    {
        self.next_collector < u64::MAX
    }

    /// Whether some thread slot is not in use.
    pub fn has_thread(&self) -> (available: bool)
        requires
            self.wf(),
        ensures
            available == self.threads().available(),
    {
        self.threads.has_available()
    }

    /// The smallest thread slot that is not in use.
    pub fn next_thread(&self) -> (id: usize)
        requires
            self.wf(),
            self.threads().available(),
        ensures
            id < usize::MAX,
            self.threads().is_next(id as int),
    {
        self.threads.peek()
    }

    /// Takes the smallest thread slot that is not in use.
    pub fn create_thread(&mut self) -> (id: usize)
        requires
            old(self).wf(),
            old(self).threads().available(),
        ensures
            final(self).wf(),
            final(self).cpus() == old(self).cpus(),
            final(self).next_collector() == old(self).next_collector(),
            id < usize::MAX,
            old(self).threads().is_next(id as int),
            final(self).threads().in_use() == old(self).threads().in_use().insert(id as int),
            id < old(self).threads().known() ==> final(self).threads().known() == old(
                self,
            ).threads().known() && final(self).threads().room() == old(self).threads().room() + 1,
            id >= old(self).threads().known() ==> final(self).threads().known() == id + 1 && final(
                self
            ).threads().room() == old(self).threads().room(),
    {
        self.threads.create()
    }

    /// Gives a thread slot back if there is memory to remember that it is free, and says whether
    /// there was. While there is room, none is needed.
    pub fn release_thread(&mut self, id: usize) -> (recycled: bool)
        requires
            old(self).wf(),
            old(self).threads().in_use().contains(id as int),
        ensures
            final(self).wf(),
            final(self).cpus() == old(self).cpus(),
            final(self).next_collector() == old(self).next_collector(),
            final(self).threads().in_use() == if recycled {
                old(self).threads().in_use().remove(id as int)
            } else {
                old(self).threads().in_use()
            },
            old(self).threads().room() > 0 ==> recycled,
            !recycled ==> old(self).threads().refused(),
            final(self).threads().known() == old(self).threads().known(),
            final(self).threads().room() == less_one(old(self).threads().room()),
    {
        self.threads.release(id)
    }
}

/// Where the thread slots that were in use stay so, at most one more is in use: one that was the next.
pub proof fn law_at_most_one_slot_more(before: Process, after: Process, one: int, other: int)
    requires
        after.keeps_threads(before),
    ensures
        before.threads().in_use().contains(one) ==> after.threads().in_use().contains(one),
        after.threads().in_use().contains(one) && !before.threads().in_use().contains(one)
            ==> before.threads().is_next(one) && 0 <= one,
        after.threads().in_use().contains(one) && !before.threads().in_use().contains(one)
            && after.threads().in_use().contains(other) && !before.threads().in_use().contains(other)
            ==> one == other,
{
    if after.threads().in_use().contains(one) && !before.threads().in_use().contains(one)
        && after.threads().in_use().contains(other) && !before.threads().in_use().contains(other) {
        if one < other {
            assert(before.threads().in_use().contains(one));
        }
        if other < one {
            assert(before.threads().in_use().contains(other));
        }
    }
}

/// The identities that have been given to collectors are those below the next one.
pub proof fn law_identities_are_counted(process: Process, id: u64)
    ensures
        process.issued(id) <==> id < process.next_collector(),
{
}

} // verus!
