//! The collector.
use vstd::prelude::*;
use vstd::std_specs::cmp::PartialEqSpec;

use crate::guard::Guard;
use crate::guard::LocalGuard;
use crate::guard::OwnedGuard;
use crate::memory::refused;
use crate::memory::AllocError;
use crate::memory::DynAlloc;
use crate::process::Process;
use crate::raw;
use crate::raw::layout_refused;
use crate::state::Retired;
use crate::state::State;
use crate::text::append_decimal;
use crate::text::decimal_text;
use crate::text::is_decimal;
use crate::text::law_decimal_reads_back;
use crate::text::value_of;
use crate::thread::less_one;
use crate::thread::ThreadIds;

verus! {

/// The batch size of a new collector.
pub const DEFAULT_BATCH_SIZE: usize = 32;

/// A collector: it manages the access to shared objects and their retirement.
///
/// Objects are loaded under the protection of a *guard*, from [`enter`](Collector::enter) or
/// [`enter_owned`](Collector::enter_owned). An object that is no longer reachable is retired, and
/// may be reclaimed once no guard is left that was held when it was handed over. An operation that
/// lets objects go does not run their reclaimers: it makes the objects ready, and
/// [`take_ready`](Collector::take_ready) hands them out one by one. A reclaimer may so use the
/// collector itself.
///
/// A collector never aborts on allocation failure: an operation that may allocate returns a
/// [`Result`], and leaves the state of the collector unchanged if allocation fails.
///
/// Each operation takes the collector by unique reference and is one step; threads that share a
/// collector put it in a [`Mutex`](crate::sync::Mutex).
pub struct Collector<'a> {
    raw: raw::Collector<'a>,
}

impl<'a> Collector<'a> {
    /// The collector is well-formed.
    pub closed spec fn wf(self) -> bool {
        self.raw.wf()
    }

    /// What the collector knows.
    pub closed spec fn state(self) -> State {
        self.raw.state()
    }

    /// The identity of the collector.
    pub closed spec fn id(self) -> u64 {
        self.raw.id()
    }

    /// The allocator that the collector's own records are in.
    pub closed spec fn memory(self) -> DynAlloc<'a> {
        self.raw.memory()
    }

    /// The allocator was provided by the user.
    pub closed spec fn custom(self) -> bool {
        self.raw.custom()
    }

    /// The allocator that the collector's own records are in, as a number; that of the global one is
    /// zero.
    pub closed spec fn home(self) -> int {
        self.raw.home()
    }

    /// An object more can be retired on thread `t` without allocating.
    pub closed spec fn reserved(self, t: int) -> bool {
        self.raw.reserved(t)
    }

    /// The slot of thread `t` is there, or can be added without allocating.
    pub closed spec fn has_room(self, t: int) -> bool {
        self.raw.has_room(t)
    }

    /// List `l` has space for an object, and is the local batch of thread `t` or can become it
    /// without allocating.
    pub closed spec fn can_adopt(self, t: int, l: int) -> bool {
        self.raw.can_adopt(t, l)
    }

    /// There is a list with space for an object to be retired on thread `t`.
    pub closed spec fn has_space(self, t: int) -> bool {
        self.raw.has_space(t)
    }

    /// The allocator has refused space for the slots that are missing up to that of thread `t`.
    pub closed spec fn slot_refused(self, t: int) -> bool {
        self.raw.slot_refused(t)
    }

    /// The allocator has refused space for the slot of thread `t`, for a list to put its objects in, or
    /// for one more object in that list.
    pub closed spec fn space_refused(self, t: int) -> bool {
        self.raw.space_refused(t)
    }

    /// Wherever memory is said to be refused, the allocator has refused some request.
    pub proof fn law_want_of_memory_is_a_refusal(self, t: int)
        requires
            self.wf(),
        ensures
            self.slot_refused(t) ==> t >= self.state().slots() && refused(),
            self.space_refused(t) ==> refused(),
    {
        self.raw.law_want_of_memory_is_a_refusal(t);
    }

    /// The number under which the local batch of thread `t` will be handed over.
    pub closed spec fn batch_id(self, t: int) -> int {
        self.raw.batch_id(t)
    }

    /// Every thread, except thread `t`, can retire an object without allocating if it could
    /// before.
    pub open spec fn keeps_reserved(self, other: Self, t: int) -> bool {
        forall|u: int| u != t && #[trigger] other.reserved(u) ==> self.reserved(u)
    }

    /// Identity and allocator are those of another collector.
    pub open spec fn same_collector(self, other: Self) -> bool {
        &&& self.id() == other.id()
        &&& self.custom() == other.custom()
        &&& self.home() == other.home()
    }

    /// The guard is one of those that the collector counts.
    pub open spec fn holds<G: Guard>(self, guard: &G) -> bool {
        &&& guard.owner() == self.id()
        &&& 0 <= guard.slot() < self.state().slots()
        &&& self.state().guards[guard.slot()] > 0
    }

    /// The state of every collector is valid.
    pub proof fn lemma_valid(self)
        requires
            self.wf(),
        ensures
            self.state().valid(),
    {
        self.raw.lemma_valid();
    }

    /// Creates a new collector that allocates in the global allocator. Fails, with the process
    /// unchanged, if the initial thread slots could not be allocated.
    pub fn new(process: &mut Process) -> (result: Result<Collector<'a>, AllocError>)
        requires
            old(process).wf(),
            old(process).next_collector() < u64::MAX,
        ensures
            result matches Ok(collector) ==> {
                &&& collector.wf()
                &&& !collector.custom()
                &&& collector.home() == 0
                &&& collector.is_new(*old(process), *final(process))
            },
            result is Err ==> *final(process) == *old(process) && layout_refused(
                old(process).cpus() as usize,
            ),
            final(process).wf(),
    {
        Collector::new_erased(process, DynAlloc::global())
    }

    /// Creates a new collector that allocates in the given allocator. Fails, with the process
    /// unchanged, if the initial thread slots could not be allocated.
    pub fn new_in(process: &mut Process, alloc: DynAlloc<'a>) -> (result: Result<
        Collector<'a>,
        AllocError,
    >)
        requires
            old(process).wf(),
            old(process).next_collector() < u64::MAX,
            alloc.unused(),
        ensures
            result matches Ok(collector) ==> {
                &&& collector.wf()
                &&& collector.custom() == alloc.custom()
                &&& collector.home() == alloc.home()
                &&& collector.is_new(*old(process), *final(process))
            },
            result is Err ==> *final(process) == *old(process) && layout_refused(
                old(process).cpus() as usize,
            ),
            final(process).wf(),
    {
        Collector::new_erased(process, alloc)
    }

    /// A new collector: a slot for each processor, and the default batch size. Its identity is one
    /// that no collector had before.
    pub open spec fn is_new(self, before: Process, after: Process) -> bool {
        &&& !before.issued(self.id())
        &&& after.issued(self.id())
        &&& forall|id: u64| #[trigger] before.issued(id) ==> after.issued(id)
        &&& after.next_collector() == before.next_collector() + 1
        &&& after.cpus() == before.cpus()
        &&& after.threads() == before.threads()
        &&& self.state() == State::idle(before.cpus(), DEFAULT_BATCH_SIZE as nat)
    }

    /// The next collector of a process has been made, or could not be for want of memory.
    pub fn issue(process: &mut Process, made: Result<raw::Collector<'a>, AllocError>) -> (result:
        Result<Collector<'a>, AllocError>)
        requires
            old(process).wf(),
            old(process).next_collector() < u64::MAX,
            made matches Ok(raw) ==> {
                &&& raw.wf()
                &&& raw.id() == old(process).next_collector()
                &&& raw.state() == State::idle(old(process).cpus(), DEFAULT_BATCH_SIZE as nat)
            },
        ensures
            made matches Ok(raw) ==> {
                &&& result is Ok
                &&& result->Ok_0.wf()
                &&& result->Ok_0.custom() == raw.custom()
                &&& result->Ok_0.home() == raw.home()
                &&& result->Ok_0.is_new(*old(process), *final(process))
            },
            made matches Err(e) ==> result == Err::<Collector<'a>, AllocError>(e)
                && *final(process) == *old(process),
            final(process).wf(),
    {
        match made {
            Ok(raw) => {
                process.issue_collector();
                Ok(Collector { raw })
            },
            Err(e) => Err(e),
        }
    }

    /// Creates a new collector that allocates in the given memory.
    fn new_erased(process: &mut Process, alloc: DynAlloc<'a>) -> (result: Result<
        Collector<'a>,
        AllocError,
    >)
        requires
            old(process).wf(),
            old(process).next_collector() < u64::MAX,
            alloc.unused(),
        ensures
            result matches Ok(collector) ==> {
                &&& collector.wf()
                &&& collector.custom() == alloc.custom()
                &&& collector.home() == alloc.home()
                &&& collector.is_new(*old(process), *final(process))
            },
            result is Err ==> *final(process) == *old(process) && layout_refused(
                old(process).cpus() as usize,
            ),
            final(process).wf(),
    {
        let cpus: usize = process.get_cpus();
        let id: u64 = process.peek_collector();
        Collector::issue(process, raw::Collector::new(id, cpus, DEFAULT_BATCH_SIZE, alloc))
    }

    /// The allocator that the collector's own records are in.
    pub fn allocator(&self) -> (alloc: &DynAlloc<'a>)
        ensures
            *alloc == self.memory(),
            alloc.custom() == self.custom(),
            alloc.home() == self.home(),
    {
        self.raw.allocator()
    }

    /// Sets the number of objects that must be in a batch before reclamation is attempted. The
    /// default is [`DEFAULT_BATCH_SIZE`].
    pub fn batch_size(self, batch_size: usize) -> (collector: Collector<'a>)
        requires
            self.wf(),
        ensures
            collector.wf(),
            collector.same_collector(self),
            collector.keeps_reserved(self, -1),
            collector.state() == (State { batch_size: batch_size as nat, ..self.state() }),
    {
        let mut collector = self;
        collector.set_batch_size(batch_size);
        collector
    }

    /// Sets the number of objects that must be in a batch before reclamation is attempted.
    pub fn set_batch_size(&mut self, batch_size: usize)
        requires
            old(self).wf(),
        ensures
            final(self).wf(),
            final(self).same_collector(*old(self)),
            final(self).keeps_reserved(*old(self), -1),
            final(self).state() == (State { batch_size: batch_size as nat, ..old(self).state() }),
    {
        self.raw.set_batch_size(batch_size);
    }

    /// The identity of the collector.
    pub fn identity(&self) -> (id: u64)
        ensures
            id == self.id(),
    {
        self.raw.get_id()
    }

    /// Makes sure that the slot of a thread can be used without allocating. It succeeds at once where
    /// it can be. Whether there is memory for it else is up to the allocator, but there is no slot
    /// for the last number.
    pub fn make_room(&mut self, thread: usize) -> (result: Result<(), AllocError>)
        requires
            old(self).wf(),
        ensures
            final(self).wf(),
            final(self).same_collector(*old(self)),
            final(self).keeps_reserved(*old(self), -1),
            final(self).state() == old(self).state(),
            result is Ok ==> final(self).has_room(thread as int),
            old(self).has_room(thread as int) ==> result is Ok,
            thread < old(self).state().slots() ==> result is Ok,
            thread == usize::MAX ==> result is Err,
            result is Err ==> thread == usize::MAX || old(self).slot_refused(thread as int),
    {
        self.raw.make_room(thread)
    }

    /// Marks a thread as active and returns a guard that keeps it active. There can be several
    /// guards for one thread, which stays active until the last of them leaves. Fails if there is
    /// no memory for the slot of the thread, which is allocated when it is first used.
    pub fn enter(&mut self, thread: usize) -> (result: Result<LocalGuard, AllocError>)
        requires
            old(self).wf(),
            thread < old(self).state().slots() ==> old(self).state().guards[thread as int]
                < usize::MAX,
        ensures
            final(self).wf(),
            final(self).same_collector(*old(self)),
            final(self).keeps_reserved(*old(self), -1),
            result matches Ok(guard) ==> {
                &&& guard.slot() == thread
                &&& final(self).holds(&guard)
                &&& final(self).state() == old(self).state().enter(thread as int)
            },
            result is Err ==> final(self).state() == old(self).state(),
            old(self).has_room(thread as int) ==> result is Ok,
            thread < old(self).state().slots() ==> result is Ok,
            thread == usize::MAX ==> result is Err,
            result is Err ==> thread == usize::MAX || old(self).slot_refused(thread as int),
    {
        let room = self.make_room(thread);
        self.enter_with(thread, room)
    }

    /// Marks a thread as active once there is room for its slot. Without room nothing changes.
    pub fn enter_with(&mut self, thread: usize, room: Result<(), AllocError>) -> (result: Result<
        LocalGuard,
        AllocError,
    >)
        requires
            old(self).wf(),
            room is Ok ==> old(self).has_room(thread as int),
            thread < old(self).state().slots() ==> old(self).state().guards[thread as int]
                < usize::MAX,
        ensures
            final(self).wf(),
            final(self).same_collector(*old(self)),
            final(self).keeps_reserved(*old(self), -1),
            room is Ok ==> {
                &&& result is Ok
                &&& result->Ok_0.slot() == thread
                &&& final(self).holds(&result->Ok_0)
                &&& final(self).state() == old(self).state().enter(thread as int)
            },
            room matches Err(e) ==> result == Err::<LocalGuard, AllocError>(e) && *final(self) == *old(
                self,
            ),
    {
        match self.raw.enter_with(thread, room) {
            Ok(()) => Ok(LocalGuard::new(thread, self.raw.get_id())),
            Err(e) => Err(e),
        }
    }

    /// Gives up a guard. With the last guard of a thread, the thread is inactive, and what waited
    /// for no other thread is ready to be reclaimed.
    pub fn leave(&mut self, guard: LocalGuard)
        requires
            old(self).wf(),
            old(self).holds(&guard),
        ensures
            final(self).wf(),
            final(self).same_collector(*old(self)),
            final(self).keeps_reserved(*old(self), -1),
            final(self).state() == old(self).state().leave(guard.slot()),
    {
        self.raw.leave(guard.thread_id());
    }

    /// Creates a guard on a thread slot that is its own. Fails if there is no memory for the slot.
    pub fn enter_slot(&mut self, thread: usize) -> (result: Result<OwnedGuard, AllocError>)
        requires
            old(self).wf(),
            thread < old(self).state().slots() ==> old(self).state().guards[thread as int]
                < usize::MAX,
        ensures
            final(self).wf(),
            final(self).same_collector(*old(self)),
            final(self).keeps_reserved(*old(self), -1),
            result matches Ok(guard) ==> {
                &&& guard.slot() == thread
                &&& final(self).holds(&guard)
                &&& final(self).state() == old(self).state().enter(thread as int)
            },
            result is Err ==> final(self).state() == old(self).state(),
            old(self).has_room(thread as int) ==> result is Ok,
            thread < old(self).state().slots() ==> result is Ok,
            thread == usize::MAX ==> result is Err,
            result is Err ==> thread == usize::MAX || old(self).slot_refused(thread as int),
    {
        let room = self.make_room(thread);
        self.enter_slot_with(thread, room)
    }

    /// Creates a guard on a thread slot that is its own, once there is room for the slot. Without room
    /// nothing changes.
    pub fn enter_slot_with(&mut self, thread: usize, room: Result<(), AllocError>) -> (result: Result<
        OwnedGuard,
        AllocError,
    >)
        requires
            old(self).wf(),
            room is Ok ==> old(self).has_room(thread as int),
            thread < old(self).state().slots() ==> old(self).state().guards[thread as int]
                < usize::MAX,
        ensures
            final(self).wf(),
            final(self).same_collector(*old(self)),
            final(self).keeps_reserved(*old(self), -1),
            room is Ok ==> {
                &&& result is Ok
                &&& result->Ok_0.slot() == thread
                &&& final(self).holds(&result->Ok_0)
                &&& final(self).state() == old(self).state().enter(thread as int)
            },
            room matches Err(e) ==> result == Err::<OwnedGuard, AllocError>(e) && *final(self) == *old(
                self,
            ),
    {
        match self.raw.enter_with(thread, room) {
            Ok(()) => Ok(OwnedGuard::new(thread, self.raw.get_id())),
            Err(e) => Err(e),
        }
    }

    /// Gives up an owned guard, and returns its thread slot.
    pub fn leave_slot(&mut self, guard: OwnedGuard) -> (thread: usize)
        requires
            old(self).wf(),
            old(self).holds(&guard),
        ensures
            final(self).wf(),
            final(self).same_collector(*old(self)),
            final(self).keeps_reserved(*old(self), -1),
            final(self).state() == old(self).state().leave(guard.slot()),
            thread == guard.slot(),
    {
        let thread: usize = guard.thread_id();
        self.raw.leave(thread);
        thread
    }

    /// Creates a guard with a thread slot of its own, the next one that is free. It cannot fail
    /// where the collector has that slot already. Else it fails, with the state of the collector
    /// unchanged, if there is no memory for the slot; the slot is then free again, unless there is
    /// no memory to remember that either.
    pub fn enter_owned(&mut self, process: &mut Process) -> (result: Result<OwnedGuard, AllocError>)
        requires
            old(self).wf(),
            old(process).wf(),
            old(process).threads().available(),
            forall|thread: int| #[trigger]
                old(process).threads().is_next(thread) && thread < old(self).state().slots() ==> old(
                    self,
                ).state().guards[thread] < usize::MAX,
        ensures
            final(self).wf(),
            final(self).same_collector(*old(self)),
            final(self).keeps_reserved(*old(self), -1),
            final(process).wf(),
            final(process).cpus() == old(process).cpus(),
            final(process).next_collector() == old(process).next_collector(),
            result matches Ok(guard) ==> {
                &&& old(process).threads().is_next(guard.slot())
                &&& final(process).threads().in_use() == old(process).threads().in_use().insert(
                    guard.slot(),
                )
                &&& final(self).holds(&guard)
                &&& final(self).state() == old(self).state().enter(guard.slot())
            },
            result is Err ==> final(self).state() == old(self).state() && final(
                process
            ).keeps_threads(*old(process)),
            result matches Ok(guard) ==> {
                &&& guard.slot() < old(process).threads().known() ==> final(
                    process
                ).threads().known() == old(process).threads().known() && final(
                    process
                ).threads().room() == old(process).threads().room() + 1
                &&& guard.slot() >= old(process).threads().known() ==> final(
                    process
                ).threads().known() == guard.slot() + 1 && final(process).threads().room() == old(
                    process,
                ).threads().room()
            },
            forall|thread: int| #[trigger]
                old(process).threads().is_next(thread) && old(self).has_room(thread)
                    ==> result is Ok,
            forall|thread: int| #[trigger]
                old(process).threads().is_next(thread) && thread < old(self).state().slots()
                    ==> result is Ok,
            result is Err ==> exists|thread: int| #[trigger]
                old(process).threads().is_next(thread) && old(self).slot_refused(thread),
            // The slot stays in use only if a request for space to remember it by was refused.
            result is Err ==> final(process).threads().in_use() == old(process).threads().in_use()
                || exists|taken: ThreadIds| #[trigger]
                taken.refused() && taken.in_use() == final(process).threads().in_use()
                    && taken.known() == final(process).threads().known(),
            // A slot that was used before, or for which there is room, is free again.
            forall|thread: int| #[trigger]
                old(process).threads().is_next(thread) && result is Err ==> {
                    &&& thread < old(process).threads().known() ==> final(process).threads().known()
                        == old(process).threads().known() && final(process).threads().room() == old(
                        process,
                    ).threads().room()
                    &&& thread >= old(process).threads().known() ==> final(
                        process
                    ).threads().known() == thread + 1 && final(process).threads().room()
                        == less_one(old(process).threads().room())
                    &&& thread < old(process).threads().known() || old(process).threads().room() > 0
                        ==> final(process).threads().in_use() == old(process).threads().in_use()
                },
    {
        let thread: usize = process.create_thread();
        assert(old(process).threads().is_next(thread as int));
        assert(old(process).threads().in_use().insert(thread as int).remove(thread as int) =~= old(
            process,
        ).threads().in_use());
        assert forall|other: int| #[trigger] old(process).threads().is_next(other) implies other
            == thread by {
            if other < thread {
                assert(old(process).threads().in_use().contains(other));
            }
        }
        let ghost taken = process.threads();
        let room = self.make_room(thread);
        let result = self.enter_owned_with(process, thread, room);
        assert(result is Err && process.threads().in_use() != old(process).threads().in_use()
            ==> taken.refused());
        result
    }

    /// Creates a guard on a thread slot that has been taken for it, once there is room for the slot.
    /// Without room the collector does not change, and the thread slot is given back.
    pub fn enter_owned_with(
        &mut self,
        process: &mut Process,
        thread: usize,
        room: Result<(), AllocError>,
    ) -> (result: Result<OwnedGuard, AllocError>)
        requires
            old(self).wf(),
            room is Ok ==> old(self).has_room(thread as int),
            thread < old(self).state().slots() ==> old(self).state().guards[thread as int]
                < usize::MAX,
            old(process).wf(),
            old(process).threads().in_use().contains(thread as int),
        ensures
            final(self).wf(),
            final(self).same_collector(*old(self)),
            final(self).keeps_reserved(*old(self), -1),
            final(process).wf(),
            final(process).cpus() == old(process).cpus(),
            final(process).next_collector() == old(process).next_collector(),
            final(process).threads().known() == old(process).threads().known(),
            room is Ok ==> {
                &&& result is Ok
                &&& result->Ok_0.slot() == thread
                &&& final(self).holds(&result->Ok_0)
                &&& final(self).state() == old(self).state().enter(thread as int)
                &&& *final(process) == *old(process)
            },
            room matches Err(e) ==> {
                &&& result == Err::<OwnedGuard, AllocError>(e)
                &&& *final(self) == *old(self)
                &&& final(process).threads().in_use() == old(process).threads().in_use().remove(
                    thread as int,
                ) || (final(process).threads().in_use() == old(process).threads().in_use() && old(
                    process,
                ).threads().room() == 0 && old(process).threads().refused())
                &&& final(process).threads().room() == less_one(old(process).threads().room())
            },
    {
        match self.enter_slot_with(thread, room) {
            Ok(guard) => Ok(guard),
            Err(e) => {
                let _ = process.release_thread(thread);
                Err(e)
            },
        }
    }

    /// Gives up an owned guard, and its thread slot. The result says whether the slot could be
    /// remembered as free.
    pub fn leave_owned(&mut self, process: &mut Process, guard: OwnedGuard) -> (recycled: bool)
        requires
            old(self).wf(),
            old(self).holds(&guard),
            old(process).wf(),
            old(process).threads().in_use().contains(guard.slot()),
        ensures
            final(self).wf(),
            final(self).same_collector(*old(self)),
            final(self).keeps_reserved(*old(self), -1),
            final(self).state() == old(self).state().leave(guard.slot()),
            final(process).wf(),
            final(process).cpus() == old(process).cpus(),
            final(process).next_collector() == old(process).next_collector(),
            final(process).threads().in_use() == if recycled {
                old(process).threads().in_use().remove(guard.slot())
            } else {
                old(process).threads().in_use()
            },
            old(process).threads().room() > 0 ==> recycled,
            !recycled ==> old(process).threads().refused(),
            final(process).threads().known() == old(process).threads().known(),
            final(process).threads().room() == less_one(old(process).threads().room()),
    {
        let thread: usize = self.leave_slot(guard);
        process.release_thread(thread)
    }

    /// Reserves space for a single retirement on a thread, so that the next retirement there
    /// cannot fail. Fails, with the state unchanged, if there is no memory for that.
    pub fn reserve_retire(&mut self, thread: usize) -> (result: Result<(), AllocError>)
        requires
            old(self).wf(),
        ensures
            final(self).wf(),
            final(self).same_collector(*old(self)),
            final(self).keeps_reserved(*old(self), -1),
            result is Ok ==> final(self).reserved(thread as int) && final(self).state() == old(
                self,
            ).state().cover(thread as int),
            result is Err ==> final(self).state() == old(self).state(),
            old(self).has_space(thread as int) ==> result is Ok,
            old(self).reserved(thread as int) ==> result is Ok,
            thread == usize::MAX ==> result is Err,
            result is Err ==> old(self).space_refused(thread as int) || (thread == usize::MAX
                && old(self).state().slots() <= thread),
    {
        let space = self.find_space(thread);
        self.reserve_retire_with(thread, space)
    }

    /// Finds a list with space for an object to be retired on a thread, and makes sure that the slot
    /// of the thread can be used. Fails, with the state unchanged, if there is no memory for that.
    pub fn find_space(&mut self, thread: usize) -> (result: Result<usize, AllocError>)
        requires
            old(self).wf(),
        ensures
            final(self).wf(),
            final(self).same_collector(*old(self)),
            final(self).keeps_reserved(*old(self), -1),
            final(self).state() == old(self).state(),
            result matches Ok(list) ==> final(self).can_adopt(thread as int, list as int),
            result is Ok ==> final(self).has_space(thread as int),
            old(self).has_space(thread as int) ==> result is Ok,
            old(self).reserved(thread as int) ==> result is Ok,
            thread == usize::MAX ==> result is Err,
            result is Err ==> old(self).space_refused(thread as int) || (thread == usize::MAX
                && old(self).state().slots() <= thread),
    {
        self.raw.find_space(thread)
    }

    /// Reserves space for a single retirement on a thread once a list with space has been found.
    /// Without one nothing changes.
    pub fn reserve_retire_with(
        &mut self,
        thread: usize,
        space: Result<usize, AllocError>,
    ) -> (result: Result<(), AllocError>)
        requires
            old(self).wf(),
            space matches Ok(list) ==> old(self).can_adopt(thread as int, list as int),
        ensures
            final(self).wf(),
            final(self).same_collector(*old(self)),
            final(self).keeps_reserved(*old(self), -1),
            space is Ok ==> {
                &&& result is Ok
                &&& final(self).reserved(thread as int)
                &&& final(self).state() == old(self).state().cover(thread as int)
            },
            space matches Err(e) ==> result == Err::<(), AllocError>(e) && *final(self) == *old(
                self,
            ),
    {
        self.raw.reserve_with(thread, space)
    }

    /// Retires an object on a thread that has space for it. Nothing is allocated.
    pub fn retire_reserved(&mut self, thread: usize, ptr: usize, reclaim: usize)
        requires
            old(self).wf(),
            old(self).reserved(thread as int),
            ptr != 0,
        ensures
            final(self).wf(),
            final(self).same_collector(*old(self)),
            final(self).keeps_reserved(*old(self), thread as int),
            old(self).batch_id(thread as int) >= 0,
            !old(self).state().batches.contains_key(old(self).batch_id(thread as int)),
            final(self).state() == old(self).state().retire(
                thread as int,
                (Retired { ptr, reclaim }),
                old(self).batch_id(thread as int),
            ),
    {
        self.raw.retire_reserved(thread, Retired { ptr, reclaim })
    }

    /// Retires an object on a thread once space for it has been reserved. Without space nothing
    /// changes, and the object stays the caller's.
    pub fn retire_with(
        &mut self,
        thread: usize,
        ptr: usize,
        reclaim: usize,
        reserved: Result<(), AllocError>,
    ) -> (result: Result<(), AllocError>)
        requires
            old(self).wf(),
            reserved is Ok ==> old(self).reserved(thread as int),
            ptr != 0,
        ensures
            final(self).wf(),
            final(self).same_collector(*old(self)),
            final(self).keeps_reserved(*old(self), thread as int),
            reserved is Ok ==> {
                &&& result is Ok
                &&& old(self).batch_id(thread as int) >= 0
                &&& !old(self).state().batches.contains_key(old(self).batch_id(thread as int))
                &&& final(self).state() == old(self).state().retire(
                    thread as int,
                    (Retired { ptr, reclaim }),
                    old(self).batch_id(thread as int),
                )
            },
            reserved matches Err(e) ==> result == Err::<(), AllocError>(e) && *final(self) == *old(
                self,
            ),
    {
        self.raw.retire_with(thread, Retired { ptr, reclaim }, reserved)
    }

    /// Retires an object on a thread: it is reclaimed when no thread that is active now can hold a
    /// reference to it. Fails, with the state unchanged, if the object could only be retired by
    /// allocating and there is no memory for that; it never fails where space was reserved.
    pub fn retire(&mut self, thread: usize, ptr: usize, reclaim: usize) -> (result: Result<
        (),
        AllocError,
    >)
        requires
            old(self).wf(),
            ptr != 0,
        ensures
            final(self).wf(),
            final(self).same_collector(*old(self)),
            final(self).keeps_reserved(*old(self), thread as int),
            result is Ok ==> old(self).state().retires_to(
                thread as int,
                (Retired { ptr, reclaim }),
                final(self).state(),
            ),
            result is Err ==> final(self).state() == old(self).state(),
            old(self).has_space(thread as int) ==> result is Ok,
            old(self).reserved(thread as int) ==> result is Ok,
            thread == usize::MAX ==> result is Err,
            result is Err ==> old(self).space_refused(thread as int) || (thread == usize::MAX
                && old(self).state().slots() <= thread),
    {
        self.raw.retire(thread, Retired { ptr, reclaim })
    }

    /// Retires an object on the thread slot of a guard.
    pub fn defer_retire<G: Guard>(&mut self, guard: &G, ptr: usize, reclaim: usize) -> (result: Result<
        (),
        AllocError,
    >)
        requires
            old(self).wf(),
            old(self).holds(guard),
            ptr != 0,
        ensures
            final(self).wf(),
            final(self).same_collector(*old(self)),
            final(self).keeps_reserved(*old(self), guard.slot()),
            result is Ok ==> old(self).state().retires_to(
                guard.slot(),
                (Retired { ptr, reclaim }),
                final(self).state(),
            ),
            result is Err ==> final(self).state() == old(self).state(),
            result is Err ==> old(self).space_refused(guard.slot()),
            old(self).has_space(guard.slot()) ==> result is Ok,
            old(self).reserved(guard.slot()) ==> result is Ok,
    {
        self.raw.retire(guard.thread_id(), Retired { ptr, reclaim })
    }

    /// Attempts to hand over what was retired on the thread slot of a guard. Nothing is allocated.
    pub fn flush<G: Guard>(&mut self, guard: &G)
        requires
            old(self).wf(),
            old(self).holds(guard),
        ensures
            final(self).wf(),
            final(self).same_collector(*old(self)),
            final(self).keeps_reserved(*old(self), guard.slot()),
            old(self).batch_id(guard.slot()) >= 0,
            !old(self).state().batches.contains_key(old(self).batch_id(guard.slot())),
            final(self).state() == old(self).state().flush(
                guard.slot(),
                old(self).batch_id(guard.slot()),
            ),
    {
        self.raw.flush(guard.thread_id())
    }

    /// Refreshes a guard: if it is the only one on its thread slot, what waits for the slot waits
    /// no longer, as if the guard had left and entered again.
    pub fn refresh<G: Guard>(&mut self, guard: &G)
        requires
            old(self).wf(),
            old(self).holds(guard),
        ensures
            final(self).wf(),
            final(self).same_collector(*old(self)),
            final(self).keeps_reserved(*old(self), -1),
            final(self).state() == old(self).state().refresh(guard.slot()),
    {
        self.raw.refresh(guard.thread_id())
    }

    /// Makes everything that has been retired, on any thread, ready to be reclaimed. No guard may be
    /// held. What a reclaimer retires while the ready objects are taken out needs another call.
    pub fn reclaim_all(&mut self)
        requires
            old(self).wf(),
            old(self).state().active() == 0,
        ensures
            final(self).wf(),
            final(self).same_collector(*old(self)),
            final(self).state() == old(self).state().reclaim_all(),
            // A thread that has space for an object, and retired none, has it still.
            forall|u: int| #[trigger]
                old(self).reserved(u) && old(self).state().local[u].len() == 0 ==> final(
                    self
                ).reserved(u),
    {
        self.raw.reclaim_all()
    }

    /// Takes out the first object that is ready, for the caller to reclaim.
    pub fn take_ready(&mut self) -> (taken: Option<Retired>)
        requires
            old(self).wf(),
        ensures
            final(self).wf(),
            final(self).same_collector(*old(self)),
            final(self).keeps_reserved(*old(self), -1),
            taken is None <==> old(self).state().ready.len() == 0,
            taken is None ==> final(self).state() == old(self).state(),
            taken matches Some(object) ==> object == old(self).state().ready[0] && final(
                self
            ).state() == old(self).state().take_ready(),
    {
        self.raw.take_ready()
    }

    /// Takes out the next object to be reclaimed, while no guard is held: the first one that is
    /// ready and, if none is, the first of everything that has been retired. With `None` nothing
    /// that has been retired is left. Objects that were retired by the reclaimers of those taken out
    /// before come out too.
    pub fn reclaim_next(&mut self) -> (taken: Option<Retired>)
        requires
            old(self).wf(),
            old(self).state().active() == 0,
        ensures
            final(self).wf(),
            final(self).same_collector(*old(self)),
            ({
                let s = old(self).state().all_ready();
                &&& taken is None <==> s.ready.len() == 0
                &&& taken is None ==> final(self).state() == s
                &&& taken matches Some(object) ==> object == s.ready[0] && final(self).state()
                    == s.take_ready()
            }),
            forall|u: int| #[trigger]
                old(self).reserved(u) && 0 <= u && old(self).state().local[u].len() == 0 ==> final(
                    self
                ).reserved(u),
    {
        match self.take_ready() {
            Some(object) => Some(object),
            None => {
                self.reclaim_all();
                self.take_ready()
            },
        }
    }

    /// The number of guards that are held for a thread.
    pub fn guards(&self, thread: usize) -> (guards: usize)
        requires
            self.wf(),
        ensures
            guards == if thread < self.state().slots() {
                self.state().guards[thread as int]
            } else {
                0
            },
    {
        self.raw.guards(thread)
    }

    /// The number of threads that are active.
    pub fn active(&self) -> (active: usize)
        requires
            self.wf(),
        ensures
            active == self.state().active(),
    {
        self.raw.count_active()
    }

    /// Whether a guard was entered on this collector.
    pub fn entered<G: Guard>(&self, guard: &G) -> (owned: bool)
        ensures
            owned == (guard.owner() == self.id()),
    {
        guard.collector_id() == self.raw.get_id()
    }

    /// What [`describe`](Collector::describe) returns.
    pub open spec fn description(self) -> Seq<char> {
        "Collector { batch_size: "@ + decimal_text(self.state().batch_size) + ", allocator: "@ + (
        if self.custom() {
            "Allocator { .. }"@
        } else {
            "Global"@
        }) + " }"@
    }

    /// The collector as text, for debugging.
    pub fn describe(&self) -> (text: String)
        ensures
            text@ == self.description(),
    {
        let mut text = String::from_str("Collector { batch_size: ");
        append_decimal(&mut text, self.raw.get_batch_size());
        text.append(", allocator: ");
        text.append(self.allocator().describe());
        text.append(" }");
        text
    }
}

impl<'a> PartialEq for Collector<'a> {
    /// Whether both are the same collector.
    fn eq(&self, other: &Self) -> (equal: bool) {
        self.raw.get_id() == other.raw.get_id()
    }
}

impl<'a> vstd::std_specs::cmp::PartialEqSpecImpl for Collector<'a> {
    open spec fn obeys_eq_spec() -> bool {
        true
    }

    open spec fn eq_spec(&self, other: &Self) -> bool {
        self.id() == other.id()
    }
}

impl<'a> Eq for Collector<'a> {

}

/// A new collector has the identity that was next, a slot for each processor, the default batch size, no
/// guard, and nothing that was retired. Nothing else of the process changes than the next identity.
pub proof fn law_a_new_collector_is_empty<'a>(
    collector: Collector<'a>,
    before: Process,
    after: Process,
)
    requires
        collector.is_new(before, after),
    ensures
        collector.id() == before.next_collector(),
        after.next_collector() == before.next_collector() + 1,
        after.cpus() == before.cpus(),
        after.threads() == before.threads(),
        collector.state().batch_size == 32,
        collector.state().guards.len() == before.cpus(),
        collector.state().local.len() == before.cpus(),
        collector.state().waiting.len() == before.cpus(),
        forall|u: int|
            0 <= u < before.cpus() ==> {
                &&& #[trigger] collector.state().guards[u] == 0
                &&& collector.state().local[u].len() == 0
                &&& collector.state().waiting[u].len() == 0
            },
        collector.state().batches.dom() == Set::<int>::empty(),
        collector.state().ready.len() == 0,
{
    assert(after.issued(collector.id()));
}

/// Whatever leaves a collector the same leaves it its identity and its allocator, and collectors are
/// equal exactly if they have the same identity.
pub proof fn law_the_same_collector<'a>(one: Collector<'a>, other: Collector<'a>)
    ensures
        one.same_collector(other) ==> one.id() == other.id() && one.custom() == other.custom()
            && one.home() == other.home(),
        one.eq_spec(&other) <==> one.id() == other.id(),
{
}

/// Keeping reservations is keeping each: whatever thread but `t` had space for an object has it still.
pub proof fn law_reservations_are_kept<'a>(
    one: Collector<'a>,
    other: Collector<'a>,
    t: int,
    u: int,
)
    requires
        one.keeps_reserved(other, t),
        other.reserved(u),
        u != t,
    ensures
        one.reserved(u),
{
}

/// A guard that a collector counts was entered on it, on a slot that is there and has a guard.
pub proof fn law_a_held_guard_is_counted<'a, G: Guard>(collector: Collector<'a>, guard: &G)
    ensures
        collector.holds(guard) <==> guard.owner() == collector.id() && 0 <= guard.slot()
            < collector.state().guards.len() && collector.state().guards[guard.slot()] > 0,
{
}

/// The description of a collector shows its batch size, in decimal, and its allocator.
pub proof fn law_description_shows_the_batch_size<'a>(collector: Collector<'a>)
    ensures
        exists|digits: Seq<char>|
            is_decimal(digits) && #[trigger] value_of(digits) == collector.state().batch_size
                && collector.description() == "Collector { batch_size: "@ + digits
                + ", allocator: "@ + (if collector.custom() {
                "Allocator { .. }"@
            } else {
                "Global"@
            }) + " }"@,
{
    law_decimal_reads_back(collector.state().batch_size);
    assert(is_decimal(decimal_text(collector.state().batch_size)));
}

} // verus!
