//! Exclusive access to a value that threads share.
use vstd::prelude::*;

use crate::collector::Collector;
use crate::freestanding::futex::FutexLock;
use crate::lock::Mode;
use crate::lock::Registry;
use crate::process::Process;

verus! {

/// What holds of a value whenever no one has exclusive access to it.
pub trait Invariant: Sized {
    /// The value may be shared.
    spec fn inv(&self) -> bool;

    /// The value may have come of another that was shared before, by whatever was done to it since.
    spec fn follows(&self, first: &Self) -> bool;

    /// A value that nothing was done to is what it was.
    proof fn lemma_follows(&self)
        ensures
            self.follows(self),
    ;
}

/// A value that there is by default, and that may be shared.
pub trait Initial: Invariant + Default {
    /// The default value may be shared.
    proof fn lemma_default(value: Self)
        requires
            call_ensures(Self::default, (), value),
        ensures
            value.inv(),
    ;
}

/// The values that a mutex may hold are those that may be shared and may have come of the first.
pub struct Sharable<T> {
    /// The value that the mutex was made with.
    pub first: T,
}

impl<T: Invariant> vstd::rwlock::RwLockPredicate<T> for Sharable<T> {
    open spec fn inv(self, value: T) -> bool {
        value.inv() && value.follows(&self.first)
    }
}

/// A mutual exclusion primitive: a region of memory, and the word that says who may use it.
///
/// Access is waited for by spinning. A host that has a lock of its own takes that lock first, so
/// that the word is never contended: see [`lock`](crate::lock).
pub struct Mutex<T: Invariant> {
    cell: vstd::rwlock::RwLock<T, Sharable<T>>,
}

/// Exclusive access to the value of a mutex, until it is given back with
/// [`unlock`](MutexGuard::unlock). The value may be shared again by then.
pub struct MutexGuard<'a, T: Invariant> {
    value: T,
    handle: vstd::rwlock::WriteHandle<'a, T, Sharable<T>>,
}

impl<T: Invariant> Mutex<T> {
    /// The value that the mutex was made with.
    pub closed spec fn first(self) -> T {
        self.cell.pred().first
    }

    /// The values that the mutex may hold.
    pub open spec fn admits(self, value: T) -> bool {
        value.inv() && value.follows(&self.first())
    }

    /// The mutex was made by putting a value in it.
    pub closed spec fn made_with(self, value: T) -> bool {
        exists|first: Ghost<Sharable<T>>| #[trigger]
            call_ensures(vstd::rwlock::RwLock::<T, Sharable<T>>::new, (value, first), self.cell)
    }

    /// The value is what was left in the mutex.
    pub closed spec fn left(self, value: T) -> bool {
        call_ensures(vstd::rwlock::RwLock::<T, Sharable<T>>::into_inner, (self.cell,), value)
    }

    /// Putting a value in a mutex, and taking what was left out of it, is putting it in the cell and
    /// taking it out.
    proof fn law_the_cell_holds_the_value(self, value: T)
        ensures
            self.made_with(value) ==> exists|first: Ghost<Sharable<T>>| #[trigger]
                call_ensures(
                    vstd::rwlock::RwLock::<T, Sharable<T>>::new,
                    (value, first),
                    self.cell,
                ),
            self.left(value) ==> call_ensures(
                vstd::rwlock::RwLock::<T, Sharable<T>>::into_inner,
                (self.cell,),
                value,
            ),
    {
    }

    /// A mutex that holds a value. Whoever has access to it finds that value, or one that has come
    /// of it.
    pub fn new(value: T) -> (mutex: Mutex<T>)
        requires
            value.inv(),
        ensures
            mutex.first() == value,
            mutex.admits(value),
            mutex.made_with(value),
    {
        proof {
            value.lemma_follows();
        }
        let first: Ghost<Sharable<T>> = Ghost(Sharable { first: value });
        let cell = vstd::rwlock::RwLock::new(value, first);
        let mutex = Mutex { cell };
        assert(call_ensures(
            vstd::rwlock::RwLock::<T, Sharable<T>>::new,
            (value, first),
            mutex.cell,
        ));
        mutex
    }

    /// Waits for exclusive access to the value, which is the one that was last given back. The
    /// contract says of it what holds of every value that the mutex may hold, not which one it is.
    pub fn lock(&self) -> (guard: MutexGuard<'_, T>)
        ensures
            guard.mutex() == *self,
            self.admits(guard.value()),
            guard.obtained(),
    {
        let (value, handle) = self.cell.acquire_write();
        MutexGuard { value, handle }
    }

    /// Takes the value out of a mutex that is no longer shared.
    pub fn into_inner(self) -> (value: T)
        ensures
            self.admits(value),
            self.left(value),
    {
        self.cell.into_inner()
    }
}

impl<'a, T: Invariant> MutexGuard<'a, T> {
    /// The mutex whose value this is access to.
    pub closed spec fn mutex(self) -> Mutex<T> {
        Mutex { cell: self.handle.rwlock() }
    }

    /// The value.
    pub closed spec fn value(self) -> T {
        self.value
    }

    /// The value is the one that the access was obtained with.
    pub closed spec fn obtained(self) -> bool {
        call_ensures(
            vstd::rwlock::RwLock::<T, Sharable<T>>::acquire_write,
            (&self.handle.rwlock(),),
            (self.value, self.handle),
        )
    }

    /// The access is given up, and the value is left behind.
    pub closed spec fn given_up(self) -> bool {
        call_ensures(
            vstd::rwlock::WriteHandle::<'a, T, Sharable<T>>::release_write,
            (self.handle, self.value),
            (),
        )
    }

    /// Access is obtained and given up by taking and releasing the cell, with the value.
    proof fn law_access_is_to_the_cell(self)
        ensures
            self.obtained() ==> call_ensures(
                vstd::rwlock::RwLock::<T, Sharable<T>>::acquire_write,
                (&self.handle.rwlock(),),
                (self.value, self.handle),
            ),
            self.given_up() ==> call_ensures(
                vstd::rwlock::WriteHandle::<'a, T, Sharable<T>>::release_write,
                (self.handle, self.value),
                (),
            ),
    {
    }

    /// The value, to be read.
    pub fn deref(&self) -> (value: &T)
        ensures
            *value == self.value(),
    {
        &self.value
    }

    /// The value, to be changed.
    pub fn deref_mut(&mut self) -> (value: &mut T)
        ensures
            *value == old(self).value(),
            final(self).value() == *final(value),
            final(self).mutex() == old(self).mutex(),
    {
        &mut self.value
    }

    /// Gives the access up. What the value is now is what the next one finds.
    pub fn unlock(self)
        requires
            self.mutex().admits(self.value()),
        ensures
            self.given_up(),
    {
        self.handle.release_write(self.value);
    }
}

impl<T: Initial> Default for Mutex<T> {
    /// A mutex that holds the default value.
    fn default() -> (mutex: Mutex<T>)
        ensures
            call_ensures(T::default, (), mutex.first()),
            mutex.admits(mutex.first()),
            mutex.made_with(mutex.first()),
    {
        let value = T::default();
        proof {
            T::lemma_default(value);
        }
        Mutex::new(value)
    }
}

impl Initial for u64 {
    proof fn lemma_default(value: Self) {
    }
}

impl Initial for FutexLock {
    proof fn lemma_default(value: Self) {
    }
}

impl<L: Copy> Initial for Registry<L> {
    proof fn lemma_default(value: Self) {
    }
}

impl Invariant for u64 {
    open spec fn inv(&self) -> bool {
        true
    }

    open spec fn follows(&self, first: &Self) -> bool {
        true
    }

    proof fn lemma_follows(&self) {
    }
}

impl Invariant for Process {
    open spec fn inv(&self) -> bool {
        self.wf()
    }

    /// The machine is the same, and identities that have been issued stay so.
    open spec fn follows(&self, first: &Self) -> bool {
        &&& self.cpus() == first.cpus()
        &&& first.next_collector() <= self.next_collector()
    }

    proof fn lemma_follows(&self) {
    }
}

impl Invariant for FutexLock {
    open spec fn inv(&self) -> bool {
        true
    }

    open spec fn follows(&self, first: &Self) -> bool {
        true
    }

    proof fn lemma_follows(&self) {
    }
}

impl<'a> Invariant for Collector<'a> {
    open spec fn inv(&self) -> bool {
        self.wf()
    }

    /// It is the same collector.
    open spec fn follows(&self, first: &Self) -> bool {
        self.same_collector(*first)
    }

    proof fn lemma_follows(&self) {
    }
}

impl<L: Copy> Invariant for Registry<L> {
    open spec fn inv(&self) -> bool {
        self.wf()
    }

    /// What has been decided stays so.
    open spec fn follows(&self, first: &Self) -> bool {
        &&& self.decided().system == first.decided().system
        &&& first.decided().mode != Mode::Unset ==> self.decided().mode == first.decided().mode
        &&& first.decided().lock is Some ==> self.decided().lock == first.decided().lock
    }

    proof fn lemma_follows(&self) {
    }
}

/// What a mutex holds is what it was made with, or has come of it: a shared collector is the same
/// collector in the same memory, a shared process runs on the same machine and takes no identity back,
/// and a shared registry keeps what it has decided.
pub proof fn law_shared_values_stay_themselves<'a, L: Copy>(
    collector: Mutex<Collector<'a>>,
    found: Collector<'a>,
    process: Mutex<Process>,
    later: Process,
    registry: Mutex<Registry<L>>,
    decided: Registry<L>,
)
    ensures
        collector.admits(found) ==> {
            &&& found.wf()
            &&& found.id() == collector.first().id()
            &&& found.custom() == collector.first().custom()
            &&& found.home() == collector.first().home()
        },
        process.admits(later) ==> {
            &&& later.wf()
            &&& later.cpus() == process.first().cpus()
            &&& later.next_collector() >= process.first().next_collector()
        },
        registry.admits(decided) ==> {
            &&& decided.decided().sound()
            &&& decided.decided().system == registry.first().decided().system
            &&& registry.first().decided().mode != Mode::Unset ==> decided.decided().mode
                == registry.first().decided().mode
            &&& registry.first().decided().lock is Some ==> decided.decided().lock
                == registry.first().decided().lock
        },
{
}

} // verus!
