//! The lock of a host that can put threads to sleep on a word.
//!
//! There is one word for all sections. Sleeping and waking are up to the system: a thread that
//! could not take the word sleeps while the word is [`HELD`] and tries again, and a release always
//! wakes one thread, since waiters are not tracked.
use vstd::prelude::*;

verus! {

/// The word is free.
pub const FREE: u32 = 0;

/// The word is held.
pub const HELD: u32 = 1;

/// How many sleeping threads a release wakes.
pub const WAKE: u32 = 1;

/// One more, where the number after the largest is zero.
pub open spec fn one_more(count: usize) -> usize {
    if count == usize::MAX {
        0
    } else {
        (count + 1) as usize
    }
}

/// The lock, and how often it was used.
pub struct FutexLock {
    word: u32,
    acquires: usize,
    wakes: usize,
}

impl Default for FutexLock {
    /// A lock that was never used.
    fn default() -> (lock: FutexLock)
        ensures
            lock.word() == FREE,
            lock.acquires() == 0,
            lock.wakes() == 0,
    {
        FutexLock::new()
    }
}

impl FutexLock {
    /// The word.
    pub closed spec fn word(self) -> u32 {
        self.word
    }

    /// How often a section was to be entered.
    pub closed spec fn acquires(self) -> usize {
        self.acquires
    }

    /// How often a thread was woken.
    pub closed spec fn wakes(self) -> usize {
        self.wakes
    }

    /// A lock that was never used.
    pub fn new() -> (lock: FutexLock)
        ensures
            lock.word() == FREE,
            lock.acquires() == 0,
            lock.wakes() == 0,
    {
        FutexLock { word: FREE, acquires: 0, wakes: 0 }
    }

    /// A section is to be entered.
    pub fn begin(&mut self)
        ensures
            final(self).word() == old(self).word(),
            final(self).acquires() == one_more(old(self).acquires()),
            final(self).wakes() == old(self).wakes(),
    {
        self.acquires = self.acquires.wrapping_add(1);
    }

    /// Takes the word if it is free, and says whether it was. A thread for which it was not sleeps
    /// while the word is held.
    pub fn try_acquire(&mut self) -> (taken: bool)
        ensures
            taken == (old(self).word() == FREE),
            final(self).word() == if taken {
                HELD
            } else {
                old(self).word()
            },
            final(self).acquires() == old(self).acquires(),
            final(self).wakes() == old(self).wakes(),
    {
        if self.word == FREE {
            self.word = HELD;
            true
        } else {
            false
        }
    }

    /// Frees the word, and says how many sleeping threads to wake.
    pub fn release(&mut self) -> (wake: u32)
        ensures
            wake == WAKE,
            final(self).word() == FREE,
            final(self).acquires() == old(self).acquires(),
            final(self).wakes() == old(self).wakes(),
    {
        self.word = FREE;
        WAKE
    }

    /// The system has been asked to wake, and did or failed.
    pub fn woken(&mut self, done: bool)
        ensures
            final(self).word() == old(self).word(),
            final(self).acquires() == old(self).acquires(),
            final(self).wakes() == if done {
                one_more(old(self).wakes())
            } else {
                old(self).wakes()
            },
    {
        if done {
            self.wakes = self.wakes.wrapping_add(1);
        }
    }

    /// How often a section was to be entered, and how often a thread was woken.
    pub fn usage(&self) -> (usage: (usize, usize))
        ensures
            usage == (self.acquires(), self.wakes()),
    {
        (self.acquires, self.wakes)
    }
}

/// Counting goes up by one, and starts again at zero after the largest number.
pub proof fn law_one_more(count: usize)
    ensures
        count < usize::MAX ==> one_more(count) == count + 1,
        one_more(usize::MAX) == 0,
{
}

/// A free word is zero and a held one is one, as the system expects to find them, and a release wakes a
/// single thread.
pub proof fn law_words()
    ensures
        FREE == 0,
        HELD == 1,
        WAKE == 1,
{
}

} // verus!
