//! Mutual exclusion that the host provides.
//!
//! Blocking a thread is a service of the operating system, and there may be none. The host
//! registers a lock of its own once, at startup, and every critical section goes through it. If
//! nothing has been registered by the time the first section is entered, sections spin instead,
//! and registration is refused from then on: honoring it would split the world between threads
//! that spin and threads that block.
//!
//! Where there is an operating system, sections go through its locks and nothing is decided: a
//! registration is accepted, and has no effect.
//!
//! A [`Registry`] is what has been decided so far. Its two words, the published lock and the
//! latched mode, are each changed by a single exchange: [`publish`](Registry::publish) and
//! [`latch`](Registry::latch). The steps of different threads may come in any order.
use vstd::prelude::*;

verus! {

/// How critical sections are entered.
#[derive(Clone, Copy, Debug, PartialEq, Eq, Structural)]
pub enum Mode {
    /// No section has been entered and no lock has been registered.
    Unset,
    /// Every section goes through the registered lock.
    Host,
    /// Every section spins.
    Spin,
}

/// What is to be done to enter a section.
#[derive(Clone, Copy, Debug, PartialEq, Eq)]
pub enum Acquire<L> {
    /// Wait for the lock of the operating system.
    System,
    /// Call the host's lock with the key of the section; it returns inside the section.
    Host(L),
    /// The section has been entered.
    Entered,
    /// The section is held; try again.
    Busy,
}

/// What is to be done to leave a section.
#[derive(Clone, Copy, Debug, PartialEq, Eq)]
pub enum Release<L> {
    /// Give up the lock of the operating system.
    System,
    /// Call the host's lock with the key of the section.
    Host(L),
    /// The section has been left.
    Left,
}

/// The lock that was registered, if any, and the mode, once it is latched.
pub struct Registry<L> {
    system: bool,
    mode: Mode,
    lock: Option<L>,
}

/// The state of a registry.
pub struct Decided<L> {
    /// There is an operating system, whose locks are used.
    pub system: bool,
    /// The mode that is in force.
    pub mode: Mode,
    /// The lock that has been published.
    pub lock: Option<L>,
}

impl<L> Decided<L> {
    /// Nothing has been decided.
    pub open spec fn nothing(system: bool) -> Decided<L> {
        Decided { system, mode: Mode::Unset, lock: None }
    }

    /// The mode is that of the host's lock only if there is one. With an operating system, no section
    /// spins.
    pub open spec fn sound(self) -> bool {
        &&& self.mode == Mode::Host ==> self.lock is Some
        &&& self.system ==> self.mode != Mode::Spin
    }

    /// After a section is to be entered, which decides the mode if nothing has and if it matters.
    pub open spec fn consulted(self) -> Decided<L> {
        if self.system {
            self
        } else {
            self.latch(Mode::Spin)
        }
    }

    /// After an attempt to publish a lock, which succeeds if none has been published.
    pub open spec fn publish(self, lock: L) -> Decided<L> {
        if self.lock is None {
            Decided { lock: Some(lock), ..self }
        } else {
            self
        }
    }

    /// After an attempt to latch a mode, which succeeds if none has been latched.
    pub open spec fn latch(self, mode: Mode) -> Decided<L> {
        if self.mode == Mode::Unset {
            Decided { mode, ..self }
        } else {
            self
        }
    }

    /// A lock that is registered now will be used.
    pub open spec fn accepts(self) -> bool {
        self.lock is None && self.mode == Mode::Unset
    }

    /// What comes of an attempt to enter a section, once a mode is in force.
    pub open spec fn attempt(self, held: bool) -> Acquire<L> {
        match self {
            Decided { system: true, .. } => Acquire::System,
            Decided { mode: Mode::Host, lock: Some(lock), .. } => Acquire::Host(lock),
            _ => if held {
                Acquire::Busy
            } else {
                Acquire::Entered
            },
        }
    }

    /// What is to be done to leave a section.
    pub open spec fn leaving(self) -> Release<L> {
        match self {
            Decided { system: true, .. } => Release::System,
            Decided { mode: Mode::Host, lock: Some(lock), .. } => Release::Host(lock),
            _ => Release::Left,
        }
    }

    /// After an attempt to register a lock: it is published and, if that succeeds, the mode of the
    /// host's lock is latched.
    pub open spec fn register(self, lock: L) -> Decided<L> {
        if self.lock is None {
            self.publish(lock).latch(Mode::Host)
        } else {
            self
        }
    }
}

impl<L: Copy> Default for Registry<L> {
    /// Nothing has been decided, and there is no operating system.
    fn default() -> (registry: Registry<L>)
        ensures
            registry.wf(),
            registry.decided() == Decided::<L>::nothing(false),
    {
        Registry::new()
    }
}

impl<L: Copy> Registry<L> {
    /// What has been decided.
    pub closed spec fn decided(self) -> Decided<L> {
        Decided { system: self.system, mode: self.mode, lock: self.lock }
    }

    /// The registry is well-formed.
    pub open spec fn wf(self) -> bool {
        self.decided().sound()
    }

    /// Nothing has been decided, and there is no operating system.
    pub fn new() -> (registry: Registry<L>)
        ensures
            registry.wf(),
            registry.decided() == Decided::<L>::nothing(false),
    {
        Registry { system: false, mode: Mode::Unset, lock: None }
    }

    /// Nothing has been decided, and there is an operating system, whose locks are used.
    pub fn with_system() -> (registry: Registry<L>)
        ensures
            registry.wf(),
            registry.decided() == Decided::<L>::nothing(true),
    {
        Registry { system: true, mode: Mode::Unset, lock: None }
    }

    /// Publishes a lock unless one has been published, and says whether it did.
    pub fn publish(&mut self, lock: L) -> (published: bool)
        requires
            old(self).wf(),
        ensures
            final(self).wf(),
            published == (old(self).decided().lock is None),
            final(self).decided() == old(self).decided().publish(lock),
    {
        match self.lock {
            Some(_) => false,
            None => {
                self.lock = Some(lock);
                true
            },
        }
    }

    /// Latches a mode unless one has been latched, and returns the one that is in force. The mode
    /// of the host's lock can be latched once a lock has been published.
    pub fn latch(&mut self, mode: Mode) -> (in_force: Mode)
        requires
            old(self).wf(),
            mode == Mode::Host ==> old(self).decided().lock is Some,
            mode == Mode::Spin ==> !old(self).decided().system,
        ensures
            final(self).wf(),
            final(self).decided() == old(self).decided().latch(mode),
            in_force == final(self).decided().mode,
    {
        if self.mode == Mode::Unset {
            self.mode = mode;
        }
        self.mode
    }

    /// Registers the lock that every critical section is to go through. Returns whether it is now
    /// in use. A second registration is refused and keeps the first; one that comes after the
    /// first section was entered without a lock is refused too.
    pub fn register(&mut self, lock: L) -> (accepted: bool)
        requires
            old(self).wf(),
        ensures
            final(self).wf(),
            accepted == old(self).decided().accepts(),
            final(self).decided() == old(self).decided().register(lock),
    {
        // The lock is published before the mode is latched, so that whoever sees the mode sees
        // the lock.
        if !self.publish(lock) {
            return false;
        }
        let before: Mode = self.mode;
        let _ = self.latch(Mode::Host);
        before == Mode::Unset
    }

    /// The mode, which is decided if this is the first use. It matters only without an operating
    /// system.
    pub fn mode(&mut self) -> (mode: Mode)
        requires
            old(self).wf(),
            !old(self).decided().system,
        ensures
            final(self).wf(),
            final(self).decided() == old(self).decided().latch(Mode::Spin),
            mode == final(self).decided().mode,
            mode != Mode::Unset,
    {
        if self.mode != Mode::Unset {
            return self.mode;
        }
        self.latch(Mode::Spin)
    }

    /// Attempts to enter the critical section whose word is `held`.
    pub fn acquire(&mut self, held: &mut bool) -> (action: Acquire<L>)
        requires
            old(self).wf(),
        ensures
            final(self).wf(),
            final(self).decided() == old(self).decided().consulted(),
            action == final(self).decided().attempt(*old(held)),
            *final(held) == (*old(held) || action == Acquire::<L>::Entered),
    {
        if self.system {
            return Acquire::System;
        }
        if self.mode() == Mode::Host {
            match self.lock {
                Some(lock) => {
                    return Acquire::Host(lock);
                },
                None => {},
            }
        }
        let before: bool = *held;
        *held = true;
        if before {
            Acquire::Busy
        } else {
            Acquire::Entered
        }
    }

    /// Leaves the critical section whose word is `held`.
    pub fn release(&self, held: &mut bool) -> (action: Release<L>)
        requires
            self.wf(),
        ensures
            action == self.decided().leaving(),
            *final(held) == (*old(held) && action != Release::<L>::Left),
    {
        if self.system {
            return Release::System;
        }
        if self.mode == Mode::Host {
            match self.lock {
                Some(lock) => {
                    return Release::Host(lock);
                },
                None => {},
            }
        }
        *held = false;
        Release::Left
    }
}

/// Whatever steps threads take, in whatever order: a mode that has been latched stays, a lock that
/// has been published stays, and whoever sees the mode of the host's lock sees a lock.
pub proof fn law_decisions_are_final<L>(s: Decided<L>, lock: L, mode: Mode)
    requires
        s.sound(),
        mode == Mode::Host ==> s.lock is Some,
        mode == Mode::Spin ==> !s.system,
    ensures
        s.publish(lock).sound(),
        s.latch(mode).sound(),
        s.consulted().sound(),
        s.publish(lock).mode == s.mode,
        s.latch(mode).lock == s.lock,
        s.mode != Mode::Unset ==> s.latch(mode).mode == s.mode,
        s.lock is Some ==> s.publish(lock).lock == s.lock,
{
}

/// The first registration on a registry that nothing has been done with is accepted, with or without
/// an operating system.
pub proof fn law_first_registration_is_accepted<L>(system: bool, lock: L)
    ensures
        Decided::<L>::nothing(system).sound(),
        Decided::<L>::nothing(system).accepts(),
        Decided::<L>::nothing(system).register(lock) == (Decided {
            system,
            mode: Mode::Host,
            lock: Some(lock),
        }),
{
}

/// With an operating system, registration succeeds and has no effect: entering sections decides
/// nothing, so the first registration is accepted however many were entered, and every section goes
/// through the system's lock, before and after, and never through the one that was registered.
pub proof fn law_registration_with_a_system_has_no_effect<L>(s: Decided<L>, lock: L, held: bool)
    requires
        s.sound(),
        s.system,
    ensures
        s.consulted() == s,
        s.lock is None ==> s.accepts(),
        s.attempt(held) == Acquire::<L>::System,
        s.leaving() == Release::<L>::System,
        s.register(lock).system,
        s.register(lock).sound(),
        s.register(lock).consulted() == s.register(lock),
        s.register(lock).attempt(held) == Acquire::<L>::System,
        s.register(lock).leaving() == Release::<L>::System,
{
}

/// The first registration wins: once a lock has been accepted, no section decides otherwise, and every
/// further registration is refused and changes nothing.
pub proof fn law_first_registration_wins<L>(s: Decided<L>, first: L, second: L)
    requires
        s.sound(),
        s.accepts(),
    ensures
        s.register(first) == (Decided { mode: Mode::Host, lock: Some(first), ..s }),
        s.register(first).consulted() == s.register(first),
        !s.register(first).accepts(),
        s.register(first).register(second) == s.register(first),
{
}

/// Late registration is refused: once a section has been entered without a lock and without an
/// operating system, no registration is accepted, and every section spins.
pub proof fn law_late_registration_is_refused<L>(s: Decided<L>, late: L, other: L)
    requires
        s.sound(),
        !s.system,
        s.mode == Mode::Unset,
    ensures
        s.consulted() == s.latch(Mode::Spin),
        s.latch(Mode::Spin).mode == Mode::Spin,
        !s.latch(Mode::Spin).accepts(),
        s.latch(Mode::Spin).register(late).mode == Mode::Spin,
        !s.latch(Mode::Spin).register(late).accepts(),
        s.latch(Mode::Spin).register(late).register(other).mode == Mode::Spin,
{
}

/// A registration whose two steps are interrupted by the first entry of a section is refused, and
/// the section spins.
pub proof fn law_interrupted_registration_is_refused<L>(s: Decided<L>, lock: L)
    requires
        s.accepts(),
        !s.system,
    ensures
        s.publish(lock).consulted().latch(Mode::Host).mode == Mode::Spin,
        !s.publish(lock).consulted().accepts(),
{
}

/// A section is never entered by spinning while it is held, and always goes through the host's lock
/// if one was accepted and there is no operating system.
pub proof fn law_sections_exclude<L>(s: Decided<L>, lock: L, held: bool)
    requires
        s.sound(),
        !s.system,
    ensures
        s.mode == Mode::Spin ==> (s.attempt(held) == Acquire::<L>::Entered <==> !held),
        s.mode == Mode::Spin ==> s.attempt(true) == Acquire::<L>::Busy,
        s.mode == Mode::Spin ==> s.leaving() == Release::<L>::Left,
        s.accepts() ==> s.register(lock).attempt(held) == Acquire::Host(lock),
        s.accepts() ==> s.register(lock).leaving() == Release::Host(lock),
{
}

/// A section is left in the way it was entered, whatever has been decided in between: through the
/// lock that it was entered through, or by freeing its word.
pub proof fn law_left_as_entered<L>(s: Decided<L>, later: Decided<L>, held: bool)
    requires
        s.sound(),
        s.consulted() == s,
        later.sound(),
        later.system == s.system,
        s.mode != Mode::Unset ==> later.mode == s.mode,
        s.lock is Some ==> later.lock == s.lock,
    ensures
        s.attempt(held) matches Acquire::Host(lock) ==> later.leaving() == Release::Host(lock),
        s.attempt(held) == Acquire::<L>::Entered ==> later.leaving() == Release::<L>::Left,
        s.attempt(held) == Acquire::<L>::System ==> later.leaving() == Release::<L>::System,
{
}

/// A registration is accepted exactly if nothing has been decided. Then the lock is in force. Else what
/// was decided stays: the mode that is in force, and the lock that was published first.
pub proof fn law_registration_outcomes<L>(s: Decided<L>, lock: L)
    requires
        s.sound(),
    ensures
        s.accepts() <==> s == Decided::<L>::nothing(s.system),
        s.register(lock).system == s.system,
        s.accepts() ==> s.register(lock).mode == Mode::Host && s.register(lock).lock == Some(lock),
        s.mode != Mode::Unset ==> s.register(lock).mode == s.mode,
        s.lock is Some ==> s.register(lock) == s,
        s.lock is None ==> s.register(lock).lock == Some(lock),
        s.publish(lock).lock == if s.lock is None {
            Some(lock)
        } else {
            s.lock
        },
        s.publish(lock).system == s.system,
        s.publish(lock).mode == s.mode,
        !s.system ==> s.consulted().mode != Mode::Unset,
        s.consulted().lock == s.lock,
        s.mode != Mode::Unset ==> s.consulted() == s,
        !s.system && s.mode == Mode::Unset ==> s.consulted().mode == Mode::Spin,
        s.consulted().system == s.system,
{
}

/// A mode is latched exactly if none was, and nothing else changes.
pub proof fn law_latching_outcomes<L>(s: Decided<L>, mode: Mode)
    ensures
        s.mode == Mode::Unset ==> s.latch(mode).mode == mode,
        s.mode != Mode::Unset ==> s.latch(mode).mode == s.mode,
        s.latch(mode).lock == s.lock,
        s.latch(mode).system == s.system,
{
}

/// How a section is entered and left follows from what was decided: through the system's lock if there
/// is one, else through the host's lock if its mode is in force, else through the word of the section,
/// which is taken only if no one holds it.
pub proof fn law_sections_follow_the_decision<L>(s: Decided<L>, held: bool)
    requires
        s.sound(),
    ensures
        s.system <==> s.attempt(held) == Acquire::<L>::System,
        s.system <==> s.leaving() == Release::<L>::System,
        !s.system && s.mode == Mode::Host <==> s.attempt(held) is Host,
        !s.system && s.mode == Mode::Host <==> s.leaving() is Host,
        s.attempt(held) matches Acquire::Host(lock) ==> s.lock == Some(lock),
        s.leaving() matches Release::Host(lock) ==> s.lock == Some(lock),
        s.attempt(held) == Acquire::<L>::Entered <==> !s.system && s.mode != Mode::Host && !held,
        s.attempt(held) == Acquire::<L>::Busy <==> !s.system && s.mode != Mode::Host && held,
        s.leaving() == Release::<L>::Left <==> !s.system && s.mode != Mode::Host,
{
}

} // verus!
