//! The identifiers of thread slots.
use vstd::prelude::*;

use std::collections::TryReserveError;

verus! {

/// The identifiers that are in use, process-wide.
///
/// An identifier is the index of a slot in every collector, so the smallest one that is free is
/// always taken first. That keeps the slots of a collector dense.
pub struct ThreadIds {
    next: usize,
    free: Vec<usize>,
    reserved: usize,
}

impl ThreadIds {
    /// The identifiers that are in use.
    pub closed spec fn in_use(self) -> Set<int> {
        Set::new(|id: int| 0 <= id < self.next && !self.free@.contains(id as usize))
    }

    /// How many identifiers have ever been in use.
    pub closed spec fn known(self) -> nat {
        self.next as nat
    }

    /// How many identifiers can be given back before memory is needed to remember that they are
    /// free.
    pub closed spec fn room(self) -> nat {
        (self.reserved - self.free@.len()) as nat
    }

    /// A request for space for one more free identifier, beside those that are free, has been refused.
    pub open spec fn refused(self) -> bool {
        exists|free: &mut Vec<usize>, e: TryReserveError|
            (forall|id: usize| #[trigger]
                free@.contains(id) <==> id < self.known() && !self.in_use().contains(id as int))
                && #[trigger] call_ensures(
                Vec::<usize>::try_reserve,
                (free, 1usize),
                Err::<(), TryReserveError>(e),
            )
    }

    /// Free identifiers have been in use before, and each is free once. There is space for them.
    pub closed spec fn wf(self) -> bool {
        &&& self.free@.len() <= self.reserved
        &&& self.free@.no_duplicates()
        &&& forall|i: int| 0 <= i < self.free@.len() ==> #[trigger] self.free@[i] < self.next
    }

    /// Some identifier is not in use.
    pub open spec fn available(self) -> bool {
        exists|id: int| 0 <= id < usize::MAX && !self.in_use().contains(id)
    }

    /// The smallest identifier that is not in use.
    pub open spec fn is_next(self, id: int) -> bool {
        &&& 0 <= id
        &&& !self.in_use().contains(id)
        &&& forall|smaller: int| 0 <= smaller < id ==> #[trigger] self.in_use().contains(smaller)
    }

    /// No identifier is in use.
    pub fn new() -> (ids: ThreadIds)
        ensures
            ids.wf(),
            ids.in_use() == Set::<int>::empty(),
            ids.known() == 0,
            ids.room() == 0,
    {
        let ids = ThreadIds { next: 0, free: Vec::new(), reserved: 0 };
        assert(ids.in_use() =~= Set::<int>::empty());
        ids
    }

    /// Whether some identifier is not in use.
    pub fn has_available(&self) -> (available: bool)
        requires
            self.wf(),
        ensures
            available == self.available(),
    {
        proof {
            if self.free@.len() > 0 {
                assert(self.free@.contains(self.free@[0]));
                assert(!self.in_use().contains(self.free@[0] as int));
            } else if self.next < usize::MAX {
                assert(!self.in_use().contains(self.next as int));
            }
        }
        self.free.len() > 0 || self.next < usize::MAX
    }

    /// Where the smallest of the free identifiers is.
    fn smallest(&self) -> (at: usize)
        requires
            self.free@.len() > 0,
        ensures
            at < self.free@.len(),
            forall|j: int|
                0 <= j < self.free@.len() ==> self.free@[at as int] <= #[trigger] self.free@[j],
    {
        let mut at: usize = 0;
        let mut i: usize = 1;
        while i < self.free.len()
            invariant
                at < i <= self.free@.len(),
                forall|j: int| 0 <= j < i ==> self.free@[at as int] <= #[trigger] self.free@[j],
            decreases self.free.len() - i,
        {
            if self.free[i] < self.free[at] {
                at = i;
            }
            i = i + 1;
        }
        at
    }

    /// The smallest free identifier is the smallest that is not in use.
    proof fn lemma_smallest(self, at: int)
        requires
            self.wf(),
            0 <= at < self.free@.len(),
            forall|j: int| 0 <= j < self.free@.len() ==> self.free@[at] <= #[trigger] self.free@[j],
        ensures
            self.is_next(self.free@[at] as int),
    {
        let id = self.free@[at];
        assert(self.free@.contains(id));
        assert forall|smaller: int| 0 <= smaller < id implies #[trigger] self.in_use().contains(
            smaller,
        ) by {
            if self.free@.contains(smaller as usize) {
                let j = choose|j: int| 0 <= j < self.free@.len() && self.free@[j] == smaller as usize;
                assert(self.free@[at] <= self.free@[j]);
            }
        }
    }

    /// The smallest identifier that is not in use.
    pub fn peek(&self) -> (id: usize)
        requires
            self.wf(),
            self.available(),
        ensures
            id < usize::MAX,
            self.is_next(id as int),
            id <= self.known(),
    {
        if self.free.len() == 0 {
            proof {
                let spare = choose|spare: int|
                    0 <= spare < usize::MAX && !self.in_use().contains(spare);
                assert(self.next <= spare);
            }
            self.next
        } else {
            let at: usize = self.smallest();
            proof {
                self.lemma_smallest(at as int);
            }
            self.free[at]
        }
    }

    /// Takes the smallest identifier that is not in use.
    pub fn create(&mut self) -> (id: usize)
        requires
            old(self).wf(),
            old(self).available(),
        ensures
            final(self).wf(),
            id < usize::MAX,
            old(self).is_next(id as int),
            final(self).in_use() == old(self).in_use().insert(id as int),
            id < old(self).known() ==> final(self).known() == old(self).known() && final(
                self
            ).room() == old(self).room() + 1,
            id >= old(self).known() ==> final(self).known() == id + 1 && final(self).room() == old(
                self,
            ).room(),
    {
        if self.free.len() == 0 {
            let id: usize = self.peek();
            self.next = id + 1;
            assert(self.in_use() =~= old(self).in_use().insert(id as int));
            return id;
        }
        let at: usize = self.smallest();
        let id: usize = self.free.swap_remove(at);
        proof {
            let before = old(self).free@;
            let after = self.free@;
            old(self).lemma_smallest(at as int);
            assert forall|j: int| 0 <= j < after.len() implies after[j] == before[if j == at {
                before.len() - 1
            } else {
                j
            }] by {}
            assert(after.no_duplicates());
            assert forall|x: usize| after.contains(x) == (before.contains(x) && x != id) by {
                if before.contains(x) && x != id {
                    let j = choose|j: int| 0 <= j < before.len() && before[j] == x;
                    if j == before.len() - 1 {
                        assert(after[at as int] == x);
                    } else {
                        assert(after[j] == x);
                    }
                }
                if after.contains(x) {
                    let j = choose|j: int| 0 <= j < after.len() && after[j] == x;
                    assert(before[if j == at {
                        before.len() - 1
                    } else {
                        j
                    }] == x);
                }
            }
            assert(before.contains(id));
            assert(self.in_use() =~= old(self).in_use().insert(id as int));
        }
        id
    }

    /// Gives an identifier back.
    pub fn recycle(&mut self, id: usize)
        requires
            old(self).wf(),
            old(self).in_use().contains(id as int),
        ensures
            final(self).wf(),
            final(self).in_use() == old(self).in_use().remove(id as int),
            final(self).known() == old(self).known(),
            final(self).room() == less_one(old(self).room()),
    {
        self.free.push(id);
        if self.reserved < self.free.len() {
            self.reserved = self.free.len();
        }
        proof {
            let before = old(self).free@;
            let after = self.free@;
            assert forall|x: usize| after.contains(x) == (before.contains(x) || x == id) by {
                if before.contains(x) {
                    let j = choose|j: int| 0 <= j < before.len() && before[j] == x;
                    assert(after[j] == x);
                }
                assert(after[before.len() as int] == id);
            }
            assert(self.in_use() =~= old(self).in_use().remove(id as int));
        }
    }

    /// Gives an identifier back if there is memory to remember that it is free, and says whether
    /// there was. With none to be had the identifier stays in use, and slots are sparser than they
    /// would be; while there is room, none is needed.
    pub fn release(&mut self, id: usize) -> (recycled: bool)
        requires
            old(self).wf(),
            old(self).in_use().contains(id as int),
        ensures
            final(self).wf(),
            final(self).in_use() == if recycled {
                old(self).in_use().remove(id as int)
            } else {
                old(self).in_use()
            },
            old(self).room() > 0 ==> recycled,
            // It stays in use only if a request for space to remember it by was refused.
            !recycled ==> exists|free: &mut Vec<usize>, e: TryReserveError|
                (forall|other: usize| #[trigger]
                    free@.contains(other) <==> other < old(self).known() && !old(
                        self,
                    ).in_use().contains(other as int)) && #[trigger] call_ensures(
                    Vec::<usize>::try_reserve,
                    (free, 1usize),
                    Err::<(), TryReserveError>(e),
                ),
            final(self).known() == old(self).known(),
            final(self).room() == less_one(old(self).room()),
    {
        if self.free.len() < self.reserved {
            return self.recycle_if(id, true);
        }
        assert forall|other: usize| #[trigger] self.free@.contains(other) <==> other < old(
            self,
        ).known() && !old(self).in_use().contains(other as int) by {
            if self.free@.contains(other) {
                let j = choose|j: int| 0 <= j < self.free@.len() && self.free@[j] == other;
                assert(self.free@[j] < self.next);
            }
        }
        let reserved = self.free.try_reserve(1);
        assert(reserved is Err ==> reserved == Err::<(), TryReserveError>(reserved->Err_0));
        self.recycle_if(id, reserved.is_ok())
    }

    /// Gives an identifier back if there is memory to remember that it is free.
    pub fn recycle_if(&mut self, id: usize, memory: bool) -> (recycled: bool)
        requires
            old(self).wf(),
            old(self).in_use().contains(id as int),
        ensures
            recycled == memory,
            final(self).wf(),
            final(self).in_use() == if memory {
                old(self).in_use().remove(id as int)
            } else {
                old(self).in_use()
            },
            final(self).known() == old(self).known(),
            final(self).room() == if memory {
                less_one(old(self).room())
            } else {
                old(self).room()
            },
    {
        if memory {
            self.recycle(id);
        }
        memory
    }
}

/// One less, down to zero.
pub open spec fn less_one(number: nat) -> nat {
    if number > 0 {
        (number - 1) as nat
    } else {
        0
    }
}

/// An identifier that is not free again, for want of memory, is one that the allocator was asked to
/// remember: a request for one more, beside exactly those that are free, failed.
pub proof fn law_refusal_is_an_answer(ids: ThreadIds)
    ensures
        ids.refused() ==> exists|free: &mut Vec<usize>, e: TryReserveError|
            (forall|id: usize| #[trigger]
                free@.contains(id) <==> id < ids.known() && !ids.in_use().contains(id as int))
                && #[trigger] call_ensures(
                Vec::<usize>::try_reserve,
                (free, 1usize),
                Err::<(), TryReserveError>(e),
            ),
{
}

/// Identifiers are recycled: with so many in use, the next one is no larger than their number, and
/// one that has been given back is the next one again if it was the next one before.
pub proof fn law_identifiers_are_recycled(ids: ThreadIds, later: ThreadIds, id: int)
    requires
        ids.wf(),
        ids.is_next(id),
        later.in_use() == ids.in_use().insert(id).remove(id),
    ensures
        ids.in_use().finite(),
        id <= ids.in_use().len(),
        later.is_next(id),
{
    assert(ids.in_use().insert(id).remove(id) =~= ids.in_use());
    vstd::set_lib::lemma_int_range(0, ids.next as int);
    vstd::set_lib::lemma_len_subset(ids.in_use(), vstd::set_lib::set_int_range(0, ids.next as int));
    vstd::set_lib::lemma_int_range(0, id);
    vstd::set_lib::lemma_len_subset(vstd::set_lib::set_int_range(0, id), ids.in_use());
}

/// One less and one more is what it was, and nothing is less than zero.
pub proof fn law_less_one(number: nat)
    ensures
        number > 0 ==> less_one(number) + 1 == number,
        less_one(0) == 0,
{
}

/// An identifier is available exactly if some number is not in use, and the next one is such a number,
/// below every other.
pub proof fn law_the_next_identifier_is_the_smallest(ids: ThreadIds, id: int, other: int)
    requires
        ids.is_next(id),
        0 <= other,
        !ids.in_use().contains(other),
    ensures
        0 <= id <= other,
        !ids.in_use().contains(id),
        other < usize::MAX ==> ids.available(),
{
    if other < id {
        assert(ids.in_use().contains(other));
    }
}

} // verus!
