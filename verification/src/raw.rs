//! The reclamation scheme itself, on thread slots rather than guards.
pub mod heap;
pub mod steps;

use vstd::prelude::*;

use crate::memory::empty_list;
use crate::memory::list_count;
use crate::memory::lists_home;
use crate::memory::lists_limits;
use crate::memory::lists_rows;
use crate::memory::lists_space;
use crate::memory::lists_refused;
use crate::memory::more_lists;
use crate::memory::more_rows;
use crate::memory::push_list;
use crate::memory::push_row;
use crate::memory::refused;
use crate::memory::row_at;
use crate::memory::row_count;
use crate::memory::rows_refused;
use crate::memory::set_row;
use crate::memory::AllocError;
use crate::memory::DynAlloc;
use crate::memory::Row;
use crate::raw::heap::in_list;
use crate::raw::heap::lemma_waiters;
use crate::raw::heap::lemma_waiters_only;
use crate::raw::heap::refers;
use crate::raw::heap::waiters;
use crate::raw::heap::Heap;
use crate::raw::heap::Node;
use crate::raw::heap::HEADERS;
use crate::raw::heap::LOCAL;
use crate::raw::heap::READY;
use crate::raw::heap::RETIRED;
use crate::raw::heap::SLOTS;
use crate::raw::heap::VACANT;
use crate::raw::steps::blank;
use crate::raw::steps::lemma_adopt;
use crate::raw::steps::lemma_advance;
use crate::raw::steps::lemma_append;
use crate::raw::steps::lemma_dequeue;
use crate::raw::steps::lemma_detach;
use crate::raw::steps::lemma_enqueue;
use crate::raw::steps::lemma_grow;
use crate::raw::steps::lemma_link;
use crate::raw::steps::lemma_pad;
use crate::raw::steps::lemma_release_step;
use crate::raw::steps::lemma_set_guards;
use crate::raw::steps::lemma_unlink;
use crate::raw::steps::lemma_valid;
use crate::raw::steps::lemma_waits;
use crate::raw::steps::release_one;
use crate::state::joined;
use crate::state::positives;
use crate::state::Retired;
use crate::state::State;

verus! {

/// A collector, on thread slots.
pub struct Collector<'a> {
    memory: DynAlloc<'a>,
    id: u64,
    batch_size: usize,
    head: usize,
    tail: usize,
    waiting: Ghost<Seq<Seq<Node>>>,
    queue: Ghost<Seq<int>>,
}

impl<'a> Collector<'a> {
    /// The layout of the rows.
    spec fn heap(self) -> Heap {
        Heap {
            rows: lists_rows(self.memory.lists),
            waiting: self.waiting@,
            queue: self.queue@,
            head: self.head as int,
            tail: self.tail as int,
        }
    }

    /// The rows are sound, though some handed-over batch may wait for no slot.
    spec fn sound(self) -> bool {
        &&& self.heap().linked()
        &&& self.heap().shape()
        &&& lists_limits(self.memory.lists).len() == self.heap().rows.len()
    }

    /// The collector is well-formed.
    pub closed spec fn wf(self) -> bool {
        &&& self.sound()
        &&& self.heap().settled()
    }

    /// What the collector knows.
    pub closed spec fn state(self) -> State {
        self.heap().state(self.batch_size as nat)
    }

    /// The identity of the collector.
    pub closed spec fn id(self) -> u64 {
        self.id
    }

    /// The allocator that the collector's records are in.
    pub closed spec fn memory(self) -> DynAlloc<'a> {
        self.memory
    }

    /// The allocator was provided by the user.
    pub closed spec fn custom(self) -> bool {
        self.memory.custom
    }

    /// The allocator that the collector's records are in, as a number.
    pub closed spec fn home(self) -> int {
        lists_home(self.memory.lists)
    }

    /// The number under which the local batch of slot `t` will be handed over.
    pub closed spec fn batch_id(self, t: int) -> int {
        self.heap().local(t)
    }

    /// An object more can be retired on slot `t` without allocating.
    pub closed spec fn reserved(self, t: int) -> bool {
        &&& 0 <= t < self.heap().slots()
        &&& self.heap().local(t) != 0
        &&& self.heap().rows[self.heap().local(t)].len() < lists_limits(
            self.memory.lists,
        )[self.heap().local(t)]
    }

    /// Slot `t` is there, or can be added without allocating.
    pub closed spec fn has_room(self, t: int) -> bool {
        &&& 0 <= t < usize::MAX
        &&& t < self.heap().slots() || t < lists_limits(self.memory.lists)[0]
    }

    /// List `l` has space for an object, and is the local batch of slot `t` or can become it without
    /// allocating.
    pub closed spec fn can_adopt(self, t: int, l: int) -> bool {
        &&& self.has_room(t)
        &&& self.heap().is_batch(l)
        &&& self.heap().rows[l].len() < lists_limits(self.memory.lists)[l]
        &&& if t < self.heap().slots() && self.heap().local(t) != 0 {
            self.heap().local(t) == l
        } else {
            self.heap().kind(l) == VACANT
        }
    }

    /// There is a list for an object to be retired on slot `t`: its local batch or, if it has none,
    /// the first vacant list. It has space.
    pub closed spec fn has_space(self, t: int) -> bool {
        exists|l: int| #[trigger] self.can_adopt(t, l) && chosen(self.heap(), t, l)
    }

    /// The allocator has refused space for the slots that are missing up to slot `t`.
    pub closed spec fn slot_refused(self, t: int) -> bool {
        &&& self.heap().slots() <= t < usize::MAX
        &&& rows_refused(self.heap().rows, SLOTS, (t + 1 - self.heap().slots()) as usize)
    }

    /// The allocator has refused space for slot `t`, for a list to put its objects in, or for one more
    /// object in that list.
    pub closed spec fn space_refused(self, t: int) -> bool {
        let h = self.heap();
        ||| self.slot_refused(t)
        ||| exists|l: usize| chosen(h, t, l as int) && #[trigger] rows_refused(h.rows, l, 1)
        ||| lacks_list(h, t) && {
            ||| rows_refused(h.rows, HEADERS, 1)
            ||| lists_refused(h.rows, 1)
            ||| rows_refused(h.grow().rows, h.rows.len() as usize, 1)
        }
    }

    /// Wherever memory is said to be refused, the allocator has refused some request.
    pub proof fn law_want_of_memory_is_a_refusal(self, t: int)
        requires
            self.wf(),
        ensures
            self.slot_refused(t) ==> t >= self.state().slots() && refused(),
            self.space_refused(t) ==> refused(),
            // For the slots that are missing, and no more.
            self.slot_refused(t) ==> exists|rows: Seq<Seq<Row>>, list: usize, additional: usize|
                additional == t + 1 - self.state().slots() && #[trigger] rows_refused(
                    rows,
                    list,
                    additional,
                ),
            // For one row or one list, where it is not for slots.
            self.space_refused(t) ==> self.slot_refused(t) || (exists|
                rows: Seq<Seq<Row>>,
                list: usize,
                additional: usize,
            | additional == 1 && #[trigger] rows_refused(rows, list, additional)) || (exists|
                rows: Seq<Seq<Row>>,
                additional: usize,
            | additional == 1 && #[trigger] lists_refused(rows, additional)),
    {
        let h = self.heap();
        if self.slot_refused(t) {
            assert(h.slots() == self.state().slots());
            assert(rows_refused(h.rows, SLOTS, (t + 1 - h.slots()) as usize));
        }
    }

    /// Keeping reservations is keeping each: whatever slot but `t` had space for an object has it still.
    pub proof fn law_reservations_are_kept(self, other: Self, t: int, u: int)
        requires
            self.keeps_reserved(other, t),
            other.reserved(u),
            u != t,
        ensures
            self.reserved(u),
    {
    }

    /// A list can be added without allocating.
    spec fn can_grow(self) -> bool {
        &&& self.heap().rows.len() < lists_limits(self.memory.lists)[1]
        &&& self.heap().rows.len() < lists_space(self.memory.lists)
    }

    /// Nothing but the rows and what is threaded through them has changed.
    spec fn same_but_rows(self, other: Self) -> bool {
        &&& self.id == other.id
        &&& self.batch_size == other.batch_size
        &&& self.memory.custom == other.memory.custom
        &&& lists_home(self.memory.lists) == lists_home(other.memory.lists)
    }

    /// No list has another length or limit, and no slot another local batch.
    spec fn steady(self, other: Self) -> bool {
        &&& lists_limits(self.memory.lists) == lists_limits(other.memory.lists)
        &&& self.heap().rows.len() == other.heap().rows.len()
        &&& forall|b: int| #![trigger self.heap().rows[b]]
            0 <= b < self.heap().rows.len() ==> self.heap().rows[b].len()
                == other.heap().rows[b].len()
        &&& forall|u: int| #![trigger self.heap().rows[0][u]]
            0 <= u < self.heap().slots() ==> self.heap().rows[0][u].3 == other.heap().rows[0][u].3
    }

    /// Every slot, except slot `t`, can retire an object without allocating if it could before.
    pub open spec fn keeps_reserved(self, other: Self, t: int) -> bool {
        forall|u: int| u != t && #[trigger] other.reserved(u) ==> self.reserved(u)
    }

    /// A collector with the given number of slots. Fails if there is no memory for them.
    pub fn new(id: u64, slots: usize, batch_size: usize, alloc: DynAlloc<'a>) -> (result: Result<
        Collector<'a>,
        AllocError,
    >)
        requires
            alloc.unused(),
        ensures
            result matches Ok(collector) ==> {
                &&& collector.wf()
                &&& collector.id() == id
                &&& collector.custom() == alloc.custom()
                &&& collector.home() == alloc.home()
                &&& collector.state() == State::idle(slots as nat, batch_size as nat)
            },
            result is Err ==> layout_refused(slots),
    {
        let mut memory = alloc;
        let laid = lay_out(&mut memory, slots);
        Collector::of_layout(laid, id, slots, batch_size, memory)
    }

    /// The collector that comes of an attempt to lay out memory for it: one if that succeeded, and
    /// none else. Nothing is allocated.
    pub fn of_layout(
        laid: Result<(), AllocError>,
        id: u64,
        slots: usize,
        batch_size: usize,
        memory: DynAlloc<'a>,
    ) -> (result: Result<Collector<'a>, AllocError>)
        requires
            laid is Ok ==> laid_out(memory, slots as nat),
        ensures
            laid is Ok ==> {
                &&& result is Ok
                &&& result->Ok_0.wf()
                &&& result->Ok_0.id() == id
                &&& result->Ok_0.custom() == memory.custom()
                &&& result->Ok_0.home() == memory.home()
                &&& result->Ok_0.state() == State::idle(slots as nat, batch_size as nat)
            },
            laid matches Err(e) ==> result == Err::<Collector<'a>, AllocError>(e),
    {
        proof {
            memory.lemma_fields();
        }
        match laid {
            Ok(()) => Ok(Collector::assemble(id, slots, batch_size, memory)),
            Err(e) => Err(e),
        }
    }

    /// A collector in memory that has been laid out for it. Nothing is allocated.
    fn assemble(id: u64, slots: usize, batch_size: usize, memory: DynAlloc<'a>) -> (collector:
        Collector<'a>)
        requires
            lists_rows(memory.lists) == bare(),
            lists_limits(memory.lists).len() == 2,
            slots <= lists_limits(memory.lists)[0],
        ensures
            collector.wf(),
            collector.id() == id,
            collector.custom() == memory.custom,
            collector.home() == lists_home(memory.lists),
            collector.state() == State::idle(slots as nat, batch_size as nat),
    {
        let mut collector = Collector {
            memory,
            id,
            batch_size,
            head: 0,
            tail: 0,
            waiting: Ghost(Seq::empty()),
            queue: Ghost(Seq::empty()),
        };
        proof {
            reveal(Heap::linked);
            assert(collector.heap().linked());
            assert(collector.state() =~~= State::idle(0, batch_size as nat));
        }
        if slots > 0 {
            collector.pad_to(slots - 1);
            assert(collector.state() =~~= State::idle(slots as nat, batch_size as nat));
        }
        collector
    }

    /// The identity of the collector.
    pub fn get_id(&self) -> (id: u64)
        ensures
            id == self.id(),
    {
        self.id
    }

    /// How many objects a local batch must hold before it is handed over.
    pub fn get_batch_size(&self) -> (batch_size: usize)
        ensures
            batch_size == self.state().batch_size,
    {
        self.batch_size
    }

    /// Sets how many objects a local batch must hold before it is handed over.
    pub fn set_batch_size(&mut self, batch_size: usize)
        requires
            old(self).wf(),
        ensures
            final(self).wf(),
            final(self).id() == old(self).id(),
            final(self).custom() == old(self).custom(),
            final(self).home() == old(self).home(),
            final(self).keeps_reserved(*old(self), -1),
            final(self).state() == (State { batch_size: batch_size as nat, ..old(self).state() }),
    {
        self.batch_size = batch_size;
    }

    /// The allocator that the collector's records are in.
    pub fn allocator(&self) -> (alloc: &DynAlloc<'a>)
        ensures
            *alloc == self.memory(),
            alloc.custom() == self.custom(),
            alloc.home() == self.home(),
    {
        proof {
            self.memory.lemma_fields();
        }
        &self.memory
    }

    /// The number of guards that are held on slot `t`.
    pub fn guards(&self, t: usize) -> (guards: usize)
        requires
            self.wf(),
        ensures
            guards == if t < self.state().slots() {
                self.state().guards[t as int]
            } else {
                0
            },
    {
        if t < row_count(&self.memory.lists, SLOTS) {
            row_at(&self.memory.lists, SLOTS, t).0
        } else {
            0
        }
    }

    /// Every state that a collector is in is valid.
    pub proof fn lemma_valid(self)
        requires
            self.wf(),
        ensures
            self.state().valid(),
    {
        lemma_valid(self.heap(), self.batch_size as nat);
    }

    /// Adds rows for the slots up to `t`, which there is room for.
    fn pad_to(&mut self, t: usize)
        requires
            old(self).sound(),
            t < lists_limits(old(self).memory.lists)[0],
            t < usize::MAX,
        ensures
            final(self).sound(),
            old(self).heap().settled() ==> final(self).heap().settled(),
            final(self).state() == old(self).state().cover(t as int),
            final(self).same_but_rows(*old(self)),
            lists_limits(final(self).memory.lists) == lists_limits(old(self).memory.lists),
            t < final(self).heap().slots(),
            final(self).heap().rows.skip(1) == old(self).heap().rows.skip(1),
            forall|u: int| #![trigger final(self).heap().rows[0][u]]
                0 <= u < final(self).heap().slots() ==> final(self).heap().rows[0][u] == if u < old(
                    self,
                ).heap().slots() {
                    old(self).heap().rows[0][u]
                } else {
                    blank()
                },
    {
        let mut n: usize = row_count(&self.memory.lists, SLOTS);
        assert(self.state() =~~= old(self).state().cover(n - 1));
        while n <= t
            invariant
                self.sound(),
                old(self).heap().settled() ==> self.heap().settled(),
                n == self.heap().slots(),
                n >= old(self).heap().slots(),
                n <= t + 1 || n == old(self).heap().slots(),
                self.state() == old(self).state().cover(n - 1),
                self.same_but_rows(*old(self)),
                lists_limits(self.memory.lists) == lists_limits(old(self).memory.lists),
                t < lists_limits(old(self).memory.lists)[0],
                t < usize::MAX,
                self.heap().rows.skip(1) == old(self).heap().rows.skip(1),
                forall|u: int| #![trigger self.heap().rows[0][u]]
                    0 <= u < self.heap().slots() ==> self.heap().rows[0][u] == if u < old(
                        self,
                    ).heap().slots() {
                        old(self).heap().rows[0][u]
                    } else {
                        blank()
                    },
            decreases t + 1 - n,
        {
            let ghost before = self.heap();
            let ghost s = self.state();
            proof {
                lemma_pad(before, self.batch_size as nat);
            }
            let _ = push_row(&mut self.memory.lists, SLOTS, (0, 0, 0, 0));
            self.waiting = Ghost(self.waiting@.push(Seq::empty()));
            assert(self.heap() =~= before.pad());
            assert(self.heap().rows.skip(1) =~= before.rows.skip(1));
            assert(self.state() =~~= old(self).state().cover(n as int));
            n = n + 1;
        }
        assert(self.state() =~~= old(self).state().cover(t as int));
    }

    /// Makes sure that there is room for slot `t`.
    fn reserve_slot(&mut self, t: usize) -> (result: Result<(), AllocError>)
        requires
            old(self).sound(),
        ensures
            final(self).sound(),
            final(self).heap() == old(self).heap(),
            final(self).same_but_rows(*old(self)),
            result is Ok ==> t < usize::MAX && (t < old(self).heap().slots() || t < lists_limits(
                final(self).memory.lists,
            )[0]),
            old(self).has_room(t as int) ==> result is Ok,
            t < old(self).heap().slots() ==> result is Ok,
            t == usize::MAX ==> result is Err,
            result is Err ==> t == usize::MAX || old(self).slot_refused(t as int),
            lists_limits(final(self).memory.lists).skip(1) == lists_limits(old(self).memory.lists).skip(1),
    {
        let n: usize = row_count(&self.memory.lists, SLOTS);
        if t < n {
            return Ok(());
        }
        if t == usize::MAX {
            return Err(AllocError);
        }
        let result = more_rows(&mut self.memory.lists, SLOTS, t - n + 1);
        assert(lists_limits(self.memory.lists).skip(1) =~= lists_limits(old(self).memory.lists).skip(1));
        result
    }

    /// Makes sure that slot `t` can be used without allocating. It succeeds at once where it can be.
    /// Whether there is memory for it else is up to the allocator. There is none for the last number,
    /// as the slots before it could not be counted.
    pub fn make_room(&mut self, t: usize) -> (result: Result<(), AllocError>)
        requires
            old(self).wf(),
        ensures
            final(self).wf(),
            final(self).id() == old(self).id(),
            final(self).custom() == old(self).custom(),
            final(self).home() == old(self).home(),
            final(self).keeps_reserved(*old(self), -1),
            final(self).state() == old(self).state(),
            result is Ok ==> final(self).has_room(t as int),
            old(self).has_room(t as int) ==> result is Ok,
            t < old(self).state().slots() ==> result is Ok,
            t == usize::MAX ==> result is Err,
            result is Err ==> t == usize::MAX || old(self).slot_refused(t as int),
    {
        let result = self.reserve_slot(t);
        proof {
            lemma_same_rows_keep(*self, *old(self));
        }
        result
    }

    /// Holds one more guard on slot `t`, once there is room for the slot. Nothing is allocated, and
    /// without room nothing changes.
    pub fn enter_with(&mut self, t: usize, room: Result<(), AllocError>) -> (result: Result<
        (),
        AllocError,
    >)
        requires
            old(self).wf(),
            room is Ok ==> old(self).has_room(t as int),
            t < old(self).state().slots() ==> old(self).state().guards[t as int] < usize::MAX,
        ensures
            final(self).wf(),
            final(self).id() == old(self).id(),
            final(self).custom() == old(self).custom(),
            final(self).home() == old(self).home(),
            final(self).keeps_reserved(*old(self), -1),
            room is Ok ==> result is Ok && final(self).state() == old(self).state().enter(t as int),
            room matches Err(e) ==> result == Err::<(), AllocError>(e) && *final(self) == *old(self),
    {
        match room {
            Ok(()) => {},
            Err(e) => {
                return Err(e);
            },
        }
        let n: usize = row_count(&self.memory.lists, SLOTS);
        if t >= n {
            self.pad_to(t);
        } else {
            assert(self.state() =~~= old(self).state().cover(t as int));
        }
        let ghost before = self.heap();
        let row: Row = row_at(&self.memory.lists, SLOTS, t);
        assert(self.state().guards[t as int] == row.0);
        set_row(&mut self.memory.lists, SLOTS, t, (row.0 + 1, row.1, row.2, row.3));
        proof {
            lemma_set_guards(before, self.batch_size as nat, t as int, (row.0 + 1) as usize);
            assert(self.heap() =~= before.set_guards(t as int, (row.0 + 1) as usize));
            reveal(Heap::linked);
            assert forall|b: int| 1 <= b < before.rows.len() implies before.rows[b] == old(
                self,
            ).heap().rows[b] by {
                assert(before.rows.skip(1)[b - 1] == old(self).heap().rows.skip(1)[b - 1]);
            }
            lemma_keeps(*self, *old(self), -1);
        }
        Ok(())
    }

    /// Makes the handed-over batch `b`, which waits for no slot, ready.
    fn enqueue(&mut self, b: usize)
        requires
            old(self).sound(),
            old(self).heap().is_batch(b as int),
            old(self).heap().kind(b as int) == RETIRED,
            old(self).heap().rows[1][b as int].1 == 0,
            old(self).heap().rows[b as int].len() > 0,
        ensures
            final(self).steady(*old(self)),
            final(self).sound(),
            final(self).heap() == old(self).heap().enqueue(b as int),
            final(self).same_but_rows(*old(self)),
    {
        proof {
            reveal(Heap::linked);
        }
        let ghost before = self.heap();
        proof {
            lemma_enqueue(before, self.batch_size as nat, b as int);
        }
        set_row(&mut self.memory.lists, HEADERS, b, (READY, 0, 0, 0));
        if self.tail == 0 {
            self.head = b;
        } else {
            proof {
                assert(before.queue[before.queue.len() - 1] == before.tail);
            }
            let last: Row = row_at(&self.memory.lists, HEADERS, self.tail);
            set_row(&mut self.memory.lists, HEADERS, self.tail, (last.0, last.1, last.2, b));
        }
        self.tail = b;
        self.queue = Ghost(self.queue@.push(b as int));
        assert(self.heap() =~= before.enqueue(b as int));
    }

    /// Whether some batch waits for slot `t`.
    fn is_waited_for(&self, t: usize) -> (waited: bool)
        requires
            self.sound(),
            t < self.heap().slots(),
        ensures
            waited == (self.heap().waiting[t as int].len() > 0),
    {
        proof {
            reveal(Heap::linked);
        }
        let row: Row = row_at(&self.memory.lists, SLOTS, t);
        proof {
            reveal(refers);
            if self.heap().waiting[t as int].len() > 0 {
                assert(self.heap().waiting[t as int][0].0 != 0);
            }
        }
        row.1 != 0
    }

    /// Lets go of the first batch that waits for slot `t`.
    fn release_head(&mut self, t: usize)
        requires
            old(self).wf(),
            t < old(self).heap().slots(),
            old(self).heap().waiting[t as int].len() > 0,
        ensures
            final(self).steady(*old(self)),
            final(self).wf(),
            final(self).same_but_rows(*old(self)),
            final(self).heap().slots() == old(self).heap().slots(),
            final(self).heap().waiting[t as int] == old(self).heap().waiting[t as int].skip(1),
            final(self).state() == release_one(
                old(self).state(),
                t as int,
                old(self).state().waits_only(t as int, old(self).state().waiting[t as int][0]),
            ),
    {
        proof {
            reveal(Heap::linked);
        }
        let ghost before = self.heap();
        let ghost cur = self.state();
        let ghost n = self.batch_size as nat;
        let row: Row = row_at(&self.memory.lists, SLOTS, t);
        let b: usize = row.1;
        proof {
            assert(before.waiting[t as int][0] == (row.1 as int, row.2 as int)) by {
                reveal(refers);
            }
            lemma_unlink(before, n, t as int);
            lemma_only(before, n, t as int, b as int);
        }
        let entry: Row = row_at(&self.memory.lists, row.1, row.2);
        let header: Row = row_at(&self.memory.lists, HEADERS, b);
        set_row(&mut self.memory.lists, SLOTS, t, (row.0, entry.2, entry.3, row.3));
        set_row(&mut self.memory.lists, HEADERS, b, (header.0, header.1 - 1, header.2, header.3));
        self.waiting = Ghost(self.waiting@.update(t as int, self.waiting@[t as int].skip(1)));
        assert(self.heap() =~= before.unlink(t as int));
        let ghost mid = self.heap();
        assert(mid.rows[b as int] == before.rows[b as int]);
        if header.1 == 1 {
            proof {
                lemma_enqueue(mid, n, b as int);
            }
            self.enqueue(b);
            proof {
                assert forall|c: int| #![trigger self.heap().rows[1][c]]
                    self.heap().is_batch(c) && self.heap().rows[1][c].0
                        == RETIRED implies self.heap().rows[1][c].1 > 0 by {
                    assert(mid.rows[1][c].1 > 0);
                }
            }
        }
    }

    /// Lets go of everything that waits for slot `t`.
    fn release(&mut self, t: usize)
        requires
            old(self).wf(),
            t < old(self).state().slots(),
        ensures
            final(self).steady(*old(self)),
            final(self).wf(),
            final(self).state() == old(self).state().release(t as int),
            final(self).same_but_rows(*old(self)),
            final(self).heap().waiting[t as int].len() == 0,
    {
        let ghost s = self.state();
        let ghost list = self.heap().waiting[t as int];
        let ghost mut k: int = 0;
        proof {
            lemma_valid(self.heap(), self.batch_size as nat);
            assert(s.release_first(t as int, 0) =~= s) by {
                assert(s.waiting[t as int].skip(0) =~= s.waiting[t as int]);
                assert(s.freed(t as int, 0).to_set() =~= Set::empty());
            }
        }
        while self.is_waited_for(t)
            invariant
                self.wf(),
                s.valid(),
                t < s.slots(),
                self.heap().slots() == s.slots(),
                list.len() == s.waiting[t as int].len(),
                0 <= k <= list.len(),
                self.heap().waiting[t as int] == list.skip(k),
                self.state() == s.release_first(t as int, k),
                self.same_but_rows(*old(self)),
                self.steady(*old(self)),
            decreases list.len() - k,
        {
            proof {
                lemma_release_next(s, t as int, k);
            }
            self.release_head(t);
            proof {
                assert(list.skip(k).skip(1) =~= list.skip(k + 1));
                k = k + 1;
            }
        }
    }

    /// Gives up one guard on slot `t`.
    pub fn leave(&mut self, t: usize)
        requires
            old(self).wf(),
            t < old(self).state().slots(),
            old(self).state().guards[t as int] > 0,
        ensures
            final(self).keeps_reserved(*old(self), -1),
            final(self).wf(),
            final(self).id() == old(self).id(),
            final(self).custom() == old(self).custom(),
            final(self).home() == old(self).home(),
            final(self).state() == old(self).state().leave(t as int),
    {
        proof {
            reveal(Heap::linked);
        }
        let ghost s = self.state();
        let ghost n = self.batch_size as nat;
        let row: Row = row_at(&self.memory.lists, SLOTS, t);
        assert(s.guards[t as int] == row.0);
        if row.0 == 1 {
            self.release(t);
        }
        let row: Row = row_at(&self.memory.lists, SLOTS, t);
        let ghost before = self.heap();
        assert(self.state().guards[t as int] == row.0);
        set_row(&mut self.memory.lists, SLOTS, t, (row.0 - 1, row.1, row.2, row.3));
        proof {
            lemma_set_guards(before, n, t as int, (row.0 - 1) as usize);
            assert(self.heap() =~= before.set_guards(t as int, (row.0 - 1) as usize));
            if s.guards[t as int] == 1 {
                let s1 = State { guards: s.guards.update(t as int, 0), ..s };
                lemma_release_guards(s, t as int, s.waiting[t as int].len() as int, s1.guards);
            }
        }
    }

    /// Lets go of what waits for slot `t`, if there is one guard on it, which stays.
    pub fn refresh(&mut self, t: usize)
        requires
            old(self).wf(),
            t < old(self).state().slots(),
        ensures
            final(self).keeps_reserved(*old(self), -1),
            final(self).wf(),
            final(self).id() == old(self).id(),
            final(self).custom() == old(self).custom(),
            final(self).home() == old(self).home(),
            final(self).state() == old(self).state().refresh(t as int),
    {
        let row: Row = row_at(&self.memory.lists, SLOTS, t);
        assert(self.state().guards[t as int] == row.0);
        if row.0 == 1 {
            self.release(t);
        }
        proof {
            reveal(Heap::linked);
            lemma_keeps(*self, *old(self), -1);
        }
    }

    /// The number of slots on which a guard is held.
    pub fn count_active(&self) -> (count: usize)
        requires
            self.wf(),
        ensures
            count == self.state().active(),
    {
        let slots: usize = row_count(&self.memory.lists, SLOTS);
        let ghost guards = self.state().guards;
        let mut count: usize = 0;
        let mut u: usize = 0;
        while u < slots
            invariant
                self.sound(),
                slots == self.heap().slots(),
                guards == self.state().guards,
                u <= slots,
                count == positives(guards, u as int),
                count <= u,
            decreases slots - u,
        {
            let row: Row = row_at(&self.memory.lists, SLOTS, u);
            assert(guards[u as int] == row.0);
            if row.0 > 0 {
                count = count + 1;
            }
            u = u + 1;
        }
        count
    }

    /// Puts entry `i` of batch `b` in front of what waits for slot `u`.
    fn link(&mut self, u: usize, b: usize, i: usize)
        requires
            old(self).sound(),
            u < old(self).heap().slots(),
            old(self).heap().rows[0][u as int].0 > 0,
            old(self).heap().is_batch(b as int),
            old(self).heap().kind(b as int) == RETIRED,
            old(self).heap().rows[1][b as int].1 < usize::MAX,
            i < old(self).heap().rows[b as int].len(),
            !in_list(old(self).heap().waiting[u as int], b as int),
            forall|v: int, k: int| #![trigger old(self).heap().waiting[v][k]]
                0 <= v < old(self).heap().slots() && 0 <= k < old(self).heap().waiting[v].len()
                    ==> old(self).heap().waiting[v][k] != (b as int, i as int),
        ensures
            final(self).steady(*old(self)),
            final(self).sound(),
            final(self).same_but_rows(*old(self)),
            final(self).heap() == old(self).heap().link(u as int, b as int, i as int),
            final(self).state() == (State {
                waiting: old(self).state().waiting.update(
                    u as int,
                    seq![b as int] + old(self).state().waiting[u as int],
                ),
                ..old(self).state()
            }),
    {
        let ghost before = self.heap();
        proof {
            lemma_link(before, self.batch_size as nat, u as int, b as int, i as int);
        }
        let row: Row = row_at(&self.memory.lists, SLOTS, u);
        let entry: Row = row_at(&self.memory.lists, b, i);
        let header: Row = row_at(&self.memory.lists, HEADERS, b);
        set_row(&mut self.memory.lists, b, i, (entry.0, entry.1, row.1, row.2));
        set_row(&mut self.memory.lists, SLOTS, u, (row.0, b, i, row.3));
        set_row(&mut self.memory.lists, HEADERS, b, (header.0, header.1 + 1, header.2, header.3));
        self.waiting = Ghost(
            self.waiting@.update(u as int, seq![(b as int, i as int)] + self.waiting@[u as int]),
        );
        assert(self.heap() =~= before.link(u as int, b as int, i as int));
    }

    /// Hands batch `b`, which waits for no slot yet, to every active slot.
    fn link_all(&mut self, b: usize)
        requires
            old(self).sound(),
            old(self).heap().is_batch(b as int),
            old(self).heap().kind(b as int) == RETIRED,
            old(self).heap().rows[1][b as int].1 == 0,
            old(self).state().active() <= old(self).heap().rows[b as int].len(),
        ensures
            final(self).steady(*old(self)),
            final(self).sound(),
            final(self).same_but_rows(*old(self)),
            final(self).state() == (State {
                waiting: handed(old(self).state(), b as int, old(self).state().slots() as int),
                ..old(self).state()
            }),
            final(self).heap().rows.len() == old(self).heap().rows.len(),
            final(self).heap().kind(b as int) == RETIRED,
            final(self).heap().rows[1][b as int].1 == old(self).state().active(),
            final(self).heap().rows[b as int].len() == old(self).heap().rows[b as int].len(),
            forall|c: int| #![trigger final(self).heap().rows[1][c]]
                final(self).heap().is_batch(c) && c != b ==> final(self).heap().rows[1][c] == old(
                    self,
                ).heap().rows[1][c],
    {
        let ghost s = self.state();
        let ghost h = self.heap();
        let slots: usize = row_count(&self.memory.lists, SLOTS);
        let len: usize = row_count(&self.memory.lists, b);
        let mut i: usize = 0;
        let mut u: usize = 0;
        proof {
            assert(waiters(h.waiting, b as int) == 0) by {
                reveal(Heap::linked);
            }
            lemma_waiters(h.waiting, b as int);
            assert(handed(s, b as int, 0) =~= s.waiting);
        }
        while u < slots
            invariant
                self.sound(),
                self.same_but_rows(*old(self)),
                self.steady(*old(self)),
                s == old(self).state(),
                h == old(self).heap(),
                slots == h.slots(),
                s.slots() == slots,
                u <= slots,
                i == positives(s.guards, u as int),
                s.active() <= len,
                len == h.rows[b as int].len(),
                h.is_batch(b as int),
                forall|v: int| 0 <= v < slots ==> !in_list(#[trigger] h.waiting[v], b as int),
                self.state() == (State { waiting: handed(s, b as int, u as int), ..s }),
                self.heap().rows.len() == h.rows.len(),
                self.heap().rows[b as int].len() == h.rows[b as int].len(),
                self.heap().kind(b as int) == RETIRED,
                self.heap().rows[1][b as int].1 == i,
                forall|c: int| #![trigger self.heap().rows[1][c]]
                    self.heap().is_batch(c) && c != b ==> self.heap().rows[1][c] == h.rows[1][c],
                self.heap().waiting.len() == slots,
                forall|v: int| #![trigger self.heap().waiting[v]]
                    0 <= v < slots ==> self.heap().waiting[v] == (if v < u && s.guards[v] > 0 {
                        seq![(b as int, positives(s.guards, v) as int)] + h.waiting[v]
                    } else {
                        h.waiting[v]
                    }),
            decreases slots - u,
        {
            let ghost before = self.heap();
            let row: Row = row_at(&self.memory.lists, SLOTS, u);
            assert(self.state().guards[u as int] == row.0);
            proof {
                lemma_positives(s.guards, u as int + 1, slots as int);
                assert forall|v: int, k: int| #![trigger before.waiting[v][k]]
                    0 <= v < before.slots() && 0 <= k < before.waiting[v].len() implies before.waiting[v][k]
                    != (b as int, i as int) by {
                    let w = before.waiting[v];
                    if v < u && s.guards[v] > 0 {
                        if k == 0 {
                            lemma_positives(s.guards, v + 1, u as int);
                        } else {
                            assert(w[k] == h.waiting[v][k - 1]);
                            assert(!in_list(h.waiting[v], b as int));
                        }
                    } else {
                        assert(!in_list(h.waiting[v], b as int));
                        assert(w[k] == h.waiting[v][k]);
                    }
                }
            }
            if row.0 > 0 {
                assert(before.waiting[u as int] == h.waiting[u as int]);
                self.link(u, b, i);
                assert(handed(s, b as int, u as int + 1) =~= handed(s, b as int, u as int).update(
                    u as int,
                    seq![b as int] + s.waiting[u as int],
                ));
                i = i + 1;
            } else {
                assert(handed(s, b as int, u as int + 1) =~= handed(s, b as int, u as int));
            }
            u = u + 1;
        }
    }

    /// Hands over the local batch of slot `t`, unless it is empty or holds fewer objects than there
    /// are active slots. Nothing is allocated.
    pub fn flush(&mut self, t: usize)
        requires
            old(self).wf(),
            t < old(self).state().slots(),
        ensures
            final(self).keeps_reserved(*old(self), t as int),
            final(self).wf(),
            final(self).id() == old(self).id(),
            final(self).custom() == old(self).custom(),
            final(self).home() == old(self).home(),
            old(self).batch_id(t as int) >= 0,
            !old(self).state().batches.contains_key(old(self).batch_id(t as int)),
            final(self).state() == old(self).state().flush(t as int, old(self).batch_id(t as int)),
    {
        proof {
            reveal(Heap::linked);
        }
        let ghost s = self.state();
        let ghost h = self.heap();
        let ghost n = self.batch_size as nat;
        let row: Row = row_at(&self.memory.lists, SLOTS, t);
        let l: usize = row.3;
        assert(s.local[t as int] == h.local_items(t as int));
        if l == 0 {
            return ;
        }
        let len: usize = row_count(&self.memory.lists, l);
        if len == 0 {
            return ;
        }
        let active: usize = self.count_active();
        if len < active {
            return ;
        }
        proof {
            lemma_detach(h, n, t as int);
        }
        set_row(&mut self.memory.lists, HEADERS, l, (RETIRED, 0, 0, 0));
        set_row(&mut self.memory.lists, SLOTS, t, (row.0, row.1, row.2, 0));
        assert(self.heap() =~= h.detach(t as int));
        let ghost d = self.state();
        assert(d.active() == s.active());
        self.link_all(l);
        proof {
            assert(handed(d, l as int, d.slots() as int) =~= handed(s, l as int, s.slots() as int));
        }
        let ghost linked = self.heap();
        if active == 0 {
            proof {
                lemma_enqueue(self.heap(), n, l as int);
                lemma_positives_zero(s.guards, s.slots() as int);
                assert(handed(d, l as int, d.slots() as int) =~= d.waiting);
                assert(d.batches.remove(l as int) =~= s.batches);
            }
            self.enqueue(l);
            proof {
                assert(self.state() =~= s.hand_over(t as int, l as int));
            }
        } else {
            proof {
                assert(self.state() =~= s.hand_over(t as int, l as int));
            }
        }
        proof {
            assert forall|c: int| #![trigger self.heap().rows[1][c]]
                self.heap().is_batch(c) && self.heap().rows[1][c].0
                    == RETIRED implies self.heap().rows[1][c].1 > 0 by {
                if c != l {
                    assert(linked.rows[1][c] == h.detach(t as int).rows[1][c]);
                    assert(h.detach(t as int).rows[1][c] == h.rows[1][c]);
                }
            }
        }
    }

    /// The first vacant list, or none if no list is vacant.
    fn find_vacant(&self) -> (found: Option<usize>)
        requires
            self.sound(),
        ensures
            found matches Some(b) ==> is_first_vacant(self.heap(), b as int),
            found is None ==> !has_vacant(self.heap()),
    {
        let lists: usize = list_count(&self.memory.lists);
        let mut b: usize = 2;
        while b < lists
            invariant
                self.sound(),
                lists == self.heap().rows.len(),
                2 <= b,
                forall|c: int| 2 <= c < b ==> #[trigger] self.heap().kind(c) != VACANT,
            decreases lists - b,
        {
            let header: Row = row_at(&self.memory.lists, HEADERS, b);
            if header.0 == VACANT {
                return Some(b);
            }
            b = b + 1;
        }
        None
    }

    /// A vacant list: the first one that there is or, if there is none, a new one. Fails, with no
    /// row changed, only where a new one is needed and there is no memory for it.
    fn vacant_list(&mut self) -> (result: Result<usize, AllocError>)
        requires
            old(self).wf(),
        ensures
            final(self).wf(),
            final(self).state() == old(self).state(),
            final(self).same_but_rows(*old(self)),
            final(self).heap().rows[0] == old(self).heap().rows[0],
            final(self).keeps_reserved(*old(self), -1),
            lists_limits(final(self).memory.lists)[0] == lists_limits(old(self).memory.lists)[0],
            result matches Ok(b) ==> is_first_vacant(final(self).heap(), b as int),
            has_vacant(old(self).heap()) ==> {
                &&& result is Ok
                &&& is_first_vacant(old(self).heap(), result->Ok_0 as int)
                &&& *final(self) == *old(self)
            },
            result is Ok && !has_vacant(old(self).heap()) ==> {
                &&& result->Ok_0 == old(self).heap().rows.len()
                &&& final(self).heap() == old(self).heap().grow()
            },
            result is Err ==> final(self).heap() == old(self).heap(),
            result is Err ==> !has_vacant(old(self).heap()) && (rows_refused(
                old(self).heap().rows,
                HEADERS,
                1,
            ) || lists_refused(old(self).heap().rows, 1)),
    {
        match self.find_vacant() {
            Some(b) => {
                return Ok(b);
            },
            None => {},
        }
        let ghost h = self.heap();
        let room = self.reserve_list();
        let result = self.grow_with(room);
        proof {
            if result is Ok {
                assert forall|c: int| 2 <= c < h.rows.len() implies #[trigger] self.heap().kind(c)
                    != VACANT by {
                    assert(h.kind(c) != VACANT);
                }
            }
        }
        result
    }

    /// Makes sure that a list can be added without allocating. Whether there is memory for it is up
    /// to the allocator, unless it can be added already.
    fn reserve_list(&mut self) -> (result: Result<(), AllocError>)
        requires
            old(self).wf(),
        ensures
            final(self).wf(),
            final(self).heap() == old(self).heap(),
            final(self).same_but_rows(*old(self)),
            final(self).keeps_reserved(*old(self), -1),
            lists_limits(final(self).memory.lists)[0] == lists_limits(old(self).memory.lists)[0],
            result is Ok ==> final(self).can_grow(),
            old(self).can_grow() ==> result is Ok,
            result is Err ==> rows_refused(old(self).heap().rows, HEADERS, 1) || lists_refused(
                old(self).heap().rows,
                1,
            ),
    {
        let header = more_rows(&mut self.memory.lists, HEADERS, 1);
        proof {
            reveal(Heap::linked);
            lemma_keeps(*self, *old(self), -1);
        }
        match header {
            Ok(()) => more_lists(&mut self.memory.lists, 1),
            Err(e) => Err(e),
        }
    }

    /// Adds a vacant list once there is room for it. Nothing is allocated, and without room nothing
    /// changes.
    fn grow_with(&mut self, room: Result<(), AllocError>) -> (result: Result<usize, AllocError>)
        requires
            old(self).wf(),
            room is Ok ==> old(self).can_grow(),
        ensures
            final(self).wf(),
            final(self).state() == old(self).state(),
            final(self).same_but_rows(*old(self)),
            final(self).heap().rows[0] == old(self).heap().rows[0],
            final(self).keeps_reserved(*old(self), -1),
            lists_limits(final(self).memory.lists)[0] == lists_limits(old(self).memory.lists)[0],
            room is Ok ==> {
                &&& result is Ok
                &&& result->Ok_0 == old(self).heap().rows.len()
                &&& final(self).heap() == old(self).heap().grow()
                &&& final(self).heap().is_batch(result->Ok_0 as int)
                &&& final(self).heap().kind(result->Ok_0 as int) == VACANT
            },
            room matches Err(e) ==> result == Err::<usize, AllocError>(e) && *final(self) == *old(
                self,
            ),
    {
        match room {
            Ok(()) => {},
            Err(e) => {
                return Err(e);
            },
        }
        let ghost h = self.heap();
        proof {
            lemma_grow(h, self.batch_size as nat);
        }
        let b: usize = list_count(&self.memory.lists);
        let _ = push_list(&mut self.memory.lists);
        let _ = push_row(&mut self.memory.lists, HEADERS, (VACANT, 0, 0, 0));
        proof {
            assert(self.heap() =~= h.grow());
            assert forall|u: int| #![trigger h.rows[0][u]] 0 <= u < h.slots() && h.rows[0][u].3 != 0 implies
                2 <= h.rows[0][u].3 < h.rows.len() by {
                reveal(Heap::linked);
            }
            lemma_keeps(*self, *old(self), -1);
            reveal(Heap::linked);
        }
        Ok(b)
    }

    /// Finds a list with space for an object to be retired on slot `t`, and makes sure that the slot
    /// can be used. Fails, with the state unchanged, if there is no memory for that.
    pub fn find_space(&mut self, t: usize) -> (result: Result<usize, AllocError>)
        requires
            old(self).wf(),
        ensures
            final(self).wf(),
            final(self).id() == old(self).id(),
            final(self).custom() == old(self).custom(),
            final(self).home() == old(self).home(),
            final(self).keeps_reserved(*old(self), -1),
            final(self).state() == old(self).state(),
            result matches Ok(l) ==> final(self).can_adopt(t as int, l as int),
            result is Ok ==> final(self).has_space(t as int),
            old(self).has_space(t as int) ==> result is Ok,
            old(self).reserved(t as int) ==> result is Ok,
            t == usize::MAX ==> result is Err,
            result is Err ==> old(self).space_refused(t as int) || (t == usize::MAX
                && old(self).state().slots() <= t),
    {
        let slot = self.reserve_slot(t);
        proof {
            lemma_same_rows_keep(*self, *old(self));
        }
        match slot {
            Ok(()) => {},
            Err(e) => {
                return Err(e);
            },
        }
        let slots: usize = row_count(&self.memory.lists, SLOTS);
        let mut l: usize = 0;
        if t < slots {
            let row: Row = row_at(&self.memory.lists, SLOTS, t);
            l = row.3;
        }
        if l == 0 {
            match self.vacant_list() {
                Ok(b) => {
                    l = b;
                },
                Err(e) => {
                    return Err(e);
                },
            }
        }
        let ghost mid = *self;
        proof {
            reveal(Heap::linked);
        }
        proof {
            if old(self).has_space(t as int) {
                let first = choose|l: int| #[trigger]
                    old(self).can_adopt(t as int, l) && chosen(old(self).heap(), t as int, l);
                assert(old(self).heap().kind(first) == mid.heap().kind(first));
                assert(old(self).heap().kind(l as int) == mid.heap().kind(l as int));
                assert(first == l);
                let past = lists_limits(old(self).memory.lists);
                assert(past.skip(1)[first - 1] == past[first]);
                assert(lists_limits(mid.memory.lists).skip(1)[first - 1] == past[first]);
            }
        }
        let result = more_rows(&mut self.memory.lists, l, 1);
        proof {
            lemma_keeps(*self, mid, -1);
            if result is Ok {
                assert(chosen(self.heap(), t as int, l as int));
                assert(self.can_adopt(t as int, l as int));
            } else {
                let h = old(self).heap();
                assert(rows_refused(mid.heap().rows, l, 1));
                if lacks_list(h, t as int) {
                    assert(mid.heap() == h.grow());
                } else {
                    assert(mid.heap() == h);
                    assert(chosen(h, t as int, l as int));
                }
            }
        }
        match result {
            Ok(()) => Ok(l),
            Err(e) => Err(e),
        }
    }

    /// Makes sure that the next object that is retired on slot `t` can be retired without
    /// allocating, once there is space for it. Nothing is allocated, and without space nothing
    /// changes.
    pub fn reserve_with(&mut self, t: usize, space: Result<usize, AllocError>) -> (result: Result<
        (),
        AllocError,
    >)
        requires
            old(self).wf(),
            space matches Ok(l) ==> old(self).can_adopt(t as int, l as int),
        ensures
            final(self).wf(),
            final(self).id() == old(self).id(),
            final(self).custom() == old(self).custom(),
            final(self).home() == old(self).home(),
            final(self).keeps_reserved(*old(self), -1),
            space is Ok ==> {
                &&& result is Ok
                &&& final(self).reserved(t as int)
                &&& final(self).state() == old(self).state().cover(t as int)
            },
            space matches Err(e) ==> result == Err::<(), AllocError>(e) && *final(self) == *old(
                self,
            ),
    {
        let l: usize = match space {
            Ok(l) => l,
            Err(e) => {
                return Err(e);
            },
        };
        let ghost n = self.batch_size as nat;
        let slots: usize = row_count(&self.memory.lists, SLOTS);
        if t >= slots {
            self.pad_to(t);
            proof {
                reveal(Heap::linked);
                assert forall|b: int| 1 <= b < old(self).heap().rows.len() implies #[trigger] self.heap().rows[b]
                    == old(self).heap().rows[b] by {
                    assert(self.heap().rows.skip(1)[b - 1] == old(self).heap().rows.skip(1)[b - 1]);
                }
                lemma_keeps(*self, *old(self), -1);
            }
        } else {
            assert(self.state() =~~= old(self).state().cover(t as int));
        }
        let row: Row = row_at(&self.memory.lists, SLOTS, t);
        if row.3 == 0 {
            let ghost h = self.heap();
            let ghost prev = *self;
            proof {
                reveal(Heap::linked);
                lemma_adopt(h, n, t as int, l as int);
            }
            set_row(&mut self.memory.lists, HEADERS, l, (LOCAL, 0, 0, 0));
            set_row(&mut self.memory.lists, SLOTS, t, (row.0, row.1, row.2, l));
            proof {
                assert(self.heap() =~= h.adopt(t as int, l as int));
                lemma_keeps(*self, prev, t as int);
            }
        }
        Ok(())
    }

    /// Makes sure that the next object that is retired on slot `t` can be retired without
    /// allocating. Fails, with nothing changed, if there is no memory for that.
    pub fn reserve(&mut self, t: usize) -> (result: Result<(), AllocError>)
        requires
            old(self).wf(),
        ensures
            final(self).wf(),
            final(self).id() == old(self).id(),
            final(self).custom() == old(self).custom(),
            final(self).home() == old(self).home(),
            final(self).keeps_reserved(*old(self), -1),
            result is Ok ==> final(self).reserved(t as int) && final(self).state() == old(
                self,
            ).state().cover(t as int),
            result is Err ==> final(self).state() == old(self).state(),
            old(self).has_space(t as int) ==> result is Ok,
            old(self).reserved(t as int) ==> result is Ok,
            t == usize::MAX ==> result is Err,
            result is Err ==> old(self).space_refused(t as int) || (t == usize::MAX
                && old(self).state().slots() <= t),
    {
        let space = self.find_space(t);
        self.reserve_with(t, space)
    }

    /// Retires an object on slot `t`, for which there is room. Nothing is allocated.
    pub fn retire_reserved(&mut self, t: usize, object: Retired)
        requires
            old(self).wf(),
            old(self).reserved(t as int),
        ensures
            final(self).wf(),
            final(self).id() == old(self).id(),
            final(self).custom() == old(self).custom(),
            final(self).home() == old(self).home(),
            final(self).keeps_reserved(*old(self), t as int),
            old(self).batch_id(t as int) >= 0,
            !old(self).state().batches.contains_key(old(self).batch_id(t as int)),
            final(self).state() == old(self).state().retire(
                t as int,
                object,
                old(self).batch_id(t as int),
            ),
    {
        let ghost h = self.heap();
        let ghost s = self.state();
        proof {
            lemma_append(h, self.batch_size as nat, t as int, object);
            reveal(Heap::linked);
            assert(h.rows[0][t as int].3 != 0);
        }
        let row: Row = row_at(&self.memory.lists, SLOTS, t);
        let _ = push_row(&mut self.memory.lists, row.3, (object.ptr, object.reclaim, 0, 0));
        proof {
            assert(self.heap() =~= h.append(t as int, object));
            lemma_keeps(*self, *old(self), t as int);
            assert(s.cover(t as int) =~~= s);
            assert(self.state() == s.add_local(t as int, object));
            assert(s.local[t as int] == h.local_items(t as int));
        }
        let len: usize = row_count(&self.memory.lists, row.3);
        if len >= self.batch_size {
            self.flush(t);
        }
    }

    /// Retires an object on slot `t`, once there is space for it. Nothing is allocated, and without
    /// space nothing changes.
    pub fn retire_with(
        &mut self,
        t: usize,
        object: Retired,
        reserved: Result<(), AllocError>,
    ) -> (result: Result<(), AllocError>)
        requires
            old(self).wf(),
            reserved is Ok ==> old(self).reserved(t as int),
        ensures
            final(self).wf(),
            final(self).id() == old(self).id(),
            final(self).custom() == old(self).custom(),
            final(self).home() == old(self).home(),
            final(self).keeps_reserved(*old(self), t as int),
            reserved is Ok ==> {
                &&& result is Ok
                &&& old(self).batch_id(t as int) >= 0
                &&& !old(self).state().batches.contains_key(old(self).batch_id(t as int))
                &&& final(self).state() == old(self).state().retire(
                    t as int,
                    object,
                    old(self).batch_id(t as int),
                )
            },
            reserved matches Err(e) ==> result == Err::<(), AllocError>(e) && *final(self) == *old(
                self,
            ),
    {
        match reserved {
            Ok(()) => {
                self.retire_reserved(t, object);
                Ok(())
            },
            Err(e) => Err(e),
        }
    }

    /// Retires an object on slot `t`. Fails, with nothing changed, if the object could only be
    /// retired by allocating and there is no memory for that.
    pub fn retire(&mut self, t: usize, object: Retired) -> (result: Result<(), AllocError>)
        requires
            old(self).wf(),
        ensures
            final(self).wf(),
            final(self).id() == old(self).id(),
            final(self).custom() == old(self).custom(),
            final(self).home() == old(self).home(),
            final(self).keeps_reserved(*old(self), t as int),
            result is Ok ==> old(self).state().retires_to(t as int, object, final(self).state()),
            result is Err ==> final(self).state() == old(self).state(),
            old(self).has_space(t as int) ==> result is Ok,
            old(self).reserved(t as int) ==> result is Ok,
            t == usize::MAX ==> result is Err,
            result is Err ==> old(self).space_refused(t as int) || (t == usize::MAX
                && old(self).state().slots() <= t),
    {
        let reserved = self.reserve(t);
        let ghost s = old(self).state();
        let ghost b = self.batch_id(t as int);
        proof {
            assert(s.cover(t as int).cover(t as int) =~~= s.cover(t as int));
        }
        let result = self.retire_with(t, object, reserved);
        proof {
            if result is Ok {
                assert(self.state() == s.retire(t as int, object, b));
            }
        }
        result
    }

    /// Makes everything that has been retired ready, while no guard is held. Nothing is allocated.
    pub fn reclaim_all(&mut self)
        requires
            old(self).wf(),
            old(self).state().active() == 0,
        ensures
            final(self).wf(),
            final(self).id() == old(self).id(),
            final(self).custom() == old(self).custom(),
            final(self).home() == old(self).home(),
            final(self).state() == old(self).state().reclaim_all(),
            forall|u: int| #[trigger]
                old(self).reserved(u) && old(self).state().local[u].len() == 0 ==> final(
                    self
                ).reserved(u),
    {
        let ghost s = self.state();
        let ghost n = self.batch_size as nat;
        let slots: usize = row_count(&self.memory.lists, SLOTS);
        let mut u: usize = 0;
        assert(self.state() =~~= reclaimed(s, 0));
        while u < slots
            invariant
                self.wf(),
                self.same_but_rows(*old(self)),
                n == self.batch_size as nat,
                slots == self.heap().slots(),
                slots == s.slots(),
                s.local.len() == s.slots(),
                u <= slots,
                s == old(self).state(),
                self.state() == reclaimed(s, u as int),
                forall|v: int| #[trigger]
                    old(self).reserved(v) && s.local[v].len() == 0 ==> self.reserved(v),
            decreases slots - u,
        {
            let ghost h = self.heap();
            let row: Row = row_at(&self.memory.lists, SLOTS, u);
            let l: usize = row.3;
            proof {
                assert(self.state().local[u as int] == h.local_items(u as int));
                assert(s.local[u as int] == h.local_items(u as int));
            }
            let mut len: usize = 0;
            if l != 0 {
                proof {
                    reveal(Heap::linked);
                }
                len = row_count(&self.memory.lists, l);
            }
            if len > 0 {
                let ghost before = *self;
                self.ready_local(u);
                assert forall|v: int| #[trigger] old(self).reserved(v) && s.local[v].len()
                    == 0 implies self.reserved(v) by {
                    assert(before.reserved(v));
                    self.law_reservations_are_kept(before, u as int, v);
                }
                assert(self.state() =~~= reclaimed(s, u as int + 1));
            } else {
                assert(s.local[u as int] =~= Seq::<Retired>::empty());
                assert(self.state() =~~= reclaimed(s, u as int + 1));
            }
            u = u + 1;
        }
        assert(self.state() =~~= s.reclaim_all());
    }

    /// Makes the local batch of slot `t`, which is not empty, ready.
    fn ready_local(&mut self, t: usize)
        requires
            old(self).wf(),
            t < old(self).heap().slots(),
            old(self).heap().local(t as int) != 0,
            old(self).heap().rows[old(self).heap().local(t as int)].len() > 0,
        ensures
            final(self).wf(),
            final(self).same_but_rows(*old(self)),
            final(self).heap().slots() == old(self).heap().slots(),
            final(self).keeps_reserved(*old(self), t as int),
            final(self).state() == (State {
                local: old(self).state().local.update(t as int, Seq::empty()),
                ready: old(self).state().ready + old(self).state().local[t as int],
                ..old(self).state()
            }),
    {
        let ghost s = self.state();
        let ghost h = self.heap();
        let ghost n = self.batch_size as nat;
        let row: Row = row_at(&self.memory.lists, SLOTS, t);
        let l: usize = row.3;
        proof {
            lemma_detach(h, n, t as int);
            reveal(Heap::linked);
        }
        set_row(&mut self.memory.lists, HEADERS, l, (RETIRED, 0, 0, 0));
        set_row(&mut self.memory.lists, SLOTS, t, (row.0, row.1, row.2, 0));
        let ghost d = h.detach(t as int);
        assert(self.heap() =~= d);
        proof {
            lemma_enqueue(d, n, l as int);
        }
        self.enqueue(l);
        proof {
            assert(s.batches.insert(l as int, s.local[t as int]).remove(l as int) =~= s.batches);
            assert forall|c: int| #![trigger self.heap().rows[1][c]]
                self.heap().is_batch(c) && self.heap().rows[1][c].0
                    == RETIRED implies self.heap().rows[1][c].1 > 0 by {
                assert(d.rows[1][c] == h.rows[1][c]);
            }
            lemma_keeps(*self, *old(self), t as int);
        }
    }

    /// Takes out the first object that may be reclaimed, if there is one. The caller reclaims it.
    pub fn take_ready(&mut self) -> (taken: Option<Retired>)
        requires
            old(self).wf(),
        ensures
            final(self).wf(),
            final(self).id() == old(self).id(),
            final(self).custom() == old(self).custom(),
            final(self).home() == old(self).home(),
            final(self).keeps_reserved(*old(self), -1),
            taken is None <==> old(self).state().ready.len() == 0,
            taken is None ==> final(self).state() == old(self).state(),
            taken matches Some(object) ==> object == old(self).state().ready[0] && final(
                self
            ).state() == old(self).state().take_ready(),
    {
        let ghost h = self.heap();
        let ghost n = self.batch_size as nat;
        proof {
            reveal(Heap::linked);
            if h.queue.len() > 0 {
                assert(h.queue[0] != 0);
            }
        }
        if self.head == 0 {
            return None;
        }
        let b: usize = self.head;
        assert(h.queue[0] == b);
        let header: Row = row_at(&self.memory.lists, HEADERS, b);
        let entry: Row = row_at(&self.memory.lists, b, header.2);
        let len: usize = row_count(&self.memory.lists, b);
        if header.2 + 1 < len {
            proof {
                lemma_advance(h, n);
            }
            set_row(&mut self.memory.lists, HEADERS, b, (header.0, header.1, header.2 + 1, header.3));
            assert(self.heap() =~= h.advance());
        } else {
            proof {
                lemma_dequeue(h, n);
            }
            set_row(&mut self.memory.lists, HEADERS, b, (VACANT, 0, 0, 0));
            empty_list(&mut self.memory.lists, b);
            self.head = header.3;
            if header.3 == 0 {
                self.tail = 0;
            }
            self.queue = Ghost(self.queue@.skip(1));
            assert(self.heap() =~= h.dequeue());
        }
        proof {
            lemma_keeps(*self, *old(self), -1);
        }
        Some(Retired { ptr: entry.0, reclaim: entry.1 })
    }
}

/// Some list is vacant.
spec fn has_vacant(h: Heap) -> bool {
    exists|b: int| h.is_batch(b) && #[trigger] h.kind(b) == VACANT
}

/// List `l` is the one for objects to be retired on slot `t`.
spec fn chosen(h: Heap, t: int, l: int) -> bool {
    if t < h.slots() && h.local(t) != 0 {
        l == h.local(t)
    } else {
        is_first_vacant(h, l)
    }
}

/// Slot `t` has no local batch, and no list is vacant.
spec fn lacks_list(h: Heap, t: int) -> bool {
    !(t < h.slots() && h.local(t) != 0) && !has_vacant(h)
}

/// List `b` is vacant, and no list before it is.
spec fn is_first_vacant(h: Heap, b: int) -> bool {
    &&& h.is_batch(b)
    &&& h.kind(b) == VACANT
    &&& forall|c: int| 2 <= c < b ==> #[trigger] h.kind(c) != VACANT
}

/// The rows of a collector without slots and batches.
spec fn bare() -> Seq<Seq<Row>> {
    seq![
        Seq::<Row>::empty(),
        seq![(VACANT, 0usize, 0usize, 0usize), (VACANT, 0usize, 0usize, 0usize)],
    ]
}

/// There are no slots and batches yet, and there is room for just so many slots.
pub closed spec fn laid_out(memory: DynAlloc<'_>, slots: nat) -> bool {
    &&& lists_rows(memory.lists) == bare()
    &&& lists_limits(memory.lists) == seq![slots, 2]
}

/// The allocator has refused space for the first lists, or for so many slots.
pub closed spec fn layout_refused(slots: usize) -> bool {
    ||| lists_refused(Seq::<Seq<Row>>::empty(), 2)
    ||| rows_refused(seq![Seq::<Row>::empty(), Seq::<Row>::empty()], HEADERS, 2)
    ||| rows_refused(bare(), SLOTS, slots)
}

/// Where the layout for a collector is said to be refused, the allocator has refused some request.
pub proof fn law_refused_layout_is_a_refusal(slots: usize)
    ensures
        layout_refused(slots) ==> refused(),
        // For the two lists that every collector has, for their two headers, or for the slots.
        layout_refused(slots) ==> lists_refused(Seq::<Seq<Row>>::empty(), 2) || exists|
            rows: Seq<Seq<Row>>,
            list: usize,
            additional: usize,
        | (additional == 2 || additional == slots) && #[trigger] rows_refused(rows, list, additional),
{
}

/// Makes room for the given number of slots in memory that is not in use. Whether there is memory
/// for that is up to the allocator.
pub fn lay_out<'a>(memory: &mut DynAlloc<'a>, slots: usize) -> (result: Result<(), AllocError>)
    requires
        old(memory).unused(),
    ensures
        final(memory).custom() == old(memory).custom(),
        final(memory).home() == old(memory).home(),
        result is Ok ==> laid_out(*final(memory), slots as nat),
        result is Err ==> layout_refused(slots),
{
    proof {
        memory.lemma_fields();
    }
    match more_lists(&mut memory.lists, 2) {
        Ok(()) => {},
        Err(e) => {
            proof {
                memory.lemma_fields();
            }
            return Err(e);
        },
    }
    let _ = push_list(&mut memory.lists);
    let _ = push_list(&mut memory.lists);
    assert(lists_rows(memory.lists) =~= seq![Seq::<Row>::empty(), Seq::<Row>::empty()]);
    match more_rows(&mut memory.lists, HEADERS, 2) {
        Ok(()) => {},
        Err(e) => {
            proof {
                memory.lemma_fields();
            }
            return Err(e);
        },
    }
    let _ = push_row(&mut memory.lists, HEADERS, (VACANT, 0, 0, 0));
    let _ = push_row(&mut memory.lists, HEADERS, (VACANT, 0, 0, 0));
    assert(lists_rows(memory.lists) =~~= bare());
    let result = more_rows(&mut memory.lists, SLOTS, slots);
    proof {
        memory.lemma_fields();
        if result is Ok {
            assert(lists_limits(memory.lists) =~= seq![slots as nat, 2]);
        }
    }
    result
}

/// The state once the local batches of the first `n` slots are ready.
spec fn reclaimed(s: State, n: int) -> State {
    State {
        local: Seq::new(
            s.local.len(),
            |u: int|
                if u < n {
                    Seq::empty()
                } else {
                    s.local[u]
                },
        ),
        ready: s.ready + joined(s.local, n),
        ..s
    }
}

/// Reserving slots takes no other reservation away.
proof fn lemma_same_rows_keep<'a>(new: Collector<'a>, prev: Collector<'a>)
    requires
        prev.sound(),
        new.sound(),
        new.heap() == prev.heap(),
        lists_limits(new.memory.lists).skip(1) == lists_limits(prev.memory.lists).skip(1),
    ensures
        new.keeps_reserved(prev, -1),
{
    reveal(Heap::linked);
    let now = lists_limits(new.memory.lists);
    let past = lists_limits(prev.memory.lists);
    assert forall|b: int| 1 <= b < past.len() implies #[trigger] now[b] == past[b] by {
        assert(now.skip(1)[b - 1] == now[b]);
        assert(past.skip(1)[b - 1] == past[b]);
    }
    lemma_keeps(new, prev, -1);
}

/// What can be retired without allocating depends on the local batches alone.
proof fn lemma_keeps<'a>(new: Collector<'a>, prev: Collector<'a>, t: int)
    requires
        prev.sound(),
        new.heap().slots() >= prev.heap().slots(),
        forall|u: int| #![trigger prev.heap().rows[0][u]]
            0 <= u < prev.heap().slots() && u != t ==> new.heap().rows[0][u].3
                == prev.heap().rows[0][u].3,
        forall|u: int| #![trigger prev.heap().rows[0][u]]
            0 <= u < prev.heap().slots() && u != t && prev.heap().rows[0][u].3 != 0
                ==> new.heap().rows[prev.heap().rows[0][u].3 as int].len()
                == prev.heap().rows[prev.heap().rows[0][u].3 as int].len() && lists_limits(
                new.memory.lists,
            )[prev.heap().rows[0][u].3 as int] >= lists_limits(
                prev.memory.lists,
            )[prev.heap().rows[0][u].3 as int],
    ensures
        new.keeps_reserved(prev, t),
{
    assert forall|u: int| u != t && #[trigger] prev.reserved(u) implies new.reserved(u) by {
        assert(prev.heap().rows[0][u].3 != 0);
    }
}

/// What waits for each slot once batch `b` has been handed to the first `n` slots.
spec fn handed(s: State, b: int, n: int) -> Seq<Seq<int>> {
    Seq::new(
        s.slots(),
        |u: int|
            if u < n && s.guards[u] > 0 {
                seq![b] + s.waiting[u]
            } else {
                s.waiting[u]
            },
    )
}

/// The count of positive numbers does not shrink.
proof fn lemma_positives(counts: Seq<nat>, m: int, n: int)
    requires
        0 <= m <= n <= counts.len(),
    ensures
        positives(counts, m) <= positives(counts, n),
    decreases n - m,
{
    if m < n {
        lemma_positives(counts, m, n - 1);
    }
}

/// A count of zero means that no number is positive.
proof fn lemma_positives_zero(counts: Seq<nat>, n: int)
    requires
        0 <= n <= counts.len(),
        positives(counts, n) == 0,
    ensures
        forall|i: int| 0 <= i < n ==> counts[i] == 0,
    decreases n,
{
    if n > 0 {
        lemma_positives_zero(counts, n - 1);
    }
}

/// Releasing one batch after another.
proof fn lemma_release_next(s: State, t: int, k: int)
    requires
        s.valid(),
        0 <= t < s.slots(),
        0 <= k < s.waiting[t].len(),
    ensures
        s.release_first(t, k + 1) == release_one(
            s.release_first(t, k),
            t,
            s.release_first(t, k).waits_only(t, s.release_first(t, k).waiting[t][0]),
        ),
{
    let r = s.release_first(t, k);
    let b = s.waiting[t][k];
    assert(s.waits(t, b));
    lemma_release_step(s, t, k);
    assert forall|v: int| v != t implies r.waits(v, b) == s.waits(v, b) by {}
    assert(r.waiting[t][0] == b);
    assert(r.waits(t, b));
    assert(r.waits_only(t, b) == s.waits_only(t, b));
}

/// The header of a batch that waits for slot `t` tells whether it waits for another.
proof fn lemma_only(h: Heap, n: nat, t: int, b: int)
    requires
        h.linked(),
        0 <= t < h.slots(),
        in_list(h.waiting[t], b),
    ensures
        h.state(n).waits_only(t, b) <==> h.rows[1][b].1 == 1,
{
    reveal(Heap::linked);
    let s = h.state(n);
    let k = choose|k: int| 0 <= k < h.waiting[t].len() && (#[trigger] h.waiting[t][k]).0 == b;
    assert(h.is_batch(h.waiting[t][k].0));
    lemma_waiters_only(h.waiting, t, b);
    assert forall|v: int| s.waits(v, b) <==> 0 <= v < h.slots() && in_list(h.waiting[v], b) by {
        lemma_waits(h, n, v, b);
    }
    if s.waits_only(t, b) {
        assert forall|v: int| 0 <= v < h.waiting.len() && in_list(#[trigger] h.waiting[v], b) implies v
            == t by {
            assert(s.waits(v, b));
        }
    }
}

/// What is released does not depend on the number of guards.
proof fn lemma_release_guards(s: State, t: int, n: int, guards: Seq<nat>)
    requires
        guards.len() == s.guards.len(),
    ensures
        (State { guards, ..s }).freed(t, n) == s.freed(t, n),
        (State { guards, ..s }).release_first(t, n) == (State { guards, ..s.release_first(t, n) }),
    decreases n,
{
    let r = State { guards, ..s };
    assert forall|b: int| r.waits_only(t, b) == s.waits_only(t, b) by {
        assert forall|u: int| r.waits(u, b) == s.waits(u, b) by {}
    }
    if n > 0 {
        lemma_release_guards(s, t, n - 1, guards);
    }
    assert(r.contents(r.freed(t, n)) =~= s.contents(s.freed(t, n)));
}

} // verus!
