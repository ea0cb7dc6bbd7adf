//! A bump allocator over a fixed arena.
//!
//! It never frees. The number of bytes in use is a single word, which threads change by comparing
//! and exchanging it: an [`attempt`](BumpAlloc::attempt) is made on a value that was seen before,
//! and is repeated with the current one if another thread was faster.
use vstd::prelude::*;

verus! {

/// The smallest multiple of `unit` that is not below `number`.
pub open spec fn round_up(number: int, unit: int) -> int {
    if number % unit == 0 {
        number
    } else {
        number + unit - number % unit
    }
}

/// What comes of an attempt to allocate.
#[derive(Clone, Copy, Debug, PartialEq, Eq)]
pub enum Attempt {
    /// The arena is exhausted.
    Null,
    /// The block starts here.
    Claimed(usize),
    /// The word has changed to this in between; try again.
    Retry(usize),
}

/// A bump allocator.
pub struct BumpAlloc {
    base: usize,
    capacity: usize,
    used: usize,
}

/// Where a block goes if `used` bytes are in use: its start and the bytes that are in use then.
/// There is none if the arena cannot hold it.
pub open spec fn placed(base: int, capacity: int, used: int, size: int, align: int) -> Option<
    (int, int),
> {
    let start = round_up(base + used, align);
    if start + size - base > capacity {
        None
    } else {
        Some((start, start + size - base))
    }
}

/// The addresses up to the end of the block can be computed.
pub open spec fn addressable(base: int, used: int, size: int, align: int) -> bool {
    &&& align > 0
    &&& round_up(base + used, align) + size <= usize::MAX
}

/// Where a block goes if `used` bytes are in use.
pub fn place(base: usize, capacity: usize, used: usize, size: usize, align: usize) -> (block: Option<
    (usize, usize),
>)
    requires
        addressable(base as int, used as int, size as int, align as int),
    ensures
        block is None <==> placed(
            base as int,
            capacity as int,
            used as int,
            size as int,
            align as int,
        ) is None,
        block matches Some((start, end)) ==> placed(
            base as int,
            capacity as int,
            used as int,
            size as int,
            align as int,
        ) == Some((start as int, end as int)),
{
    proof {
        lemma_round_up(base + used, align as int);
    }
    let first: usize = base + used;
    let over: usize = first % align;
    let start: usize = if over == 0 {
        first
    } else {
        first + (align - over)
    };
    let end: usize = start + size - base;
    if end > capacity {
        None
    } else {
        Some((start, end))
    }
}

impl BumpAlloc {
    /// Where the arena starts.
    pub closed spec fn base(self) -> int {
        self.base as int
    }

    /// The size of the arena.
    pub closed spec fn capacity(self) -> int {
        self.capacity as int
    }

    /// The number of bytes in use.
    pub closed spec fn used(self) -> int {
        self.used as int
    }

    /// The arena is in memory, and no more of it is in use than there is.
    pub open spec fn wf(self) -> bool {
        &&& 0 <= self.base()
        &&& 0 <= self.used() <= self.capacity()
        &&& self.base() + self.capacity() <= usize::MAX
    }

    /// Where a block would go.
    pub open spec fn placed(self, size: int, align: int) -> Option<(int, int)> {
        placed(self.base(), self.capacity(), self.used(), size, align)
    }

    /// An arena that is not in use.
    pub fn new(base: usize, capacity: usize) -> (alloc: BumpAlloc)
        requires
            base + capacity <= usize::MAX,
        ensures
            alloc.wf(),
            alloc.base() == base,
            alloc.capacity() == capacity,
            alloc.used() == 0,
    {
        BumpAlloc { base, capacity, used: 0 }
    }

    /// The number of bytes in use.
    pub fn load(&self) -> (used: usize)
        ensures
            used == self.used(),
    {
        self.used
    }

    /// Attempts to allocate a block, on the assumption that `seen` bytes are in use.
    pub fn attempt(&mut self, seen: usize, size: usize, align: usize) -> (result: Attempt)
        requires
            old(self).wf(),
            addressable(old(self).base(), seen as int, size as int, align as int),
        ensures
            final(self).wf(),
            final(self).base() == old(self).base(),
            final(self).capacity() == old(self).capacity(),
            match placed(
                old(self).base(),
                old(self).capacity(),
                seen as int,
                size as int,
                align as int,
            ) {
                None => result == Attempt::Null && final(self).used() == old(self).used(),
                Some((start, end)) => if old(self).used() == seen {
                    result == Attempt::Claimed(start as usize) && start <= usize::MAX && final(
                        self
                    ).used() == end
                } else {
                    result == Attempt::Retry(old(self).used() as usize) && final(self).used()
                        == old(self).used()
                },
            },
    {
        match place(self.base, self.capacity, seen, size, align) {
            None => Attempt::Null,
            Some((start, end)) => {
                proof {
                    lemma_round_up(self.base + seen, align as int);
                }
                if self.used == seen {
                    self.used = end;
                    Attempt::Claimed(start)
                } else {
                    Attempt::Retry(self.used)
                }
            },
        }
    }

    /// Allocates a block, if the arena can hold it.
    pub fn allocate(&mut self, size: usize, align: usize) -> (start: Option<usize>)
        requires
            old(self).wf(),
            addressable(old(self).base(), old(self).used(), size as int, align as int),
        ensures
            final(self).wf(),
            final(self).base() == old(self).base(),
            final(self).capacity() == old(self).capacity(),
            match old(self).placed(size as int, align as int) {
                None => start is None && final(self).used() == old(self).used(),
                Some((address, end)) => start is Some && start->0 == address && final(self).used()
                    == end,
            },
    {
        let seen: usize = self.used;
        match self.attempt(seen, size, align) {
            Attempt::Claimed(start) => Some(start),
            _ => None,
        }
    }
}

/// Rounding up gives the smallest multiple.
pub proof fn lemma_round_up(number: int, unit: int)
    requires
        0 <= number,
        unit > 0,
    ensures
        number <= round_up(number, unit) < number + unit,
        round_up(number, unit) % unit == 0,
{
    if number % unit != 0 {
        let q = number / unit;
        assert(number == unit * q + number % unit) by (nonlinear_arith)
            requires
                q == number / unit,
                unit > 0,
        ;
        assert(round_up(number, unit) == unit * (q + 1)) by (nonlinear_arith)
            requires
                number == unit * q + number % unit,
                round_up(number, unit) == number + unit - number % unit,
        ;
        assert((unit * (q + 1)) % unit == 0) by (nonlinear_arith)
            requires
                unit > 0,
        ;
        assert(0 <= number % unit < unit) by (nonlinear_arith)
            requires
                unit > 0,
        ;
    }
}

/// A block is aligned, lies in the arena, and starts past everything that was in use.
pub proof fn law_block_is_sound(
    base: int,
    capacity: int,
    used: int,
    size: int,
    align: int,
    start: int,
    end: int,
)
    requires
        0 <= base,
        0 <= used,
        0 <= size,
        align > 0,
        placed(base, capacity, used, size, align) == Some((start, end)),
    ensures
        start % align == 0,
        base + used <= start,
        start + size == base + end,
        base + end <= base + capacity,
        used <= end,
{
    lemma_round_up(base + used, align);
}

/// Each region is handed out at most once: a block that is allocated later, after any number of
/// others, starts where an earlier block ends or after that.
pub proof fn law_blocks_do_not_overlap(
    base: int,
    capacity: int,
    used: int,
    first: (int, int),
    first_size: int,
    first_align: int,
    later_used: int,
    later: (int, int),
    later_size: int,
    later_align: int,
)
    requires
        0 <= base,
        0 <= used,
        0 <= first_size,
        0 <= later_size,
        first_align > 0,
        later_align > 0,
        placed(base, capacity, used, first_size, first_align) == Some(first),
        first.1 <= later_used,
        placed(base, capacity, later_used, later_size, later_align) == Some(later),
    ensures
        first.0 + first_size <= later.0,
{
    lemma_round_up(base + used, first_align);
    lemma_round_up(base + later_used, later_align);
}

/// An arena that cannot hold a block never will: giving up on a value that was seen before is right,
/// since the number of bytes in use only grows.
pub proof fn law_exhaustion_is_final(
    base: int,
    capacity: int,
    seen: int,
    used: int,
    size: int,
    align: int,
)
    requires
        0 <= base,
        0 <= seen <= used,
        align > 0,
        placed(base, capacity, seen, size, align) is None,
    ensures
        placed(base, capacity, used, size, align) is None,
{
    let a = base + seen;
    let b = base + used;
    let ra = round_up(a, align);
    let rb = round_up(b, align);
    lemma_round_up(a, align);
    lemma_round_up(b, align);
    // `rb` is a multiple that is not below `a`, and less than one unit lies between `a` and `ra`.
    assert(ra <= rb) by (nonlinear_arith)
        requires
            ra % align == 0,
            rb % align == 0,
            align > 0,
            a <= b <= rb,
            ra < a + align,
    {
        let p = ra / align;
        let q = rb / align;
        assert(ra == align * p);
        assert(rb == align * q);
        if rb < ra {
            assert(q < p);
            assert(align * q + align <= align * p);
        }
    }
}

/// A block is placed as early as can be, and whenever it can be: its start is the first aligned address
/// past everything that is in use, and there is none only if a block that starts there would end past
/// the arena.
pub proof fn law_blocks_are_placed_tightly(
    base: int,
    capacity: int,
    used: int,
    size: int,
    align: int,
    address: int,
)
    requires
        0 <= base,
        0 <= used,
        0 <= size,
        align > 0,
        base + used <= address,
        address % align == 0,
    ensures
        placed(base, capacity, used, size, align) matches Some((start, end)) ==> start <= address
            && end == start + size - base,
        address + size <= base + capacity ==> placed(base, capacity, used, size, align) is Some,
{
    let number = base + used;
    let first = round_up(number, align);
    lemma_round_up(number, align);
    assert(first <= address) by (nonlinear_arith)
        requires
            first % align == 0,
            address % align == 0,
            align > 0,
            number <= address,
            first < number + align,
    {
        let p = first / align;
        let q = address / align;
        assert(first == align * p);
        assert(address == align * q);
        if address < first {
            assert(q < p);
            assert(align * q + align <= align * p);
        }
    }
}

} // verus!
