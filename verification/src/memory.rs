//! The memory that a collector keeps its own records in.
//!
//! A collector allocates only for itself: for one record per thread slot and for the batches of
//! objects that wait to be reclaimed. All of it is taken from one [`Lists`], a growable list of
//! growable lists of [`Row`]s that lives in the allocator it was made with. Running out of memory
//! is an ordinary outcome, reported as [`AllocError`]; nothing here aborts.
//!
//! Objects that are retired through a collector are never allocated or freed here: a row only
//! holds the address of an object and of the function that reclaims it.
use vstd::prelude::*;

use allocator_api2::alloc::Allocator;
use allocator_api2::alloc::Global;
use allocator_api2::collections::TryReserveError;
use allocator_api2::vec::Vec as AllocVec;

verus! {

/// One record: four words whose meaning belongs to the list that holds it.
pub type Row = (usize, usize, usize, usize);

/// An allocation failed.
#[derive(Clone, Copy, Debug, PartialEq, Eq, Structural)]
pub struct AllocError;

/// The error of a failed reservation, opaque here.
#[verifier::external_type_specification]
#[verifier::external_body]
pub struct ExTryReserveError(TryReserveError);

/// A growable list of growable lists of rows, all in one allocator.
///
/// What it holds is [`lists_rows`]. How many rows each list is sure to take without asking the
/// allocator again is [`lists_limits`], and how many lists it is sure to take is [`lists_space`].
/// Which allocator it is in is [`lists_home`].
#[verifier::external_body]
pub struct Lists<'a> {
    lists: AllocVec<AllocVec<Row, &'a (dyn Allocator + Send + Sync)>, &'a (dyn Allocator + Send + Sync)>,
}

/// The rows of each list.
pub uninterp spec fn lists_rows(lists: Lists<'_>) -> Seq<Seq<Row>>;

/// For each list, the number of rows that it was made to hold: the largest number for which a
/// reservation has succeeded.
pub uninterp spec fn lists_limits(lists: Lists<'_>) -> Seq<nat>;

/// The number of lists that there was made space for: the largest number for which a reservation has
/// succeeded.
pub uninterp spec fn lists_space(lists: Lists<'_>) -> nat;

/// The allocator that the lists were made with and are in, as a number; that of
/// `allocator_api2::alloc::Global` is zero.
pub uninterp spec fn lists_home(lists: Lists<'_>) -> int;

/// `allocator_api2::vec::Vec::new_in` in `allocator_api2::alloc::Global`: no list yet, and nothing
/// allocated yet. What the allocator will do when asked is left unsaid.
#[verifier::external_body]
fn global_lists<'a>() -> (lists: Lists<'a>)
    ensures
        lists_rows(lists) == Seq::<Seq<Row>>::empty(),
        lists_limits(lists) == Seq::<nat>::empty(),
        lists_space(lists) == 0,
        lists_home(lists) == 0,
{
    Lists { lists: AllocVec::new_in(&Global) }
}

/// `allocator_api2::vec::Vec::new_in` in the given allocator: no list yet, and nothing allocated
/// yet. Which allocator it is, and what it will do when asked, is left unsaid.
#[verifier::external_body]
fn lists_in<'a, A: Allocator + Send + Sync>(alloc: &'a A) -> (lists: Lists<'a>)
    ensures
        lists_rows(lists) == Seq::<Seq<Row>>::empty(),
        lists_limits(lists) == Seq::<nat>::empty(),
        lists_space(lists) == 0,
{
    Lists { lists: AllocVec::new_in(alloc) }
}

/// `allocator_api2::vec::Vec::len` of the outer list: how many lists there are.
#[verifier::external_body]
pub(crate) fn list_count(lists: &Lists<'_>) -> (count: usize)
    ensures
        count == lists_rows(*lists).len(),
        count == lists_limits(*lists).len(),
{
    lists.lists.len()
}

/// `allocator_api2::vec::Vec::len` of one list: how many rows it holds.
#[verifier::external_body]
pub(crate) fn row_count(lists: &Lists<'_>, list: usize) -> (count: usize)
    requires
        list < lists_rows(*lists).len(),
    ensures
        count == lists_rows(*lists)[list as int].len(),
{
    lists.lists[list].len()
}

/// `allocator_api2::vec::Vec::index`: a copy of one row.
#[verifier::external_body]
pub(crate) fn row_at(lists: &Lists<'_>, list: usize, index: usize) -> (row: Row)
    requires
        list < lists_rows(*lists).len(),
        index < lists_rows(*lists)[list as int].len(),
    ensures
        row == lists_rows(*lists)[list as int][index as int],
{
    lists.lists[list][index]
}

/// `allocator_api2::vec::Vec::index_mut`: replaces one row and nothing else.
#[verifier::external_body]
pub(crate) fn set_row(lists: &mut Lists<'_>, list: usize, index: usize, row: Row)
    requires
        list < lists_rows(*old(lists)).len(),
        index < lists_rows(*old(lists))[list as int].len(),
    ensures
        lists_rows(*final(lists)) == lists_rows(*old(lists)).update(
            list as int,
            lists_rows(*old(lists))[list as int].update(index as int, row),
        ),
        lists_limits(*final(lists)) == lists_limits(*old(lists)),
        lists_space(*final(lists)) == lists_space(*old(lists)),
        lists_home(*final(lists)) == lists_home(*old(lists)),
{
    lists.lists[list][index] = row;
}

/// `allocator_api2::vec::Vec::try_reserve` on one list. No row changes. On success the list is
/// sure to take `additional` more rows; it succeeds at once where that was sure before. On
/// failure the list takes what it took before. Whether more memory is given is up to the
/// allocator.
#[verifier::external_body]
pub(crate) fn reserve_rows(lists: &mut Lists<'_>, list: usize, additional: usize) -> (result:
    Result<(), TryReserveError>)
    requires
        list < lists_rows(*old(lists)).len(),
    ensures
        lists_rows(*final(lists)) == lists_rows(*old(lists)),
        result is Ok ==> lists_limits(*final(lists)) == lists_limits(*old(lists)).update(
            list as int,
            raised(
                lists_limits(*old(lists))[list as int],
                lists_rows(*old(lists))[list as int].len() + additional as nat,
            ),
        ),
        result is Err ==> lists_limits(*final(lists)) == lists_limits(*old(lists)),
        lists_space(*final(lists)) == lists_space(*old(lists)),
        lists_home(*final(lists)) == lists_home(*old(lists)),
        lists_rows(*old(lists))[list as int].len() + additional <= lists_limits(
            *old(lists),
        )[list as int] ==> result is Ok,
{
    lists.lists[list].try_reserve(additional)
}

/// `allocator_api2::vec::Vec::push_within_capacity` on one list. The row goes to the end of the
/// list, or comes back with nothing changed; it never comes back while the list holds fewer rows
/// than it was made to hold.
#[verifier::external_body]
pub(crate) fn push_row(lists: &mut Lists<'_>, list: usize, row: Row) -> (result: Result<(), Row>)
    requires
        list < lists_rows(*old(lists)).len(),
    ensures
        result is Ok ==> lists_rows(*final(lists)) == lists_rows(*old(lists)).update(
            list as int,
            lists_rows(*old(lists))[list as int].push(row),
        ),
        result matches Err(back) ==> back == row && lists_rows(*final(lists)) == lists_rows(
            *old(lists),
        ),
        lists_limits(*final(lists)) == lists_limits(*old(lists)),
        lists_space(*final(lists)) == lists_space(*old(lists)),
        lists_home(*final(lists)) == lists_home(*old(lists)),
        lists_rows(*old(lists))[list as int].len() < lists_limits(*old(lists))[list as int]
            ==> result is Ok,
{
    lists.lists[list].push_within_capacity(row)
}

/// `allocator_api2::vec::Vec::try_reserve` on the outer list. No list changes. On success there is
/// sure to be space for `additional` more lists; it succeeds at once where that was sure before. On
/// failure there is the space that there was. Whether more memory is given is up to the allocator.
#[verifier::external_body]
pub(crate) fn reserve_lists(lists: &mut Lists<'_>, additional: usize) -> (result: Result<
    (),
    TryReserveError,
>)
    ensures
        lists_rows(*final(lists)) == lists_rows(*old(lists)),
        lists_limits(*final(lists)) == lists_limits(*old(lists)),
        result is Ok ==> lists_space(*final(lists)) == raised(
            lists_space(*old(lists)),
            lists_rows(*old(lists)).len() + additional as nat,
        ),
        result is Err ==> lists_space(*final(lists)) == lists_space(*old(lists)),
        lists_home(*final(lists)) == lists_home(*old(lists)),
        lists_rows(*old(lists)).len() + additional <= lists_space(*old(lists)) ==> result is Ok,
{
    lists.lists.try_reserve(additional)
}

/// `allocator_api2::vec::Vec::push_within_capacity` on the outer list, of a list from `new_in` in the
/// same allocator: an empty list at the end, or nothing changed. It says whether there is one more,
/// which is sure while there are fewer lists than there is space for.
#[verifier::external_body]
pub(crate) fn push_list(lists: &mut Lists<'_>) -> (pushed: bool)
    ensures
        pushed ==> lists_rows(*final(lists)) == lists_rows(*old(lists)).push(Seq::<Row>::empty())
            && lists_limits(*final(lists)) == lists_limits(*old(lists)).push(0),
        !pushed ==> lists_rows(*final(lists)) == lists_rows(*old(lists)) && lists_limits(
            *final(lists),
        ) == lists_limits(*old(lists)),
        lists_space(*final(lists)) == lists_space(*old(lists)),
        lists_home(*final(lists)) == lists_home(*old(lists)),
        lists_rows(*old(lists)).len() < lists_space(*old(lists)) ==> pushed,
{
    let list = AllocVec::new_in(*lists.lists.allocator());
    lists.lists.push_within_capacity(list).is_ok()
}

/// Puts a list from `allocator_api2::vec::Vec::new_in` in the place of a list, whose memory goes
/// back to the allocator as the list is dropped.
#[verifier::external_body]
pub(crate) fn empty_list(lists: &mut Lists<'_>, list: usize)
    requires
        list < lists_rows(*old(lists)).len(),
    ensures
        lists_rows(*final(lists)) == lists_rows(*old(lists)).update(
            list as int,
            Seq::<Row>::empty(),
        ),
        lists_limits(*final(lists)) == lists_limits(*old(lists)).update(list as int, 0),
        lists_space(*final(lists)) == lists_space(*old(lists)),
        lists_home(*final(lists)) == lists_home(*old(lists)),
{
    let alloc = *lists.lists.allocator();
    lists.lists[list] = AllocVec::new_in(alloc);
}

/// The allocator has refused a request for space for so many more rows in a list, where the lists
/// held `rows`.
pub closed spec fn rows_refused(rows: Seq<Seq<Row>>, list: usize, additional: usize) -> bool {
    exists|asked: &mut Lists<'_>, e: TryReserveError|
        lists_rows(*asked) == rows && #[trigger] call_ensures(
            reserve_rows,
            (asked, list, additional),
            Err::<(), TryReserveError>(e),
        )
}

/// The allocator has refused a request for space for so many more lists, where the lists held `rows`.
pub closed spec fn lists_refused(rows: Seq<Seq<Row>>, additional: usize) -> bool {
    exists|asked: &mut Lists<'_>, e: TryReserveError|
        lists_rows(*asked) == rows && #[trigger] call_ensures(
            reserve_lists,
            (asked, additional),
            Err::<(), TryReserveError>(e),
        )
}

/// The allocator has refused some request.
pub open spec fn refused() -> bool {
    ||| exists|rows: Seq<Seq<Row>>, list: usize, additional: usize| #[trigger]
        rows_refused(rows, list, additional)
    ||| exists|rows: Seq<Seq<Row>>, additional: usize| #[trigger] lists_refused(rows, additional)
}

/// A refusal is an answer of the allocator: a request for just so much space was made, where the lists
/// held just these rows, and it failed.
pub(crate) proof fn law_refusal_is_an_answer(
    rows: Seq<Seq<Row>>,
    list: usize,
    additional: usize,
)
    ensures
        rows_refused(rows, list, additional) ==> exists|asked: &mut Lists<'_>, e: TryReserveError|
            lists_rows(*asked) == rows && #[trigger] call_ensures(
                reserve_rows,
                (asked, list, additional),
                Err::<(), TryReserveError>(e),
            ),
        lists_refused(rows, additional) ==> exists|asked: &mut Lists<'_>, e: TryReserveError|
            lists_rows(*asked) == rows && #[trigger] call_ensures(
                reserve_lists,
                (asked, additional),
                Err::<(), TryReserveError>(e),
            ),
        refused() ==> (exists|asked: &mut Lists<'_>, l: usize, n: usize, e: TryReserveError| #[trigger]
            call_ensures(reserve_rows, (asked, l, n), Err::<(), TryReserveError>(e))) || (exists|
            asked: &mut Lists<'_>,
            n: usize,
            e: TryReserveError,
        | #[trigger] call_ensures(reserve_lists, (asked, n), Err::<(), TryReserveError>(e))),
{
}

/// Makes sure that a list takes so many more rows, unless the allocator refuses.
pub(crate) fn more_rows(lists: &mut Lists<'_>, list: usize, additional: usize) -> (result: Result<
    (),
    AllocError,
>)
    requires
        list < lists_rows(*old(lists)).len(),
    ensures
        lists_rows(*final(lists)) == lists_rows(*old(lists)),
        result is Ok ==> lists_limits(*final(lists)) == lists_limits(*old(lists)).update(
            list as int,
            raised(
                lists_limits(*old(lists))[list as int],
                lists_rows(*old(lists))[list as int].len() + additional as nat,
            ),
        ),
        result is Err ==> lists_limits(*final(lists)) == lists_limits(*old(lists)),
        lists_space(*final(lists)) == lists_space(*old(lists)),
        lists_home(*final(lists)) == lists_home(*old(lists)),
        lists_rows(*old(lists))[list as int].len() + additional <= lists_limits(
            *old(lists),
        )[list as int] ==> result is Ok,
        result is Err ==> rows_refused(lists_rows(*old(lists)), list, additional),
{
    let result = reserve_rows(lists, list, additional);
    assert(result is Err ==> result == Err::<(), TryReserveError>(result->Err_0));
    room(result)
}

/// Makes sure that there is space for so many more lists, unless the allocator refuses.
pub(crate) fn more_lists(lists: &mut Lists<'_>, additional: usize) -> (result: Result<
    (),
    AllocError,
>)
    ensures
        lists_rows(*final(lists)) == lists_rows(*old(lists)),
        lists_limits(*final(lists)) == lists_limits(*old(lists)),
        result is Ok ==> lists_space(*final(lists)) == raised(
            lists_space(*old(lists)),
            lists_rows(*old(lists)).len() + additional as nat,
        ),
        result is Err ==> lists_space(*final(lists)) == lists_space(*old(lists)),
        lists_home(*final(lists)) == lists_home(*old(lists)),
        lists_rows(*old(lists)).len() + additional <= lists_space(*old(lists)) ==> result is Ok,
        result is Err ==> lists_refused(lists_rows(*old(lists)), additional),
{
    let result = reserve_lists(lists, additional);
    assert(result is Err ==> result == Err::<(), TryReserveError>(result->Err_0));
    room(result)
}

/// What a reservation comes to: room, or an allocation failure.
pub fn room(reserved: Result<(), TryReserveError>) -> (result: Result<(), AllocError>)
    ensures
        reserved is Ok ==> result == Ok::<(), AllocError>(()),
        reserved is Err ==> result == Err::<(), AllocError>(AllocError),
{
    match reserved {
        Ok(()) => Ok(()),
        Err(_) => Err(AllocError),
    }
}

/// The larger of a limit and a new demand.
pub open spec fn raised(limit: nat, demand: nat) -> nat {
    if limit < demand {
        demand
    } else {
        limit
    }
}

/// A type-erased allocator, together with what has been allocated in it.
///
/// Erasing the allocator keeps it out of the signatures of everything that can reach a collector.
pub struct DynAlloc<'a> {
    pub(crate) lists: Lists<'a>,
    pub(crate) custom: bool,
}

impl<'a> DynAlloc<'a> {
    /// Whether the allocator was provided by the user, rather than the global one.
    pub closed spec fn custom(self) -> bool {
        self.custom
    }

    /// The allocator, as a number; that of the global one is zero.
    pub closed spec fn home(self) -> int {
        lists_home(self.lists)
    }

    /// Nothing has been allocated yet.
    pub closed spec fn unused(self) -> bool {
        &&& lists_rows(self.lists) == Seq::<Seq<Row>>::empty()
        &&& lists_limits(self.lists) == Seq::<nat>::empty()
        &&& lists_space(self.lists) == 0
    }

    /// What the fields say.
    pub(crate) proof fn lemma_fields(self)
        ensures
            self.custom() == self.custom,
            self.home() == lists_home(self.lists),
            self.unused() ==> lists_rows(self.lists) == Seq::<Seq<Row>>::empty() && lists_limits(
                self.lists,
            ) == Seq::<nat>::empty(),
    {
    }

    /// Erases the given allocator.
    pub fn new<A: Allocator + Send + Sync>(alloc: &'a A) -> (erased: DynAlloc<'a>)
        ensures
            erased.custom(),
            erased.unused(),
    {
        DynAlloc { lists: lists_in(alloc), custom: true }
    }

    /// The global allocator.
    pub fn global() -> (erased: DynAlloc<'a>)
        ensures
            !erased.custom(),
            erased.home() == 0,
            erased.unused(),
    {
        DynAlloc { lists: global_lists(), custom: false }
    }

    /// Whether the allocator was provided by the user, rather than the global one.
    pub fn is_custom(&self) -> (custom: bool)
        ensures
            custom == self.custom(),
    {
        self.custom
    }

    /// The allocator as text, for debugging.
    pub fn describe(&self) -> (text: &'static str)
        ensures
            text@ == if self.custom() {
                "Allocator { .. }"@
            } else {
                "Global"@
            },
    {
        if self.custom {
            "Allocator { .. }"
        } else {
            "Global"
        }
    }
}

/// A limit is raised to a demand, and never lowered.
pub proof fn law_raised(limit: nat, demand: nat)
    ensures
        raised(limit, demand) >= limit,
        raised(limit, demand) >= demand,
        raised(limit, demand) == limit || raised(limit, demand) == demand,
{
}

} // verus!
