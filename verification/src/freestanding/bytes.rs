//! The operations on bytes that a C library would otherwise provide.
use vstd::prelude::*;

verus! {

/// Bytes with `n` of them, from `src` on, copied to `dest`.
pub open spec fn moved(bytes: Seq<u8>, dest: int, src: int, n: int) -> Seq<u8> {
    Seq::new(
        bytes.len(),
        |k: int|
            if dest <= k < dest + n {
                bytes[src + (k - dest)]
            } else {
                bytes[k]
            },
    )
}

/// The two differ at `k`, and not before.
pub open spec fn differ_first_at(a: Seq<u8>, b: Seq<u8>, k: int) -> bool {
    &&& 0 <= k < a.len()
    &&& k < b.len()
    &&& a[k] != b[k]
    &&& forall|j: int| 0 <= j < k ==> a[j] == b[j]
}

/// Copies bytes to memory that they do not overlap.
pub fn memcpy(dest: &mut [u8], src: &[u8])
    requires
        old(dest)@.len() == src@.len(),
    ensures
        final(dest)@ == src@,
{
    let n: usize = src.len();
    let mut i: usize = 0;
    while i < n
        invariant
            n == src@.len(),
            dest@.len() == n,
            i <= n,
            forall|k: int| 0 <= k < i ==> dest@[k] == src@[k],
        decreases n - i,
    {
        dest[i] = src[i];
        i = i + 1;
    }
    assert(dest@ =~= src@);
}

/// Copies `n` bytes within memory, from `src` on to `dest`. The two ranges may overlap.
pub fn memmove(bytes: &mut [u8], dest: usize, src: usize, n: usize)
    requires
        dest + n <= old(bytes)@.len(),
        src + n <= old(bytes)@.len(),
    ensures
        final(bytes)@ == moved(old(bytes)@, dest as int, src as int, n as int),
{
    let ghost before = bytes@;
    let len: usize = bytes.len();
    if dest < src {
        let mut i: usize = 0;
        while i < n
            invariant
                dest < src,
                src + n <= bytes@.len(),
                bytes@.len() == before.len(),
                before.len() == len,
                i <= n,
                forall|k: int| 0 <= k < bytes@.len() ==> bytes@[k] == moved(
                    before,
                    dest as int,
                    src as int,
                    i as int,
                )[k],
            decreases n - i,
        {
            bytes[dest + i] = bytes[src + i];
            i = i + 1;
        }
    } else {
        let mut i: usize = n;
        while i > 0
            invariant
                src <= dest,
                dest + n <= bytes@.len(),
                bytes@.len() == before.len(),
                before.len() == len,
                i <= n,
                forall|k: int| 0 <= k < bytes@.len() ==> bytes@[k] == moved(
                    before,
                    dest + i,
                    src + i,
                    n - i,
                )[k],
            decreases i,
        {
            i = i - 1;
            bytes[dest + i] = bytes[src + i];
        }
    }
    assert(bytes@ =~= moved(before, dest as int, src as int, n as int));
}

/// Sets every byte to the low eight bits of a number.
pub fn memset(dest: &mut [u8], byte: i32)
    ensures
        final(dest)@.len() == old(dest)@.len(),
        forall|k: int| 0 <= k < old(dest)@.len() ==> #[trigger] final(dest)@[k] == byte % 256,
{
    let n: usize = dest.len();
    let low: u8 = #[verifier::truncate] (byte as u8);
    assert(low == byte % 256) by (bit_vector)
        requires
            low == byte as u8,
    ;
    let mut i: usize = 0;
    while i < n
        invariant
            n == dest@.len(),
            n == old(dest)@.len(),
            i <= n,
            low == byte % 256,
            forall|k: int| 0 <= k < i ==> #[trigger] dest@[k] == low,
        decreases n - i,
    {
        dest[i] = low;
        i = i + 1;
    }
}

/// The difference of the first two bytes that differ, or zero.
fn first_difference(a: &[u8], b: &[u8]) -> (order: i32)
    requires
        a@.len() == b@.len(),
    ensures
        a@ == b@ ==> order == 0,
        a@ != b@ ==> exists|k: int| #[trigger]
            differ_first_at(a@, b@, k) && order == a@[k] - b@[k],
{
    let n: usize = a.len();
    let mut i: usize = 0;
    while i < n
        invariant
            n == a@.len(),
            n == b@.len(),
            i <= n,
            forall|k: int| 0 <= k < i ==> a@[k] == b@[k],
        decreases n - i,
    {
        let x: u8 = a[i];
        let y: u8 = b[i];
        if x != y {
            assert(differ_first_at(a@, b@, i as int));
            return x as i32 - y as i32;
        }
        i = i + 1;
    }
    assert(a@ =~= b@);
    0
}

/// Compares bytes: zero if they are the same, and else the difference of the first two that differ.
pub fn memcmp(a: &[u8], b: &[u8]) -> (order: i32)
    requires
        a@.len() == b@.len(),
    ensures
        a@ == b@ ==> order == 0,
        a@ != b@ ==> exists|k: int| #[trigger]
            differ_first_at(a@, b@, k) && order == a@[k] - b@[k],
{
    first_difference(a, b)
}

/// Compares bytes for equality, which zero stands for.
pub fn bcmp(a: &[u8], b: &[u8]) -> (order: i32)
    requires
        a@.len() == b@.len(),
    ensures
        order == 0 <==> a@ == b@,
        a@ != b@ ==> exists|k: int| #[trigger]
            differ_first_at(a@, b@, k) && order == a@[k] - b@[k],
{
    memcmp(a, b)
}

/// Moving bytes between ranges that do not overlap, and back again, restores what was moved.
pub proof fn law_move_there_and_back(bytes: Seq<u8>, dest: int, src: int, n: int)
    requires
        0 <= n,
        0 <= dest,
        0 <= src,
        dest + n <= bytes.len(),
        src + n <= bytes.len(),
        dest + n <= src || src + n <= dest,
    ensures
        moved(moved(bytes, dest, src, n), src, dest, n) == moved(bytes, dest, src, n),
        moved(bytes, dest, src, n).subrange(dest, dest + n) == bytes.subrange(src, src + n),
{
    assert(moved(moved(bytes, dest, src, n), src, dest, n) =~= moved(bytes, dest, src, n));
    assert(moved(bytes, dest, src, n).subrange(dest, dest + n) =~= bytes.subrange(src, src + n));
}

/// Moving copies each byte of the one range to its place in the other, as it was before, and leaves
/// every byte outside that range as it was.
pub proof fn law_move_copies_what_was_there(bytes: Seq<u8>, dest: int, src: int, n: int)
    requires
        0 <= n,
        0 <= dest,
        0 <= src,
        dest + n <= bytes.len(),
        src + n <= bytes.len(),
    ensures
        moved(bytes, dest, src, n) == bytes.take(dest) + bytes.subrange(src, src + n) + bytes.skip(
            dest + n,
        ),
{
    assert(moved(bytes, dest, src, n) =~= bytes.take(dest) + bytes.subrange(src, src + n)
        + bytes.skip(dest + n));
}

/// Bytes of the same length that are not the same differ first at one place: what is before it is the
/// same, and what is at it is not.
pub proof fn law_first_difference(a: Seq<u8>, b: Seq<u8>, k: int, j: int)
    requires
        a.len() == b.len(),
    ensures
        a != b ==> exists|i: int| differ_first_at(a, b, i),
        a == b ==> !differ_first_at(a, b, k),
        differ_first_at(a, b, k) <==> 0 <= k < a.len() && a[k] != b[k] && a.take(k) == b.take(k),
        differ_first_at(a, b, k) && differ_first_at(a, b, j) ==> k == j,
        differ_first_at(a, b, k) ==> differ_first_at(b, a, k),
{
    if a != b {
        if forall|i: int| 0 <= i < a.len() ==> a[i] == b[i] {
            assert(a =~= b);
        }
        let i = choose|i: int| 0 <= i < a.len() && a[i] != b[i];
        lemma_first_difference(a, b, i);
    }
    if 0 <= k < a.len() && a.take(k) == b.take(k) {
        assert forall|i: int| 0 <= i < k implies a[i] == b[i] by {
            assert(a.take(k)[i] == b.take(k)[i]);
        }
    }
    if differ_first_at(a, b, k) {
        assert(a.take(k) =~= b.take(k));
    }
}

/// Where two differ, they differ first at that place or before.
proof fn lemma_first_difference(a: Seq<u8>, b: Seq<u8>, k: int)
    requires
        a.len() == b.len(),
        0 <= k < a.len(),
        a[k] != b[k],
    ensures
        exists|i: int| differ_first_at(a, b, i),
    decreases k,
{
    if exists|j: int| 0 <= j < k && a[j] != b[j] {
        let j = choose|j: int| 0 <= j < k && a[j] != b[j];
        lemma_first_difference(a, b, j);
    } else {
        assert(differ_first_at(a, b, k));
    }
}

} // verus!
