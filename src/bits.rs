//! The bitmap that tracks which pages are free, from `bitmap_allocator`.
//!
//! The bitmap is opaque here: what it holds is named by [`free_bits`], the set
//! of indices currently marked free, and each operation used by the allocator
//! is a small wrapper whose contract speaks of that set.

use bitmap_allocator::BitAlloc;
use vstd::arithmetic::power2::pow2;
use vstd::prelude::*;
use vstd::set_lib::set_int_range;

verus! {

/// Number of bits in the bitmap (`BitAlloc1M::CAP`).
pub const BITMAP_CAP: usize = 0x10_0000;

/// The page bitmap, `bitmap_allocator::BitAlloc1M`, kept opaque: Verus does
/// not take a declaration of its generic type.
#[verifier::external_body]
pub struct PageBits {
    inner: bitmap_allocator::BitAlloc1M,
}

/// The indices that the bitmap currently holds as free.
pub uninterp spec fn free_bits(b: PageBits) -> Set<int>;

/// The indices `start, start + 1, ..., start + len - 1`.
pub open spec fn run(start: int, len: int) -> Set<int> {
    set_int_range(start, start + len)
}

/// A run of `size` free bits can be taken at `start`: `start` is a multiple of
/// `step`, the run ends within the capacity, and `step` does not exceed the
/// capacity.
pub open spec fn fits_at(free: Set<int>, start: int, size: int, step: int) -> bool {
    &&& 0 <= start
    &&& start % step == 0
    &&& step <= BITMAP_CAP
    &&& start + size <= BITMAP_CAP
    &&& run(start, size).subset_of(free)
}

/// Some run of `size` free bits starting at a multiple of `step` can be taken.
pub open spec fn fits_somewhere(free: Set<int>, size: int, step: int) -> bool {
    exists|s: int| #[trigger] fits_at(free, s, size, step)
}

/// Relies on `BitAlloc::DEFAULT`: every bit of the default bitmap is in use.
#[verifier::external_body]
pub(crate) fn bits_empty() -> (r: PageBits)
    ensures
        free_bits(r) == Set::<int>::empty(),
{
    PageBits { inner: <bitmap_allocator::BitAlloc1M as BitAlloc>::DEFAULT }
}

/// Relies on `BitAlloc::insert`: marks `start..end` free; it asserts that the
/// range is ordered and within the capacity.
#[verifier::external_body]
pub(crate) fn bits_insert(b: &mut PageBits, start: usize, end: usize)
    requires
        start < end <= BITMAP_CAP,
    ensures
        free_bits(*final(b)) == free_bits(*old(b)).union(run(start as int, end - start)),
{
    b.inner.insert(start..end)
}

/// Relies on `BitAlloc::alloc`: takes the lowest free bit out of the set, or
/// returns `None` when no bit is free.
#[verifier::external_body]
pub(crate) fn bits_alloc(b: &mut PageBits) -> (r: Option<usize>)
    ensures
        r is None <==> free_bits(*old(b)) == Set::<int>::empty(),
        r is None ==> free_bits(*final(b)) == free_bits(*old(b)),
        r matches Some(i) ==> free_bits(*old(b)).contains(i as int) && free_bits(*final(b))
            == free_bits(*old(b)).remove(i as int),
        r matches Some(i) ==> forall|j: int|
            #![trigger free_bits(*old(b)).contains(j)]
            free_bits(*old(b)).contains(j) ==> i <= j,
{
    b.inner.alloc()
}

/// Relies on `BitAlloc::alloc_contiguous`: with a hint, it takes exactly the
/// run at the hint when that run is aligned, free and within the capacity;
/// without one, it takes the first aligned free run (a first-fit search over
/// the whole bitmap). An alignment above the capacity is refused.
#[verifier::external_body]
pub(crate) fn bits_alloc_contiguous(
    b: &mut PageBits,
    hint: Option<usize>,
    size: usize,
    align_log2: usize,
) -> (r: Option<usize>)
    requires
        size >= 1,
    ensures
        r is None ==> free_bits(*final(b)) == free_bits(*old(b)),
        r matches Some(i) ==> {
            &&& i as int % pow2(align_log2 as nat) as int == 0
            &&& i + size <= BITMAP_CAP
            &&& run(i as int, size as int).subset_of(free_bits(*old(b)))
            &&& free_bits(*final(b)) == free_bits(*old(b)).difference(run(i as int, size as int))
        },
        r is Some ==> hint is None || r == hint,
        r matches Some(i) ==> hint is Some || forall|s: int|
            #![trigger fits_at(free_bits(*old(b)), s, size as int, pow2(align_log2 as nat) as int)]
            fits_at(free_bits(*old(b)), s, size as int, pow2(align_log2 as nat) as int) ==> i <= s,
        r is Some <==> match hint {
            Some(h) => fits_at(free_bits(*old(b)), h as int, size as int, pow2(align_log2 as nat) as int),
            None => fits_somewhere(free_bits(*old(b)), size as int, pow2(align_log2 as nat) as int),
        },
{
    b.inner.alloc_contiguous(hint, size, align_log2)
}

/// Relies on `BitAlloc::dealloc`: marks one bit free and reports whether it
/// was in use before. It indexes past the capacity with a panic.
#[verifier::external_body]
pub(crate) fn bits_dealloc(b: &mut PageBits, key: usize) -> (r: bool)
    requires
        key < BITMAP_CAP,
    ensures
        r == !free_bits(*old(b)).contains(key as int),
        free_bits(*final(b)) == free_bits(*old(b)).insert(key as int),
{
    b.inner.dealloc(key)
}

/// Relies on `BitAlloc::dealloc_contiguous`: frees the run and returns `true`
/// when the whole run lies within the capacity and is in use; otherwise it
/// returns `false`, having freed at most some part of the run.
#[verifier::external_body]
pub(crate) fn bits_dealloc_contiguous(
    b: &mut PageBits,
    base: usize,
    size: usize,
) -> (r: bool)
    requires
        size >= 1,
        base + size <= usize::MAX,
    ensures
        r <==> base + size <= BITMAP_CAP && forall|i: int|
            #![trigger free_bits(*old(b)).contains(i)]
            base <= i < base + size ==> !free_bits(*old(b)).contains(i),
        r ==> free_bits(*final(b)) == free_bits(*old(b)).union(run(base as int, size as int)),
        !r ==> free_bits(*old(b)).subset_of(free_bits(*final(b))) && free_bits(
            *final(b),
        ).subset_of(free_bits(*old(b)).union(run(base as int, size as int))),
{
    b.inner.dealloc_contiguous(base, size)
}

} // verus!
