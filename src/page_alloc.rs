//! The page allocator: address arithmetic and accounting over the page bitmap.
//!
//! Bitmap index `i` stands for the page at address `base + i * PAGE_SIZE`.
//! `base` is the managed range's start rounded down to [`MAX_ALIGN`], so for
//! any alignment `A <= MAX_ALIGN` an address is `A`-aligned exactly when its
//! index is a multiple of `A / PAGE_SIZE`. The indices below the first managed
//! page are never marked free.

use crate::align::{align_down, align_down_spec, align_up, align_up_spec, exact_log2, is_aligned};
use crate::bits::{
    bits_alloc, bits_alloc_contiguous, bits_dealloc, bits_dealloc_contiguous, bits_empty,
    bits_insert, fits_at, fits_somewhere, free_bits, run, PageBits, BITMAP_CAP,
};
use vstd::arithmetic::power2::{is_pow2, pow2};
use vstd::prelude::*;

verus! {

/// The largest alignment an allocation may ask for (1 GiB).
pub const MAX_ALIGN: usize = 0x4000_0000;

/// No run of `size` free bits at a multiple of `step` starts below `start`.
#[verifier::opaque]
pub open spec fn first_fit(free: Set<int>, start: int, size: int, step: int) -> bool {
    forall|s: int| #[trigger] fits_at(free, s, size, step) ==> start <= s
}

/// Why an allocation request failed.
#[derive(Debug, Clone, Copy, PartialEq, Eq, Structural)]
pub enum AllocError {
    /// A malformed request: a bad alignment, zero pages, or a misaligned address.
    InvalidParam,
    /// Not enough free pages, or no free run of the requested shape.
    NoMemory,
}

/// The result of an allocator operation.
pub type AllocResult<T> = Result<T, AllocError>;

/// A page-granularity allocator over one contiguous range, backed by a bitmap
/// with one bit per page. `PAGE_SIZE` must be a power of two.
pub struct BitmapPageAllocator<const PAGE_SIZE: usize> {
    base: usize,
    total_pages: usize,
    used_pages: usize,
    first: usize,
    initialized: bool,
    inner: PageBits,
}

impl<const PAGE_SIZE: usize> BitmapPageAllocator<PAGE_SIZE> {
    /// The address that bitmap index zero stands for.
    pub closed spec fn base_addr(&self) -> int {
        self.base as int
    }

    /// The number of pages under management.
    pub closed spec fn total(&self) -> int {
        self.total_pages as int
    }

    /// The number of pages currently handed out.
    pub closed spec fn used(&self) -> int {
        self.used_pages as int
    }

    /// The bitmap index of the first managed page.
    pub closed spec fn first_index(&self) -> int {
        self.first as int
    }

    /// Whether `init` has run.
    pub closed spec fn is_initialized(&self) -> bool {
        self.initialized
    }

    /// The bitmap indices of the pages that are free.
    pub closed spec fn free_pages(&self) -> Set<int> {
        free_bits(self.inner)
    }

    /// The number of pages that may still be allocated.
    pub open spec fn available(&self) -> int {
        self.total() - self.used()
    }

    /// The bitmap indices of the managed pages.
    pub open spec fn managed(&self) -> Set<int> {
        run(self.first_index(), self.total())
    }

    /// The address of the page at bitmap index `idx`.
    pub open spec fn addr_of(&self, idx: int) -> int {
        self.base_addr() + idx * PAGE_SIZE
    }

    /// The bitmap index of the page at address `addr`.
    pub open spec fn index_of(&self, addr: int) -> int {
        (addr - self.base_addr()) / PAGE_SIZE as int
    }

    /// Whether the two states agree on every field.
    pub open spec fn same_state(&self, other: &Self) -> bool {
        &&& self.base_addr() == other.base_addr()
        &&& self.total() == other.total()
        &&& self.used() == other.used()
        &&& self.first_index() == other.first_index()
        &&& self.is_initialized() == other.is_initialized()
        &&& self.free_pages() == other.free_pages()
    }

    /// The state of a fresh allocator, before `init`.
    pub open spec fn is_fresh(&self) -> bool {
        &&& !self.is_initialized()
        &&& self.base_addr() == 0
        &&& self.total() == 0
        &&& self.used() == 0
        &&& self.free_pages() == Set::<int>::empty()
    }

    /// The invariant of an initialised allocator.
    pub closed spec fn wf(&self) -> bool {
        &&& is_pow2(PAGE_SIZE as int)
        &&& self.base as int % MAX_ALIGN as int == 0
        &&& self.used_pages <= self.total_pages
        &&& self.first + self.total_pages <= BITMAP_CAP
        &&& self.base + (self.first + self.total_pages) * PAGE_SIZE <= usize::MAX
        &&& free_bits(self.inner).subset_of(run(self.first as int, self.total_pages as int))
        &&& free_bits(self.inner).len() + self.used_pages >= self.total_pages
    }

    /// The first page boundary at or above `start`.
    pub open spec fn page_start(start: int) -> int {
        align_up_spec(start, PAGE_SIZE as int)
    }

    /// The last page boundary at or below `start + size`.
    pub open spec fn page_end(start: int, size: int) -> int {
        align_down_spec(start + size, PAGE_SIZE as int)
    }

    /// The address that bitmap index zero stands for when the range starts
    /// at `start`.
    pub open spec fn base_for(start: int) -> int {
        align_down_spec(Self::page_start(start), MAX_ALIGN as int)
    }

    /// The range `[start, start + size)` holds whole pages in order (perhaps
    /// none), and the bitmap can index them all from the rounded-down base.
    pub open spec fn range_fits(start: int, size: int) -> bool {
        let s = Self::page_start(start);
        let e = Self::page_end(start, size);
        &&& s <= e
        &&& (s - Self::base_for(start)) / PAGE_SIZE as int + (e - s) / PAGE_SIZE as int
            <= BITMAP_CAP
    }

    /// `align` is a byte alignment that allocations accept: at most
    /// [`MAX_ALIGN`], a multiple of the page size, and a power of two in pages.
    pub open spec fn align_ok(align: int) -> bool {
        &&& align <= MAX_ALIGN
        &&& align % PAGE_SIZE as int == 0
        &&& is_pow2(align / PAGE_SIZE as int)
    }

    /// The result `r` of `alloc_pages(num_pages, align)` on `self`, leaving
    /// `post`.
    pub open spec fn alloc_pages_post(
        &self,
        post: &Self,
        num_pages: int,
        align: int,
        r: AllocResult<usize>,
    ) -> bool {
        let step = align / PAGE_SIZE as int;
        &&& post.wf()
        &&& (r == Err::<usize, AllocError>(AllocError::InvalidParam) <==> !Self::align_ok(align)
            || num_pages == 0)
        &&& Self::align_ok(align) && 0 < num_pages ==> {
            &&& num_pages > self.available() ==> r == Err::<usize, AllocError>(
                AllocError::NoMemory,
            )
            &&& num_pages == 1 <= self.available() && align == PAGE_SIZE ==> r is Ok
            &&& num_pages <= self.available() ==> (r is Ok <==> fits_somewhere(
                self.free_pages(),
                num_pages,
                step,
            ))
        }
        &&& r is Err ==> post.same_state(self)
        &&& r matches Ok(addr) ==> {
            let idx = self.index_of(addr as int);
            &&& addr == self.addr_of(idx)
            &&& addr as int % PAGE_SIZE as int == 0
            &&& addr as int % align == 0
            &&& run(idx, num_pages).subset_of(self.free_pages())
            &&& run(idx, num_pages).subset_of(self.managed())
            &&& first_fit(self.free_pages(), idx, num_pages, step)
            &&& post.free_pages() == self.free_pages().difference(run(idx, num_pages))
            &&& post.used() == self.used() + num_pages
            &&& post.total() == self.total()
            &&& post.base_addr() == self.base_addr()
            &&& post.first_index() == self.first_index()
            &&& post.is_initialized() == self.is_initialized()
        }
    }

    /// The result `r` of `alloc_pages_at(addr, num_pages, align)` on `self`,
    /// leaving `post`.
    pub open spec fn alloc_pages_at_post(
        &self,
        post: &Self,
        addr: int,
        num_pages: int,
        align: int,
        r: AllocResult<usize>,
    ) -> bool {
        let idx = self.index_of(addr);
        &&& post.wf()
        &&& (r == Err::<usize, AllocError>(AllocError::InvalidParam) <==> !Self::align_ok(align)
            || addr % align != 0 || num_pages == 0)
        &&& Self::align_ok(align) && addr % align == 0 && 0 < num_pages ==> (r is Ok <==> {
            &&& self.base_addr() <= addr
            &&& num_pages <= self.available()
            &&& fits_at(self.free_pages(), idx, num_pages, align / PAGE_SIZE as int)
        })
        &&& r is Err ==> r == Err::<usize, AllocError>(AllocError::InvalidParam) || r == Err::<
            usize,
            AllocError,
        >(AllocError::NoMemory)
        &&& r is Err ==> post.same_state(self)
        &&& r matches Ok(a) ==> {
            &&& a == addr
            &&& addr == self.addr_of(idx)
            &&& run(idx, num_pages).subset_of(self.free_pages())
            &&& run(idx, num_pages).subset_of(self.managed())
            &&& post.free_pages() == self.free_pages().difference(run(idx, num_pages))
            &&& post.used() == self.used() + num_pages
            &&& post.total() == self.total()
            &&& post.base_addr() == self.base_addr()
            &&& post.first_index() == self.first_index()
            &&& post.is_initialized() == self.is_initialized()
        }
    }

    /// The effect of `dealloc_pages(addr, num_pages)` on `self`, leaving
    /// `post`: a run inside the managed range is handed to the bitmap, and the
    /// count of used pages drops only when the whole run was in use; any
    /// other run changes nothing.
    pub open spec fn dealloc_pages_post(&self, post: &Self, addr: int, num_pages: int) -> bool {
        let target = run(self.index_of(addr), num_pages);
        let in_range = 0 < num_pages && self.base_addr() <= addr && target.subset_of(
            self.managed(),
        );
        let in_use = target.disjoint(self.free_pages());
        &&& post.wf()
        &&& post.total() == self.total()
        &&& post.base_addr() == self.base_addr()
        &&& post.first_index() == self.first_index()
        &&& post.is_initialized() == self.is_initialized()
        &&& !in_range ==> post.same_state(self)
        &&& in_range && in_use ==> {
            &&& post.used() == self.used() - num_pages
            &&& post.free_pages() == self.free_pages().union(target)
        }
        &&& in_range && !in_use ==> {
            &&& post.used() == self.used()
            &&& self.free_pages().subset_of(post.free_pages())
            &&& post.free_pages().subset_of(self.free_pages().union(target))
        }
    }

    proof fn lemma_wf_facts(&self)
        requires
            self.wf(),
        ensures
            PAGE_SIZE > 0,
            self.used() <= self.total(),
            self.managed().finite(),
            self.managed().len() == self.total(),
            self.free_pages().finite(),
            self.free_pages().len() <= self.total(),
    {
        vstd::arithmetic::power2::is_pow2_equiv(PAGE_SIZE as int);
        let i = choose|i: nat| vstd::arithmetic::power::pow(2, i) == PAGE_SIZE;
        vstd::arithmetic::power::lemma_pow_positive(2, i);
        vstd::set_lib::lemma_int_range(self.first as int, self.first + self.total_pages);
        vstd::set_lib::lemma_len_subset(free_bits(self.inner), self.managed());
    }

    /// A run of pages inside the managed range has addresses that fit, and
    /// each address maps back to its index.
    proof fn lemma_run_addr(&self, idx: int, n: int)
        requires
            self.wf(),
            n >= 1,
            run(idx, n).subset_of(self.managed()),
        ensures
            self.first_index() <= idx,
            idx + n <= self.first_index() + self.total(),
            self.addr_of(idx) + n * PAGE_SIZE <= usize::MAX,
            self.index_of(self.addr_of(idx)) == idx,
    {
        self.lemma_wf_facts();
        assert(run(idx, n).contains(idx));
        assert(run(idx, n).contains(idx + n - 1));
        let p = PAGE_SIZE as int;
        vstd::arithmetic::mul::lemma_mul_inequality(idx + n, self.first + self.total_pages, p);
        assert(self.base + idx * p + n * p == self.base + (idx + n) * p) by (nonlinear_arith);
        vstd::arithmetic::div_mod::lemma_div_by_multiple(idx, p);
    }

    /// Under a valid alignment, an index that is a multiple of the alignment
    /// in pages has an address that is a multiple of the alignment.
    proof fn lemma_aligned_addr(&self, idx: int, align: int)
        requires
            self.wf(),
            Self::align_ok(align),
            idx >= 0,
            idx % (align / PAGE_SIZE as int) == 0,
        ensures
            align > 0,
            self.addr_of(idx) % align == 0,
    {
        self.lemma_wf_facts();
        let p = PAGE_SIZE as int;
        let step = align / p;
        vstd::arithmetic::div_mod::lemma_fundamental_div_mod(align, p);
        assert(align == p * step);
        vstd::arithmetic::power2::is_pow2_equiv(step);
        let k = choose|k: nat| vstd::arithmetic::power::pow(2, k) == step;
        vstd::arithmetic::power::lemma_pow_positive(2, k);
        crate::align::lemma_pow2_mul(p, k);
        assert(step > 0);
        assert(align > 0) by (nonlinear_arith)
            requires
                align == p * step,
                p > 0,
                step > 0,
        ;
        vstd::arithmetic::power2::lemma2_to64();
        vstd::arithmetic::power::lemma_pow_positive(2, 30);
        vstd::arithmetic::power2::is_pow2_equiv(MAX_ALIGN as int);
        assert(vstd::arithmetic::power::pow(2, 30) == MAX_ALIGN);
        crate::align::lemma_pow2_divides(align, MAX_ALIGN as int);
        let m = MAX_ALIGN as int / align;
        vstd::arithmetic::div_mod::lemma_fundamental_div_mod(MAX_ALIGN as int, align);
        assert(m > 0) by (nonlinear_arith)
            requires
                MAX_ALIGN as int == align * m,
                align > 0,
        ;
        vstd::arithmetic::div_mod::lemma_mod_mod(self.base as int, align, m);
        crate::align::lemma_index_alignment(self.base as int, idx, p, step, align);
    }

    /// Creates an empty allocator that manages no pages.
    pub fn new() -> (r: Self)
        ensures
            r.is_fresh(),
            is_pow2(PAGE_SIZE as int) ==> r.wf(),
    {
        BitmapPageAllocator {
            base: 0,
            total_pages: 0,
            used_pages: 0,
            first: 0,
            initialized: false,
            inner: bits_empty(),
        }
    }

    /// Takes the range `[start, start + size)` under management: the whole
    /// pages within it become free, and index zero of the bitmap is set to
    /// the range's first page boundary rounded down to [`MAX_ALIGN`].
    pub fn init(&mut self, start: usize, size: usize)
        requires
            old(self).is_fresh(),
            is_pow2(PAGE_SIZE as int),
            start + size <= usize::MAX,
            Self::range_fits(start as int, size as int),
        ensures
            final(self).wf(),
            final(self).total() == (Self::page_end(start as int, size as int) - Self::page_start(
                start as int,
            )) / PAGE_SIZE as int,
            final(self).used() == 0,
            final(self).is_initialized(),
            final(self).base_addr() == Self::base_for(start as int),
            final(self).base_addr() % MAX_ALIGN as int == 0,
            final(self).first_index() == (Self::page_start(start as int) - Self::base_for(
                start as int,
            )) / PAGE_SIZE as int,
            final(self).free_pages() == final(self).managed(),
    {
        proof {
            vstd::arithmetic::power2::is_pow2_equiv(PAGE_SIZE as int);
            let i = choose|i: nat| vstd::arithmetic::power::pow(2, i) == PAGE_SIZE;
            vstd::arithmetic::power::lemma_pow_positive(2, i);
            crate::align::lemma_align_down((start + size) as int, PAGE_SIZE as int);
            crate::align::lemma_align_up(start as int, PAGE_SIZE as int);
        }
        let end = align_down(start + size, PAGE_SIZE);
        let first_page = align_up(start, PAGE_SIZE);
        let total = (end - first_page) / PAGE_SIZE;
        proof {
            crate::align::lemma_align_down(first_page as int, MAX_ALIGN as int);
        }
        let base = align_down(first_page, MAX_ALIGN);
        let first = (first_page - base) / PAGE_SIZE;
        proof {
            let p = PAGE_SIZE as int;
            vstd::arithmetic::div_mod::lemma_fundamental_div_mod((end - first_page) as int, p);
            vstd::arithmetic::div_mod::lemma_fundamental_div_mod((first_page - base) as int, p);
            vstd::arithmetic::div_mod::lemma_mod_bound((end - first_page) as int, p);
            vstd::arithmetic::div_mod::lemma_mod_bound((first_page - base) as int, p);
            assert(base + (first + total) * p <= end) by (nonlinear_arith)
                requires
                    (end - first_page) as int == p * total + (end - first_page) as int % p,
                    (first_page - base) as int == p * first + (first_page - base) as int % p,
                    (end - first_page) as int % p >= 0,
                    (first_page - base) as int % p >= 0,
            ;
        }
        self.total_pages = total;
        self.base = base;
        self.first = first;
        self.initialized = true;
        if total > 0 {
            bits_insert(&mut self.inner, first, first + total);
        }
        proof {
            vstd::set_lib::lemma_int_range(first as int, first + total);
            assert(free_bits(self.inner) =~= run(first as int, total as int));
        }
    }

    /// Allocates `num_pages` contiguous pages whose address is a multiple of
    /// `align_pow2`, and returns that address: the first free run at a
    /// suitable index. A single page at page alignment is the lowest free page.
    pub fn alloc_pages(&mut self, num_pages: usize, align_pow2: usize) -> (r: AllocResult<usize>)
        requires
            old(self).wf(),
        ensures
            old(self).alloc_pages_post(final(self), num_pages as int, align_pow2 as int, r),
    {
        proof {
            self.lemma_wf_facts();
        }
        let ghost pre = *self;
        if align_pow2 > MAX_ALIGN || !is_aligned(align_pow2, PAGE_SIZE) {
            return Err(AllocError::InvalidParam);
        }
        let align_pages = align_pow2 / PAGE_SIZE;
        let align_log2 = match exact_log2(align_pages) {
            Some(k) => k,
            None => {
                return Err(AllocError::InvalidParam);
            },
        };
        if num_pages == 0 {
            return Err(AllocError::InvalidParam);
        }
        if num_pages > self.available_pages() {
            return Err(AllocError::NoMemory);
        }
        proof {
            vstd::arithmetic::div_mod::lemma_div_by_multiple(1, PAGE_SIZE as int);
            assert(align_pow2 == PAGE_SIZE ==> align_pages == 1);
        }
        let found = if num_pages == 1 && align_pages == 1 {
            proof {
                if free_bits(self.inner) == Set::<int>::empty() {
                    assert(free_bits(self.inner).len() == 0);
                }
            }
            bits_alloc(&mut self.inner)
        } else {
            bits_alloc_contiguous(&mut self.inner, None, num_pages, align_log2)
        };
        match found {
            Some(idx) => {
                proof {
                    let n = num_pages as int;
                    let free = free_bits(pre.inner);
                    if num_pages == 1 && align_pages == 1 {
                        assert(free.remove(idx as int) =~= free.difference(run(idx as int, 1)));
                        assert(run(idx as int, 1).subset_of(free));
                        assert(free.contains(idx as int));
                        assert(pre.managed().contains(idx as int));
                        assert(fits_at(free, idx as int, 1, 1));
                    }
                    assert(run(idx as int, n).subset_of(free));
                    pre.lemma_run_addr(idx as int, n);
                    vstd::set_lib::lemma_int_range(idx as int, idx + n);
                    vstd::set_lib::lemma_set_difference_len(free, run(idx as int, n));
                    assert(free.intersect(run(idx as int, n)) =~= run(idx as int, n));
                    {
                        let p = PAGE_SIZE as int;
                        let step = align_pow2 as int / p;
                        reveal(is_pow2);
                        vstd::arithmetic::div_mod::lemma_fundamental_div_mod(align_pow2 as int, p);
                        assert(p <= align_pow2) by (nonlinear_arith)
                            requires
                                align_pow2 == p * step,
                                step > 0,
                                p > 0,
                        ;
                        vstd::arithmetic::div_mod::lemma_div_by_multiple(1, p);
                        vstd::arithmetic::div_mod::lemma_mod_self_0(p);
                        assert(is_pow2(p / p));
                        assert(idx as int % (p / p) == 0);
                        pre.lemma_aligned_addr(idx as int, p);
                    }
                    pre.lemma_aligned_addr(idx as int, align_pow2 as int);
                    let step = align_pow2 as int / PAGE_SIZE as int;
                    let addr = pre.addr_of(idx as int);
                    assert(pre.index_of(addr) == idx);
                    assert(fits_at(pre.free_pages(), idx as int, n, step));
                    assert(fits_somewhere(pre.free_pages(), n, step));
                    reveal(first_fit);
                    assert forall|s: int| #[trigger]
                        fits_at(pre.free_pages(), s, n, step) implies pre.index_of(addr) <= s by {
                        if num_pages == 1 && align_pages == 1 {
                            assert(run(s, 1).contains(s));
                        } else {
                            assert(fits_at(free, s, n, pow2(align_log2 as nat) as int));
                        }
                    }
                }
                self.used_pages = self.used_pages + num_pages;
                Ok(idx * PAGE_SIZE + self.base)
            },
            None => Err(AllocError::NoMemory),
        }
    }

    /// Allocates the `num_pages` pages that start at `addr`, which must be a
    /// multiple of `align_pow2`, and returns `addr`.
    pub fn alloc_pages_at(&mut self, addr: usize, num_pages: usize, align_pow2: usize) -> (r:
        AllocResult<usize>)
        requires
            old(self).wf(),
        ensures
            old(self).alloc_pages_at_post(
                final(self),
                addr as int,
                num_pages as int,
                align_pow2 as int,
                r,
            ),
    {
        proof {
            self.lemma_wf_facts();
            reveal(is_pow2);
        }
        let ghost pre = *self;
        if align_pow2 > MAX_ALIGN || !is_aligned(align_pow2, PAGE_SIZE) || align_pow2 == 0 {
            return Err(AllocError::InvalidParam);
        }
        if !is_aligned(addr, align_pow2) {
            return Err(AllocError::InvalidParam);
        }
        let align_pages = align_pow2 / PAGE_SIZE;
        let align_log2 = match exact_log2(align_pages) {
            Some(k) => k,
            None => {
                return Err(AllocError::InvalidParam);
            },
        };
        if num_pages == 0 {
            return Err(AllocError::InvalidParam);
        }
        if addr < self.base {
            return Err(AllocError::NoMemory);
        }
        let idx = (addr - self.base) / PAGE_SIZE;
        if num_pages > self.available_pages() {
            return Err(AllocError::NoMemory);
        }
        let found = bits_alloc_contiguous(&mut self.inner, Some(idx), num_pages, align_log2);
        match found {
            Some(i) => {
                proof {
                    let n = num_pages as int;
                    let free = free_bits(pre.inner);
                    let p = PAGE_SIZE as int;
                    vstd::set_lib::lemma_int_range(idx as int, idx + n);
                    vstd::set_lib::lemma_set_difference_len(free, run(idx as int, n));
                    assert(free.intersect(run(idx as int, n)) =~= run(idx as int, n));
                    assert(idx as int % (align_pow2 as int / p) == 0) by {
                        assert(fits_at(free, idx as int, n, align_pages as int));
                    }
                    vstd::arithmetic::mul::lemma_mul_is_commutative(idx as int, 0);
                    pre.lemma_aligned_addr(0, align_pow2 as int);
                    vstd::arithmetic::div_mod::lemma_mod_multiples_basic(align_pages as int, p);
                    assert(align_pow2 as int == align_pages * p) by {
                        vstd::arithmetic::div_mod::lemma_fundamental_div_mod(align_pow2 as int, p);
                    }
                    crate::align::lemma_sub_aligned(
                        addr as int,
                        self.base as int,
                        align_pow2 as int,
                        p,
                    );
                }
                self.used_pages = self.used_pages + num_pages;
                Ok(addr)
            },
            None => Err(AllocError::NoMemory),
        }
    }

    /// Frees the `num_pages` pages that start at `pos`, which must be
    /// page-aligned. The count of used pages drops only when the bitmap
    /// confirms that the whole run was in use, so a double free does not
    /// corrupt it. A run that reaches outside the managed range is ignored.
    pub fn dealloc_pages(&mut self, pos: usize, num_pages: usize)
        requires
            old(self).wf(),
            pos as int % PAGE_SIZE as int == 0,
        ensures
            old(self).dealloc_pages_post(final(self), pos as int, num_pages as int),
    {
        proof {
            self.lemma_wf_facts();
        }
        let ghost pre = *self;
        if num_pages == 0 || pos < self.base {
            return;
        }
        let idx = (pos - self.base) / PAGE_SIZE;
        let end = self.first + self.total_pages;
        if idx < self.first || idx > end || num_pages > end - idx {
            proof {
                let target = run(idx as int, num_pages as int);
                if idx < self.first {
                    assert(target.contains(idx as int));
                } else {
                    assert(target.contains(idx + num_pages - 1));
                }
            }
            return;
        }
        let freed = if num_pages == 1 {
            bits_dealloc(&mut self.inner, idx)
        } else {
            bits_dealloc_contiguous(&mut self.inner, idx, num_pages)
        };
        proof {
            let n = num_pages as int;
            let free = free_bits(pre.inner);
            let post = free_bits(self.inner);
            let target = run(idx as int, n);
            let managed = pre.managed();
            vstd::set_lib::lemma_int_range(idx as int, idx + n);
            assert(target.subset_of(managed));
            if n == 1 {
                assert(free.insert(idx as int) =~= free.union(target));
                assert(target.disjoint(free) == !free.contains(idx as int)) by {
                    assert(target.contains(idx as int));
                }
            } else {
                assert(target.disjoint(free) == forall|i: int|
                    #![trigger free.contains(i)]
                    idx <= i < idx + n ==> !free.contains(i));
            }
            if target.disjoint(free) {
                assert(free.subset_of(managed.difference(target)));
                vstd::set_lib::lemma_set_difference_len(managed, target);
                assert(managed.intersect(target) =~= target);
                vstd::set_lib::lemma_len_subset(free, managed.difference(target));
                vstd::set_lib::lemma_set_disjoint_lens(free, target);
            } else {
                vstd::set_lib::lemma_len_subset(post, managed);
                vstd::set_lib::lemma_len_subset(free, post);
            }
        }
        if freed {
            self.used_pages = self.used_pages - num_pages;
        }
    }

    /// Further ranges cannot be added after `init`: this always fails.
    pub fn add_memory(&mut self, start: usize, size: usize) -> (r: AllocResult<()>)
        ensures
            r == Err::<(), AllocError>(AllocError::NoMemory),
            *final(self) == *old(self),
    {
        Err(AllocError::NoMemory)
    }

    /// The total number of managed pages.
    pub fn total_pages(&self) -> (r: usize)
        ensures
            r == self.total(),
    {
        self.total_pages
    }

    /// The number of pages currently allocated.
    pub fn used_pages(&self) -> (r: usize)
        ensures
            r == self.used(),
    {
        self.used_pages
    }

    /// The number of pages that may still be allocated.
    pub fn available_pages(&self) -> (r: usize)
        requires
            self.used() <= self.total(),
        ensures
            r == self.available(),
    {
        self.total_pages - self.used_pages
    }
    /// The available and used pages together make up all managed pages, in
    /// a fresh allocator and in an initialised one.
    pub proof fn lemma_pages_partition(a: &Self)
        requires
            a.wf() || a.is_fresh(),
        ensures
            0 <= a.used() <= a.total(),
            a.available() + a.used() == a.total(),
    {
    }

    /// The free pages all lie in the managed range.
    pub proof fn lemma_free_in_managed(a: &Self)
        requires
            a.wf(),
        ensures
            a.free_pages().subset_of(a.managed()),
    {
    }

    /// Freeing what `alloc_pages` returned, with the same page count, brings
    /// the used and available counts back to what they were before.
    pub proof fn lemma_alloc_dealloc_restores(
        a0: &Self,
        a1: &Self,
        a2: &Self,
        num_pages: usize,
        align: usize,
        r: AllocResult<usize>,
    )
        requires
            a0.wf(),
            a0.alloc_pages_post(a1, num_pages as int, align as int, r),
            r is Ok,
            a1.dealloc_pages_post(a2, r->Ok_0 as int, num_pages as int),
        ensures
            a2.used() == a0.used(),
            a2.available() == a0.available(),
    {
        let addr = r->Ok_0 as int;
        let idx = a0.index_of(addr);
        let n = num_pages as int;
        assert(a1.index_of(addr) == idx);
        assert(run(idx, n).contains(idx));
        assert(run(idx, n).subset_of(a1.managed()));
        assert(a0.base_addr() <= addr) by (nonlinear_arith)
            requires
                addr == a0.base_addr() + idx * PAGE_SIZE,
                idx >= 0,
        ;
        assert(run(idx, n).disjoint(a1.free_pages()));
    }

    /// A successful `alloc_pages` returns a multiple of the requested
    /// alignment.
    pub proof fn lemma_alloc_aligned(
        a0: &Self,
        a1: &Self,
        num_pages: usize,
        align: usize,
        r: AllocResult<usize>,
    )
        requires
            a0.alloc_pages_post(a1, num_pages as int, align as int, r),
            r is Ok,
        ensures
            r->Ok_0 as int % align as int == 0,
    {
    }

    /// Asking `alloc_pages` for more pages than are available, at a valid
    /// alignment, fails with `NoMemory` and leaves the allocator as it was.
    pub proof fn lemma_alloc_beyond_available(
        a0: &Self,
        a1: &Self,
        num_pages: usize,
        align: usize,
        r: AllocResult<usize>,
    )
        requires
            a0.alloc_pages_post(a1, num_pages as int, align as int, r),
            Self::align_ok(align as int),
            num_pages > a0.available(),
        ensures
            r == Err::<usize, AllocError>(AllocError::NoMemory),
            a1.same_state(a0),
    {
    }

    /// An alignment above `MAX_ALIGN` is refused with `InvalidParam`, by
    /// `alloc_pages` and by `alloc_pages_at` alike.
    pub proof fn lemma_align_above_max(
        a0: &Self,
        a1: &Self,
        a2: &Self,
        addr: usize,
        num_pages: usize,
        align: usize,
        r1: AllocResult<usize>,
        r2: AllocResult<usize>,
    )
        requires
            a0.alloc_pages_post(a1, num_pages as int, align as int, r1),
            a0.alloc_pages_at_post(a2, addr as int, num_pages as int, align as int, r2),
            align > MAX_ALIGN,
        ensures
            r1 == Err::<usize, AllocError>(AllocError::InvalidParam),
            r2 == Err::<usize, AllocError>(AllocError::InvalidParam),
            a1.same_state(a0),
            a2.same_state(a0),
    {
    }
}

} // verus!
