//! Physical memory manager: one bit per page, set while the page is in use.
use vstd::prelude::*;
use crate::mem::memmap::{MemmapEntry, memory_section_is_usable};

verus! {

/// The size of a page of physical memory.
pub const PAGE_SIZE: usize = 4096;

/// Whether bit `k` of byte `b` is set.
pub open spec fn byte_bit(b: u8, k: int) -> bool {
    (b >> (k as u8)) & 1u8 == 1u8
}

/// Whether page `i` is marked used in `bytes`.
pub open spec fn page_used(bytes: Seq<u8>, i: int) -> bool {
    byte_bit(bytes[i / 8], i % 8)
}

/// Whether pages `q..q+n` are all free.
pub open spec fn run_free(bytes: Seq<u8>, q: int, n: int) -> bool {
    forall|j: int| q <= j < q + n ==> !page_used(bytes, j)
}

/// The first `q >= from` whose `n` pages are free and end by `limit`.
pub open spec fn first_fit(bytes: Seq<u8>, from: int, limit: int, n: int) -> Option<int>
    decreases limit - from,
{
    if n <= 0 || from + n > limit {
        None
    } else if run_free(bytes, from, n) {
        Some(from)
    } else {
        first_fit(bytes, from + 1, limit, n)
    }
}

/// `bytes` with pages `q..q+n` marked used and every other page as it was.
pub open spec fn marked(old_bytes: Seq<u8>, new_bytes: Seq<u8>, q: int, n: int) -> bool {
    &&& new_bytes.len() == old_bytes.len()
    &&& forall|j: int| 0 <= j < old_bytes.len() * 8 ==> #[trigger] page_used(new_bytes, j) == ((q <= j < q + n) || page_used(old_bytes, j))
}

/// `bytes` with pages `q..q+n` marked free and every other page as it was.
pub open spec fn cleared(old_bytes: Seq<u8>, new_bytes: Seq<u8>, q: int, n: int) -> bool {
    &&& new_bytes.len() == old_bytes.len()
    &&& forall|j: int| 0 <= j < old_bytes.len() * 8 ==> #[trigger] page_used(new_bytes, j) == (!(q <= j < q + n) && page_used(old_bytes, j))
}

/// Two bitmaps that agree on every page hold the same bytes.
pub open spec fn same_pages(a: Seq<u8>, b: Seq<u8>) -> bool {
    &&& a.len() == b.len()
    &&& forall|j: int| 0 <= j < a.len() * 8 ==> #[trigger] page_used(a, j) == page_used(b, j)
}

proof fn lemma_or_bit(b: u8, k: u8, m: u8)
    by (bit_vector)
    requires
        k < 8,
        m < 8,
    ensures
        ((b | (1u8 << k)) >> m) & 1u8 == 1u8 <==> (m == k || (b >> m) & 1u8 == 1u8),
{
}

proof fn lemma_and_not_bit(b: u8, k: u8, m: u8)
    by (bit_vector)
    requires
        k < 8,
        m < 8,
    ensures
        ((b & !(1u8 << k)) >> m) & 1u8 == 1u8 <==> (m != k && (b >> m) & 1u8 == 1u8),
{
}

proof fn lemma_test_bit(b: u8, k: u8)
    by (bit_vector)
    requires
        k < 8,
    ensures
        (b & (1u8 << k) != 0u8) <==> ((b >> k) & 1u8 == 1u8),
{
}

proof fn lemma_full_byte(m: u8)
    by (bit_vector)
    requires
        m < 8,
    ensures
        (0xFFu8 >> m) & 1u8 == 1u8,
{
}

/// The physical memory manager: a bitmap of page use, where the bitmap itself
/// lives, and counters of pages.
pub struct PhysicalMemoryManager {
    bitmap: Vec<u8>,
    bitmap_addr: usize,
    highest_page_idx: usize,
    last_used_page_idx: usize,
    usable_pages: usize,
    used_pages: usize,
}

impl PhysicalMemoryManager {
    /// The bitmap, one bit per page.
    pub closed spec fn bitmap(&self) -> Seq<u8> {
        self.bitmap@
    }

    /// The address the bitmap was placed at.
    pub closed spec fn bitmap_location(&self) -> usize {
        self.bitmap_addr
    }

    /// One past the highest page of usable memory.
    pub closed spec fn highest(&self) -> usize {
        self.highest_page_idx
    }

    /// Where the next search for free pages starts.
    pub closed spec fn last_used(&self) -> usize {
        self.last_used_page_idx
    }

    /// The number of usable pages.
    pub closed spec fn usable(&self) -> usize {
        self.usable_pages
    }

    /// The number of pages handed out.
    pub closed spec fn used(&self) -> usize {
        self.used_pages
    }

    /// The manager's invariant: the bitmap covers every page below the
    /// highest one, whose addresses fit in a `usize`, and the search start
    /// never passes the highest page.
    pub closed spec fn wf(&self) -> bool {
        &&& self.highest_page_idx <= self.bitmap@.len() * 8
        &&& self.bitmap@.len() * 8 <= usize::MAX
        &&& self.highest_page_idx as nat * 4096 <= usize::MAX
        &&& self.last_used_page_idx <= self.highest_page_idx
    }

    /// Whether page `bit` is in use.
    fn bitmap_test(&self, bit: usize) -> (r: bool)
        requires
            bit / 8 < self.bitmap@.len(),
        ensures
            r == page_used(self.bitmap@, bit as int),
    {
        let byte_index = bit / 8;
        let bit_index = (bit % 8) as u8;
        proof {
            lemma_test_bit(self.bitmap@[byte_index as int], bit_index);
        }
        (self.bitmap[byte_index] & (1u8 << bit_index)) != 0
    }

    /// Marks page `bit` used.
    fn bitmap_set(&mut self, bit: usize)
        requires
            bit / 8 < old(self).bitmap@.len(),
        ensures
            marked(old(self).bitmap@, final(self).bitmap@, bit as int, 1),
            final(self).bitmap_addr == old(self).bitmap_addr,
            final(self).highest_page_idx == old(self).highest_page_idx,
            final(self).last_used_page_idx == old(self).last_used_page_idx,
            final(self).usable_pages == old(self).usable_pages,
            final(self).used_pages == old(self).used_pages,
    {
        let byte_index = bit / 8;
        let bit_index = (bit % 8) as u8;
        let b = self.bitmap[byte_index];
        self.bitmap.set(byte_index, b | (1u8 << bit_index));
        proof {
            assert forall|j: int| 0 <= j < old(self).bitmap@.len() * 8 implies #[trigger] page_used(self.bitmap@, j)
                == ((bit <= j < bit + 1) || page_used(old(self).bitmap@, j)) by {
                if j / 8 == byte_index {
                    lemma_or_bit(b, bit_index, (j % 8) as u8);
                }
            }
        }
    }

    /// Marks page `bit` free.
    fn bitmap_reset(&mut self, bit: usize)
        requires
            bit / 8 < old(self).bitmap@.len(),
        ensures
            cleared(old(self).bitmap@, final(self).bitmap@, bit as int, 1),
            final(self).bitmap_addr == old(self).bitmap_addr,
            final(self).highest_page_idx == old(self).highest_page_idx,
            final(self).last_used_page_idx == old(self).last_used_page_idx,
            final(self).usable_pages == old(self).usable_pages,
            final(self).used_pages == old(self).used_pages,
    {
        let byte_index = bit / 8;
        let bit_index = (bit % 8) as u8;
        let b = self.bitmap[byte_index];
        self.bitmap.set(byte_index, b & !(1u8 << bit_index));
        proof {
            assert forall|j: int| 0 <= j < old(self).bitmap@.len() * 8 implies #[trigger] page_used(self.bitmap@, j)
                == (!(bit <= j < bit + 1) && page_used(old(self).bitmap@, j)) by {
                if j / 8 == byte_index {
                    lemma_and_not_bit(b, bit_index, (j % 8) as u8);
                }
            }
        }
    }
}

/// A run found by `first_fit` is free, starts at or after `from` and ends by `limit`.
proof fn lemma_first_fit_props(bytes: Seq<u8>, from: int, limit: int, n: int)
    ensures
        first_fit(bytes, from, limit, n) matches Some(q) ==> from <= q && q + n <= limit && n >= 1 && run_free(bytes, q, n),
    decreases limit - from,
{
    if n >= 1 && from + n <= limit && !run_free(bytes, from, n) {
        lemma_first_fit_props(bytes, from + 1, limit, n);
    }
}

/// The first free run is the one with no free run of the same length before it.
proof fn lemma_first_fit_is(bytes: Seq<u8>, from: int, limit: int, n: int, q: int)
    requires
        n >= 1,
        from <= q,
        q + n <= limit,
        run_free(bytes, q, n),
        forall|q2: int| from <= q2 < q ==> !run_free(bytes, q2, n),
    ensures
        first_fit(bytes, from, limit, n) == Some(q),
    decreases q - from,
{
    if from < q {
        lemma_first_fit_is(bytes, from + 1, limit, n, q);
    }
}

/// With no free run at all, the search finds nothing.
proof fn lemma_first_fit_none(bytes: Seq<u8>, from: int, limit: int, n: int)
    requires
        forall|q2: int| from <= q2 && q2 + n <= limit && n > 0 ==> !run_free(bytes, q2, n),
    ensures
        first_fit(bytes, from, limit, n) is None,
    decreases limit - from,
{
    if n >= 1 && from + n <= limit {
        lemma_first_fit_none(bytes, from + 1, limit, n);
    }
}

impl PhysicalMemoryManager {
    /// Searches from the last used page, below `limit`, for `pages` free
    /// pages in a row; marks them used and returns their address, or 0.
    fn inner_alloc(&mut self, pages: usize, limit: usize) -> (r: usize)
        requires
            old(self).wf(),
            limit <= old(self).highest_page_idx,
        ensures
            final(self).wf(),
            final(self).bitmap_addr == old(self).bitmap_addr,
            final(self).highest_page_idx == old(self).highest_page_idx,
            final(self).usable_pages == old(self).usable_pages,
            final(self).used_pages == old(self).used_pages,
            match first_fit(old(self).bitmap@, old(self).last_used_page_idx as int, limit as int, pages as int) {
                Some(q) => r == q * 4096 && marked(old(self).bitmap@, final(self).bitmap@, q, pages as int)
                    && final(self).last_used_page_idx == q + pages,
                None => r == 0 && final(self).bitmap@ == old(self).bitmap@
                    && final(self).last_used_page_idx == if old(self).last_used_page_idx < limit { limit } else { old(self).last_used_page_idx },
            },
    {
        let mut p: usize = 0;
        let ghost last0 = self.last_used_page_idx as int;
        let ghost b0 = self.bitmap@;
        while self.last_used_page_idx < limit
            invariant
                self.wf(),
                limit <= self.highest_page_idx,
                self.bitmap@ == b0,
                self.bitmap_addr == old(self).bitmap_addr,
                self.highest_page_idx == old(self).highest_page_idx,
                self.usable_pages == old(self).usable_pages,
                self.used_pages == old(self).used_pages,
                last0 == old(self).last_used_page_idx,
                b0 == old(self).bitmap@,
                last0 <= self.last_used_page_idx,
                self.last_used_page_idx <= limit || self.last_used_page_idx == last0,
                p <= self.last_used_page_idx - last0,
                pages == 0 || p < pages,
                run_free(b0, self.last_used_page_idx - p, p as int),
                self.last_used_page_idx - p == last0 || page_used(b0, self.last_used_page_idx - p - 1),
                forall|q: int| last0 <= q && q + pages <= self.last_used_page_idx && pages > 0 ==> !run_free(b0, q, pages as int),
            decreases limit - self.last_used_page_idx,
        {
            let idx = self.last_used_page_idx;
            self.last_used_page_idx = idx + 1;
            if self.bitmap_test(idx) {
                p = 0;
                proof {
                    assert forall|q: int| last0 <= q && q + pages <= self.last_used_page_idx && pages > 0 implies !run_free(b0, q, pages as int) by {
                        if q + pages == self.last_used_page_idx {
                            assert(page_used(b0, idx as int));
                        }
                    }
                }
                continue;
            }
            p = p + 1;
            proof {
                assert forall|q: int| last0 <= q && q + pages <= self.last_used_page_idx && p < pages && pages > 0 implies !run_free(b0, q, pages as int) by {
                    if q + pages == self.last_used_page_idx {
                        let w = idx - (p - 1) - 1;
                        if idx - (p - 1) != last0 {
                            assert(page_used(b0, w));
                        }
                    }
                }
            }
            if p == pages {
                let page = self.last_used_page_idx - pages;
                proof {
                    lemma_first_fit_is(b0, last0, limit as int, pages as int, page as int);
                }
                let mut i = page;
                while i < self.last_used_page_idx
                    invariant
                        page <= i <= self.last_used_page_idx,
                        self.last_used_page_idx == page + pages,
                        self.last_used_page_idx <= self.highest_page_idx,
                        self.wf(),
                        marked(b0, self.bitmap@, page as int, (i - page) as int),
                        self.bitmap_addr == old(self).bitmap_addr,
                        self.highest_page_idx == old(self).highest_page_idx,
                        self.usable_pages == old(self).usable_pages,
                        self.used_pages == old(self).used_pages,
                    decreases self.last_used_page_idx - i,
                {
                    let ghost before = self.bitmap@;
                    self.bitmap_set(i);
                    proof {
                        assert forall|j: int| 0 <= j < b0.len() * 8 implies #[trigger] page_used(self.bitmap@, j)
                            == ((page <= j < page + (i + 1 - page)) || page_used(b0, j)) by {
                            assert(page_used(self.bitmap@, j) == ((i <= j < i + 1) || page_used(before, j)));
                        }
                    }
                    i = i + 1;
                }
                proof {
                    vstd::arithmetic::mul::lemma_mul_inequality(page as int, self.highest_page_idx as int, 4096);
                }
                return page * PAGE_SIZE;
            }
        }
        proof {
            lemma_first_fit_none(b0, last0, limit as int, pages as int);
        }
        0
    }

    /// Allocates `pages` pages in a row without clearing them: the search runs
    /// from the last used page to the highest, then once more from page 0 to
    /// where the first search stopped. A run found at page 0 has the address 0
    /// and counts as a failure.
    pub fn alloc_nozero(&mut self, pages: usize) -> (r: Result<usize, ()>)
        requires
            old(self).wf(),
        ensures
            final(self).wf(),
            final(self).bitmap_location() == old(self).bitmap_location(),
            final(self).highest() == old(self).highest(),
            final(self).usable() == old(self).usable(),
            alloc_nozero_post(*old(self), *final(self), pages, r),
    {
        let ghost b0 = self.bitmap@;
        let ghost last0 = self.last_used_page_idx as int;
        let ghost hi = self.highest_page_idx as int;
        proof {
            lemma_first_fit_props(b0, last0, hi, pages as int);
            lemma_first_fit_props(b0, 0, hi, pages as int);
        }
        let mut page_addr = self.inner_alloc(pages, self.highest_page_idx);
        if page_addr == 0 {
            let last = self.last_used_page_idx;
            self.last_used_page_idx = 0;
            let ghost b1 = self.bitmap@;
            proof {
                if let Some(q) = first_fit(b0, last0, hi, pages as int) {
                    assert(q == 0);
                    assert(page_used(b1, 0));
                    assert(!run_free(b1, 0, pages as int));
                    assert(first_fit(b1, 1, last as int, pages as int) is None);
                }
            }
            page_addr = self.inner_alloc(pages, last);
            if page_addr == 0 {
                return Err(());
            }
        }
        self.used_pages = self.used_pages.wrapping_add(pages);
        Ok(page_addr)
    }

    /// Gives back `pages` pages from `addr`: they are marked free.
    pub fn dealloc(&mut self, addr: usize, pages: usize)
        requires
            old(self).wf(),
            (addr / 4096) as nat + pages as nat <= old(self).bitmap().len() * 8,
        ensures
            final(self).wf(),
            dealloc_post(*old(self), *final(self), addr, pages),
            final(self).bitmap_location() == old(self).bitmap_location(),
            final(self).highest() == old(self).highest(),
            final(self).last_used() == old(self).last_used(),
            final(self).usable() == old(self).usable(),
    {
        let page = addr / PAGE_SIZE;
        let ghost b0 = self.bitmap@;
        let mut i = page;
        while i < page + pages
            invariant
                page <= i <= page + pages,
                page + pages <= b0.len() * 8,
                self.wf(),
                cleared(b0, self.bitmap@, page as int, (i - page) as int),
                self.bitmap_addr == old(self).bitmap_addr,
                self.highest_page_idx == old(self).highest_page_idx,
                self.last_used_page_idx == old(self).last_used_page_idx,
                self.usable_pages == old(self).usable_pages,
                self.used_pages == old(self).used_pages,
                b0 == old(self).bitmap@,
            decreases page + pages - i,
        {
            let ghost before = self.bitmap@;
            self.bitmap_reset(i);
            proof {
                assert forall|j: int| 0 <= j < b0.len() * 8 implies #[trigger] page_used(self.bitmap@, j)
                    == (!(page <= j < page + (i + 1 - page)) && page_used(b0, j)) by {
                    assert(page_used(self.bitmap@, j) == (!(i <= j < i + 1) && page_used(before, j)));
                }
            }
            i = i + 1;
        }
        self.used_pages = self.used_pages.wrapping_sub(pages);
    }

    /// The bytes of usable memory.
    pub fn total_memory(&self) -> (r: usize)
        requires
            self.usable() as nat * 4096 <= usize::MAX,
        ensures
            r == self.usable() * 4096,
    {
        self.usable_pages * 4096
    }

    /// The bytes of usable memory not handed out.
    pub fn usable_memory(&self) -> (r: usize)
        requires
            self.usable() as nat * 4096 <= usize::MAX,
            self.used() <= self.usable(),
        ensures
            r == (self.usable() - self.used()) * 4096,
    {
        (self.usable_pages * 4096) - (self.used_pages * 4096)
    }

    /// The bytes of memory handed out.
    pub fn used_memory(&self) -> (r: usize)
        requires
            self.used() as nat * 4096 <= usize::MAX,
        ensures
            r == self.used() * 4096,
    {
        self.used_pages * 4096
    }
}

/// The page run the allocation of `pages` pages searches out in `p`:
/// first from the last used page to the highest, then from page 0.
pub open spec fn alloc_search(p: PhysicalMemoryManager, pages: usize) -> Option<int> {
    let b0 = p.bitmap();
    let hi = p.highest() as int;
    match first_fit(b0, p.last_used() as int, hi, pages as int) {
        Some(q) => Some(q),
        None => first_fit(b0, 0, hi, pages as int),
    }
}

/// What allocating `pages` pages without clearing them does to `p0`, giving
/// `p1` and the result `r`: the run found is marked used and the search
/// moves past it; a run at page 0 has the address 0 and counts as a failure;
/// with no run, nothing changes but the search start, set to the highest page.
pub open spec fn alloc_nozero_post(p0: PhysicalMemoryManager, p1: PhysicalMemoryManager, pages: usize, r: Result<usize, ()>) -> bool {
    let b0 = p0.bitmap();
    let n = pages as int;
    match alloc_search(p0, pages) {
        Some(q) => {
            &&& run_free(b0, q, n)
            &&& marked(b0, p1.bitmap(), q, n)
            &&& p1.last_used() == q + n
            &&& q > 0 ==> r == Ok::<usize, ()>((q * 4096) as usize)
                && p1.used() == vstd::wrapping::usize_specs::wrapping_add(p0.used(), pages)
            &&& q == 0 ==> r is Err && p1.used() == p0.used()
        },
        None => {
            &&& r is Err
            &&& p1.bitmap() == b0
            &&& p1.last_used() == p0.highest()
            &&& p1.used() == p0.used()
        },
    }
}

/// What giving back `pages` pages from `addr` does to `p1`, giving `p2`:
/// the pages are marked free, every other page kept, and the count of used
/// pages drops by `pages`, wrapping.
pub open spec fn dealloc_post(p1: PhysicalMemoryManager, p2: PhysicalMemoryManager, addr: usize, pages: usize) -> bool {
    &&& cleared(p1.bitmap(), p2.bitmap(), (addr / 4096) as int, pages as int)
    &&& p2.used() == vstd::wrapping::usize_specs::wrapping_sub(p1.used(), pages)
}

/// Law: giving back the pages an allocation handed out undoes it: the
/// pages can be given back (they lie inside the bitmap), every page is then
/// as it was before the allocation, and so is the count of used pages.
pub proof fn law_dealloc_undoes_alloc(p0: PhysicalMemoryManager, p1: PhysicalMemoryManager, p2: PhysicalMemoryManager, pages: usize, addr: usize)
    requires
        p0.wf(),
        alloc_nozero_post(p0, p1, pages, Ok(addr)),
    ensures
        (addr / 4096) as nat + pages as nat <= p1.bitmap().len() * 8,
        dealloc_post(p1, p2, addr, pages) ==> same_pages(p0.bitmap(), p2.bitmap()) && p2.used() == p0.used(),
{
    let b0 = p0.bitmap();
    let hi = p0.highest() as int;
    let n = pages as int;
    lemma_first_fit_props(b0, p0.last_used() as int, hi, n);
    lemma_first_fit_props(b0, 0, hi, n);
    let q = alloc_search(p0, pages).unwrap();
    assert(q + n <= hi);
    assert(q * 4096 <= hi * 4096) by (nonlinear_arith)
        requires q <= hi;
    assert(addr == q * 4096);
    assert((q * 4096) / 4096 == q) by (nonlinear_arith);
    if dealloc_post(p1, p2, addr, pages) {
        law_dealloc_undoes_alloc_nozero(b0, p1.bitmap(), p2.bitmap(), q, n, p0.used(), pages);
    }
}

/// Law: giving back the pages of an allocation leaves every page as it was
/// before the allocation, and the count of used pages too.
pub proof fn law_dealloc_undoes_alloc_nozero(b0: Seq<u8>, b1: Seq<u8>, b2: Seq<u8>, q: int, n: int, used: usize, pages: usize)
    requires
        run_free(b0, q, n),
        marked(b0, b1, q, n),
        cleared(b1, b2, q, n),
        n == pages,
    ensures
        same_pages(b0, b2),
        vstd::wrapping::usize_specs::wrapping_sub(vstd::wrapping::usize_specs::wrapping_add(used, pages), pages) == used,
{
}

/// The pages held by usable regions, summed with wrap-around like the counter.
pub open spec fn usable_page_sum(entries: Seq<MemmapEntry>, k: int) -> usize
    decreases k,
{
    if k <= 0 {
        0
    } else if entries[k - 1].usable() {
        vstd::wrapping::usize_specs::wrapping_add(usable_page_sum(entries, k - 1), entries[k - 1].len / 4096)
    } else {
        usable_page_sum(entries, k - 1)
    }
}

/// The highest end address of the usable regions among the first `k`.
pub open spec fn highest_usable_end(entries: Seq<MemmapEntry>, k: int) -> usize
    decreases k,
{
    if k <= 0 {
        0
    } else {
        let h = highest_usable_end(entries, k - 1);
        if entries[k - 1].usable() && h < entries[k - 1].base + entries[k - 1].len {
            (entries[k - 1].base + entries[k - 1].len) as usize
        } else {
            h
        }
    }
}

/// The bytes of bitmap for pages below `highest_page`: one bit per page,
/// rounded up to whole pages.
pub open spec fn bitmap_size_for(highest_page: nat) -> nat {
    ((highest_page / 8 + 4095) / 4096) * 4096
}

/// The first usable region at or after `k` long enough to hold `size` bytes,
/// or the number of regions.
pub open spec fn first_region_holding(entries: Seq<MemmapEntry>, size: nat, k: int) -> int
    decreases entries.len() - k,
{
    if k >= entries.len() {
        entries.len() as int
    } else if entries[k].usable() && entries[k].len >= size {
        k
    } else {
        first_region_holding(entries, size, k + 1)
    }
}

/// Whether page `p` lies in a usable region among the first `k`.
pub open spec fn covered_upto(entries: Seq<MemmapEntry>, k: int, p: int) -> bool {
    exists|j: int| 0 <= j < k && #[trigger] entries[j].usable()
        && entries[j].base / 4096 <= p < entries[j].base / 4096 + entries[j].len / 4096
}

proof fn lemma_first_region_props(entries: Seq<MemmapEntry>, size: nat, k: int)
    requires
        0 <= k <= entries.len(),
    ensures
        k <= first_region_holding(entries, size, k) <= entries.len(),
        first_region_holding(entries, size, k) < entries.len() ==> entries[first_region_holding(entries, size, k)].usable()
            && entries[first_region_holding(entries, size, k)].len >= size,
        forall|j: int| k <= j < first_region_holding(entries, size, k) ==> !(entries[j].usable() && entries[j].len >= size),
    decreases entries.len() - k,
{
    if k < entries.len() && !(entries[k].usable() && entries[k].len >= size) {
        lemma_first_region_props(entries, size, k + 1);
    }
}

proof fn lemma_highest_bound(entries: Seq<MemmapEntry>, k: int, j: int)
    requires
        0 <= j < k <= entries.len(),
        entries[j].usable(),
        forall|i: int| 0 <= i < entries.len() && entries[i].usable() ==> entries[i].base + entries[i].len <= usize::MAX,
    ensures
        entries[j].base + entries[j].len <= highest_usable_end(entries, k),
    decreases k,
{
    if j < k - 1 {
        lemma_highest_bound(entries, k - 1, j);
    }
}

proof fn lemma_div_sum(a: int, b: int)
    requires
        a >= 0,
        b >= 0,
    ensures
        a / 4096 + b / 4096 <= (a + b) / 4096,
{
    vstd::arithmetic::div_mod::lemma_fundamental_div_mod(a, 4096);
    vstd::arithmetic::div_mod::lemma_fundamental_div_mod(b, 4096);
    vstd::arithmetic::div_mod::lemma_mod_pos_bound(a, 4096);
    vstd::arithmetic::div_mod::lemma_mod_pos_bound(b, 4096);
    vstd::arithmetic::div_mod::lemma_div_is_ordered(4096 * (a / 4096 + b / 4096), a + b, 4096);
    vstd::arithmetic::div_mod::lemma_div_multiples_vanish(a / 4096 + b / 4096, 4096);
}

/// Whether an address is not zero.
spec fn hi_ne_zero(h: usize) -> bool {
    h != 0
}

/// A nonzero highest end is the end of some usable region.
proof fn lemma_highest_attained(entries: Seq<MemmapEntry>, k: int) -> (j: int)
    requires
        0 <= k <= entries.len(),
        highest_usable_end(entries, k) != 0,
        forall|i: int| 0 <= i < entries.len() && entries[i].usable() ==> entries[i].base + entries[i].len <= usize::MAX,
    ensures
        0 <= j < k,
        entries[j].usable(),
        entries[j].base + entries[j].len == highest_usable_end(entries, k),
    decreases k,
{
    let h = highest_usable_end(entries, k - 1);
    if entries[k - 1].usable() && h < entries[k - 1].base + entries[k - 1].len {
        k - 1
    } else {
        lemma_highest_attained(entries, k - 1)
    }
}

/// The bitmap's size in bits stays within a `usize`, and page addresses too.
proof fn lemma_bitmap_size_bounds(h: nat, addr: nat)
    requires
        h == addr / 4096,
        addr <= usize::MAX,
    ensures
        bitmap_size_for(h) * 8 <= usize::MAX,
        h * 4096 <= usize::MAX,
        bitmap_size_for(h) % 4096 == 0,
{
    crate::mem::allocator::lemma_usize_bits();
    vstd::arithmetic::power2::lemma2_to64();
    vstd::arithmetic::div_mod::lemma_fundamental_div_mod(addr as int, 4096);
    vstd::arithmetic::div_mod::lemma_mod_pos_bound(addr as int, 4096);
    let x = h / 8 + 4095;
    vstd::arithmetic::div_mod::lemma_fundamental_div_mod(x as int, 4096);
    vstd::arithmetic::div_mod::lemma_mod_pos_bound(x as int, 4096);
    vstd::arithmetic::div_mod::lemma_mod_multiples_basic(x as int / 4096, 4096);
    vstd::arithmetic::div_mod::lemma_div_is_ordered(addr as int, usize::MAX as int, 4096);
    vstd::arithmetic::div_mod::lemma_div_is_ordered(h as int, usize::MAX as int / 4096, 8);
}

proof fn lemma_round_mask(x: usize)
    by (bit_vector)
    ensures
        (x & !4095usize) == (x / 4096) * 4096,
{
}

impl PhysicalMemoryManager {
    /// Builds the manager from the memory map. The bitmap, one bit per page up
    /// to the highest usable address and rounded up to whole pages, takes the
    /// start of the first usable region long enough for it, which shrinks by
    /// that much; every page of every usable region is then marked free and
    /// all others used.
    pub fn new(memmap: &mut Vec<MemmapEntry>, hhdm_offset: usize) -> (r: Self)
        requires
            forall|i: int| 0 <= i < old(memmap)@.len() && old(memmap)@[i].usable()
                ==> old(memmap)@[i].base + old(memmap)@[i].len <= usize::MAX,
            ({
                let bs = bitmap_size_for((highest_usable_end(old(memmap)@, old(memmap)@.len() as int) / 4096) as nat);
                let k = first_region_holding(old(memmap)@, bs, 0);
                &&& k < old(memmap)@.len()
                &&& old(memmap)@[k].base + hhdm_offset <= usize::MAX
                &&& forall|i: int| 0 <= i < old(memmap)@.len() && old(memmap)@[i].usable()
                    ==> (old(memmap)@[i].base + old(memmap)@[i].len) / 4096 <= bs * 8
            }),
        ensures
            r.wf(),
            ({
                let m0 = old(memmap)@;
                let hi = highest_usable_end(m0, m0.len() as int);
                let bs = bitmap_size_for((hi / 4096) as nat);
                let k = first_region_holding(m0, bs, 0);
                &&& r.usable() == usable_page_sum(m0, m0.len() as int)
                &&& r.highest() == hi / 4096
                &&& r.last_used() == 0
                &&& r.used() == 0
                &&& r.bitmap_location() == m0[k].base + hhdm_offset
                &&& r.bitmap().len() == bs
                &&& final(memmap)@ == m0.update(k, MemmapEntry { base: (m0[k].base + bs) as usize, len: (m0[k].len - bs) as usize, typ: m0[k].typ })
                &&& forall|p: int| 0 <= p < bs * 8 ==> #[trigger] page_used(r.bitmap(), p) == !covered_upto(final(memmap)@, m0.len() as int, p)
            }),
    {
        let ghost m0 = memmap@;
        let mut usable_pages: usize = 0;
        let mut highest_addr: usize = 0;
        let mut k: usize = 0;
        while k < memmap.len()
            invariant
                k <= memmap@.len(),
                memmap@ == m0,
                forall|i: int| 0 <= i < m0.len() && m0[i].usable() ==> m0[i].base + m0[i].len <= usize::MAX,
                usable_pages == usable_page_sum(m0, k as int),
                highest_addr == highest_usable_end(m0, k as int),
            decreases memmap@.len() - k,
        {
            let entry = memmap[k];
            if memory_section_is_usable(&entry) {
                usable_pages = usable_pages.wrapping_add(entry.len / PAGE_SIZE);
                if highest_addr < entry.base + entry.len {
                    highest_addr = entry.base + entry.len;
                }
            }
            k = k + 1;
        }
        let highest_page_idx = highest_addr / PAGE_SIZE;
        proof {
            lemma_bitmap_size_bounds((highest_addr / 4096) as nat, highest_addr as nat);
            lemma_round_mask((highest_page_idx / 8 + PAGE_SIZE - 1) as usize);
        }
        let bitmap_size = ((highest_page_idx / 8) + PAGE_SIZE - 1) & !(PAGE_SIZE - 1);
        let ghost bs = bitmap_size as nat;
        assert(bs == bitmap_size_for(highest_page_idx as nat));
        proof {
            lemma_first_region_props(m0, bs, 0);
        }
        let mut bitmap_addr: usize = 0;
        let mut k2: usize = 0;
        let ghost kf = first_region_holding(m0, bs, 0);
        let ghost placed_spec = MemmapEntry { base: (m0[kf].base + bs) as usize, len: (m0[kf].len - bs) as usize, typ: m0[kf].typ };
        while k2 < memmap.len()
            invariant_except_break
                k2 <= kf,
                memmap@ == m0,
            invariant
                kf < m0.len(),
                m0.len() == memmap@.len(),
                bs == bitmap_size,
                kf == first_region_holding(m0, bs, 0),
                m0[kf].usable() && m0[kf].len >= bs,
                m0[kf].base + hhdm_offset <= usize::MAX,
                forall|i: int| 0 <= i < m0.len() && m0[i].usable() ==> m0[i].base + m0[i].len <= usize::MAX,
                forall|j: int| 0 <= j < kf ==> !(m0[j].usable() && m0[j].len >= bs),
                placed_spec == (MemmapEntry { base: (m0[kf].base + bs) as usize, len: (m0[kf].len - bs) as usize, typ: m0[kf].typ }),
            ensures
                memmap@ == m0.update(kf, placed_spec),
                bitmap_addr == m0[kf].base + hhdm_offset,
            decreases memmap@.len() - k2,
        {
            let entry = memmap[k2];
            if !memory_section_is_usable(&entry) {
                k2 = k2 + 1;
                continue;
            }
            if entry.len >= bitmap_size {
                bitmap_addr = entry.base + hhdm_offset;
                let placed = MemmapEntry { base: entry.base + bitmap_size, len: entry.len - bitmap_size, typ: entry.typ };
                memmap.set(k2, placed);
                break;
            }
            k2 = k2 + 1;
        }
        let ghost m1 = memmap@;
        proof {
            assert forall|i: int| 0 <= i < m1.len() && m1[i].usable() implies m1[i].base + m1[i].len <= usize::MAX
                && m1[i].base / 4096 + m1[i].len / 4096 <= bs * 8 by {
                lemma_div_sum(m1[i].base as int, m1[i].len as int);
            }
            if hi_ne_zero(highest_addr) {
                let j = lemma_highest_attained(m0, m0.len() as int);
            }
            lemma_bitmap_size_bounds(highest_page_idx as nat, highest_addr as nat);
        }
        let bitmap: Vec<u8> = vec![0xFFu8; bitmap_size];
        let mut pmm = PhysicalMemoryManager {
            bitmap,
            bitmap_addr,
            highest_page_idx,
            last_used_page_idx: 0,
            usable_pages,
            used_pages: 0,
        };
        proof {
            assert forall|p: int| 0 <= p < bs * 8 implies #[trigger] page_used(pmm.bitmap@, p) == !covered_upto(m1, 0, p) by {
                lemma_full_byte((p % 8) as u8);
            }
        }
        let mut e: usize = 0;
        while e < memmap.len()
            invariant
                e <= memmap@.len(),
                memmap@ == m1,
                m1.len() == m0.len(),
                pmm.bitmap@.len() == bs,
                bs == bitmap_size,
                bs % 4096 == 0,
                forall|i: int| 0 <= i < m1.len() && m1[i].usable() ==> (m1[i].base / 4096 + m1[i].len / 4096) <= bs * 8,
                forall|i: int| 0 <= i < m1.len() && m1[i].usable() ==> m1[i].base + m1[i].len <= usize::MAX,
                forall|p: int| 0 <= p < bs * 8 ==> #[trigger] page_used(pmm.bitmap@, p) == !covered_upto(m1, e as int, p),
                pmm.bitmap_addr == bitmap_addr,
                pmm.highest_page_idx == highest_page_idx,
                pmm.last_used_page_idx == 0,
                pmm.usable_pages == usable_pages,
                pmm.used_pages == 0,
            decreases memmap@.len() - e,
        {
            let entry = memmap[e];
            if !memory_section_is_usable(&entry) {
                proof {
                    assert forall|p: int| 0 <= p < bs * 8 implies #[trigger] page_used(pmm.bitmap@, p) == !covered_upto(m1, e + 1, p) by {
                        if covered_upto(m1, e + 1, p) {
                            let j = choose|j: int| 0 <= j < e + 1 && #[trigger] m1[j].usable()
                                && m1[j].base / 4096 <= p < m1[j].base / 4096 + m1[j].len / 4096;
                            assert(j < e);
                        }
                    }
                }
                e = e + 1;
                continue;
            }
            let count = entry.len / PAGE_SIZE;
            let mut i: usize = 0;
            while i < count
                invariant
                    i <= count,
                    count == entry.len / 4096,
                    entry == m1[e as int],
                    entry.usable(),
                    e < m1.len(),
                    pmm.bitmap@.len() == bs,
                    bs == bitmap_size,
                    entry.base / 4096 + entry.len / 4096 <= bs * 8,
                    entry.base + entry.len <= usize::MAX,
                    forall|p: int| 0 <= p < bs * 8 ==> #[trigger] page_used(pmm.bitmap@, p) == !(covered_upto(m1, e as int, p)
                        || (entry.base / 4096 <= p < entry.base / 4096 + i)),
                    forall|i2: int| 0 <= i2 < m1.len() && m1[i2].usable() ==> m1[i2].base + m1[i2].len <= usize::MAX,
                    pmm.bitmap_addr == bitmap_addr,
                    pmm.highest_page_idx == highest_page_idx,
                    pmm.last_used_page_idx == 0,
                    pmm.usable_pages == usable_pages,
                    pmm.used_pages == 0,
                decreases count - i,
            {
                proof {
                    vstd::arithmetic::div_mod::lemma_fundamental_div_mod(entry.len as int, 4096);
                    vstd::arithmetic::div_mod::lemma_fundamental_div_mod(entry.base as int, 4096);
                    vstd::arithmetic::mul::lemma_mul_inequality(i as int, count as int, 4096);
                    vstd::arithmetic::div_mod::lemma_mod_pos_bound(entry.len as int, 4096);
                }
                let page = (entry.base + i * PAGE_SIZE) / PAGE_SIZE;
                proof {
                    assert(page == entry.base / 4096 + i) by {
                        vstd::arithmetic::div_mod::lemma_fundamental_div_mod(entry.base as int, 4096);
                        vstd::arithmetic::div_mod::lemma_fundamental_div_mod_converse(
                            entry.base as int + i as int * 4096, 4096, entry.base as int / 4096 + i as int, entry.base as int % 4096);
                    }
                }
                let ghost before = pmm.bitmap@;
                pmm.bitmap_reset(page);
                proof {
                    assert forall|p: int| 0 <= p < bs * 8 implies #[trigger] page_used(pmm.bitmap@, p) == !(covered_upto(m1, e as int, p)
                        || (entry.base / 4096 <= p < entry.base / 4096 + (i + 1))) by {
                        assert(page_used(pmm.bitmap@, p) == (!(page <= p < page + 1) && page_used(before, p)));
                    }
                }
                i = i + 1;
            }
            proof {
                assert forall|p: int| 0 <= p < bs * 8 implies #[trigger] page_used(pmm.bitmap@, p) == !covered_upto(m1, e + 1, p) by {
                    if covered_upto(m1, e + 1, p) {
                        let j = choose|j: int| 0 <= j < e + 1 && #[trigger] m1[j].usable()
                            && m1[j].base / 4096 <= p < m1[j].base / 4096 + m1[j].len / 4096;
                        if j < e {
                            assert(covered_upto(m1, e as int, p));
                        }
                    } else {
                        assert(!(entry.base / 4096 <= p < entry.base / 4096 + count)) by {
                            if entry.base / 4096 <= p < entry.base / 4096 + count {
                                assert(m1[e as int].usable());
                            }
                        }
                        assert(!covered_upto(m1, e as int, p)) by {
                            if covered_upto(m1, e as int, p) {
                                let j = choose|j: int| 0 <= j < e && #[trigger] m1[j].usable()
                                    && m1[j].base / 4096 <= p < m1[j].base / 4096 + m1[j].len / 4096;
                                assert(0 <= j < e + 1);
                            }
                        }
                    }
                }
            }
            e = e + 1;
        }
        pmm
    }
}

} // verus!
