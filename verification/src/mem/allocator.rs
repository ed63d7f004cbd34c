//! Buddy allocator over a contiguous heap.
//!
//! The heap is described by its start address and size; the free lists hold
//! the addresses of free blocks, one list per order. A list's head is the last
//! element of its `Vec`: inserting pushes, popping takes the last element.
use vstd::prelude::*;
use vstd::arithmetic::power2::{pow2, lemma_pow2_pos, lemma_pow2_adds, lemma2_to64, lemma_pow2_strictly_increases};
use vstd::bits::{lemma_usize_shl_is_mul, lemma_usize_shr_is_div, lemma_usize_pow2_no_overflow};

verus! {

/// The largest alignment the heap hands out.
pub const MIN_HEAP_ALIGN: usize = 4096;

/// The number of orders, and so of free lists.
pub const HEAP_BLOCKS: usize = 16;

/// The position of the highest set bit of `n`, or 0 for 0 and 1.
pub open spec fn spec_log2(n: nat) -> nat
    decreases n,
{
    if n < 2 {
        0
    } else {
        1 + spec_log2(n / 2)
    }
}

/// The number of halvings that take `t` to 0.
pub open spec fn halvings(t: nat) -> nat
    decreases t,
{
    if t == 0 {
        0
    } else {
        1 + halvings(t / 2)
    }
}

proof fn lemma_halvings_log2(n: nat)
    ensures
        spec_log2(n) == halvings(n / 2),
    decreases n,
{
    if n >= 2 {
        lemma_halvings_log2(n / 2);
        assert(n / 2 / 2 == (n / 2) / 2);
    }
}

proof fn lemma_halvings_bound(t: nat)
    requires
        t < pow2(64),
    ensures
        halvings(t) <= 64,
    decreases t,
{
    if t > 0 {
        vstd::arithmetic::power2::lemma_pow2_unfold(64);
        if t / 2 >= pow2(63) {
            assert(t >= 2 * pow2(63));
        }
        lemma_halvings_bound_n(t / 2, 63);
    }
}

proof fn lemma_halvings_bound_n(t: nat, k: nat)
    requires
        t < pow2(k),
    ensures
        halvings(t) <= k,
    decreases t,
{
    if t > 0 {
        if k == 0 {
            lemma2_to64();
        } else {
            vstd::arithmetic::power2::lemma_pow2_unfold(k);
            lemma_halvings_bound_n(t / 2, (k - 1) as nat);
        }
    }
}

/// `spec_log2` never decreases.
proof fn lemma_log2_monotonic(a: nat, b: nat)
    requires
        a <= b,
    ensures
        spec_log2(a) <= spec_log2(b),
    decreases b,
{
    if a >= 2 {
        lemma_log2_monotonic(a / 2, b / 2);
    }
}

/// The log of a power of two is its exponent.
proof fn lemma_log2_pow2(k: nat)
    ensures
        spec_log2(pow2(k)) == k,
    decreases k,
{
    if k == 0 {
        lemma2_to64();
    } else {
        vstd::arithmetic::power2::lemma_pow2_unfold(k);
        lemma_pow2_pos((k - 1) as nat);
        lemma_log2_pow2((k - 1) as nat);
        assert(pow2(k) / 2 == pow2((k - 1) as nat));
    }
}

/// `n >> 15` has a log of `log2(n) - 15` when `n` is at least `2^15`.
proof fn lemma_log2_div2(n: nat)
    requires
        n >= 2,
    ensures
        spec_log2(n / 2) + 1 == spec_log2(n),
{
}

/// Floor of the base-2 logarithm, with `log2(0) == 0`.
pub fn log2(num: usize) -> (r: u8)
    ensures
        r == spec_log2(num as nat),
{
    let mut temp = num;
    let mut result: u8 = 0;
    assert(num >> 1 == num / 2) by (bit_vector);
    temp = temp >> 1;
    proof {
        lemma_halvings_log2(num as nat);
        lemma2_to64_rest_hint();
        lemma_usize_bits();
        lemma_halvings_bound_n(temp as nat, 63);
    }
    while temp != 0
        invariant
            result as nat + halvings(temp as nat) == spec_log2(num as nat),
            halvings(temp as nat) + result <= 63,
        decreases temp,
    {
        assert(temp >> 1 == temp / 2) by (bit_vector);
        result = result + 1;
        temp = temp >> 1;
    }
    result
}

/// Whether `n` is a power of two.
pub open spec fn is_pow2(n: nat) -> bool {
    exists|k: nat| pow2(k) == n
}

/// Whether a heap of `n` bytes is a power of two of at least 2^15 bytes, so
/// that its top-order block is the whole heap.
pub open spec fn pow2_heap(n: nat) -> bool {
    n >= 0x8000 && is_pow2(n)
}

/// The smallest power of two that is at least `n` (1 for 0).
pub open spec fn next_pow2(n: nat) -> nat {
    pow2(ceil_log2(n))
}

/// The smallest `k` with `2^k >= n`.
pub open spec fn ceil_log2(n: nat) -> nat
    decreases n,
{
    if n <= 1 {
        0
    } else {
        1 + ceil_log2(((n + 1) / 2) as nat)
    }
}

proof fn lemma_ceil_log2(n: nat)
    ensures
        pow2(ceil_log2(n)) >= n,
        ceil_log2(n) > 0 ==> pow2((ceil_log2(n) - 1) as nat) < n,
    decreases n,
{
    if n > 1 {
        let m = ((n + 1) / 2) as nat;
        lemma_ceil_log2(m);
        vstd::arithmetic::power2::lemma_pow2_unfold(ceil_log2(n));
        if ceil_log2(m) > 0 {
            vstd::arithmetic::power2::lemma_pow2_unfold(ceil_log2(m));
        } else {
            lemma2_to64();
        }
    } else {
        lemma2_to64();
    }
}

/// Any power of two at least `n` is at least `next_pow2(n)`.
proof fn lemma_pow2_ge_next(n: nat, k: nat)
    requires
        pow2(k) >= n,
    ensures
        pow2(k) >= next_pow2(n),
        k >= ceil_log2(n),
{
    lemma_ceil_log2(n);
    if k < ceil_log2(n) {
        if k < (ceil_log2(n) - 1) as nat {
            lemma_pow2_strictly_increases(k, (ceil_log2(n) - 1) as nat);
        }
    }
    if k > ceil_log2(n) {
        lemma_pow2_strictly_increases(ceil_log2(n), k);
    }
}

/// The smallest power of two that is at least `n`.
pub fn next_power_of_two(n: usize) -> (r: usize)
    requires
        n as nat <= pow2((usize::BITS - 1) as nat),
    ensures
        r == next_pow2(n as nat),
        r >= n,
        r >= 1,
{
    let mut p: usize = 1;
    let ghost mut k: nat = 0;
    proof {
        lemma2_to64();
        lemma_ceil_log2(n as nat);
        lemma_usize_bits();
        lemma_pow2_ge_next(n as nat, (usize::BITS - 1) as nat);
    }
    while p < n
        invariant
            p == pow2(k),
            k <= ceil_log2(n as nat),
            n as nat <= pow2((usize::BITS - 1) as nat),
            usize::BITS == 32 || usize::BITS == 64,
            usize::MAX as nat + 1 == pow2(usize::BITS as nat),
            p >= 1,
            ceil_log2(n as nat) <= usize::BITS - 1,
        decreases usize::BITS - k,
    {
        proof {
            lemma_ceil_log2(n as nat);
            vstd::arithmetic::power2::lemma_pow2_unfold(k + 1);
            lemma_pow2_ge_next(n as nat, (usize::BITS - 1) as nat);
            if k >= (usize::BITS - 1) as nat {
                if k > (usize::BITS - 1) as nat {
                    lemma_pow2_strictly_increases((usize::BITS - 1) as nat, k);
                }
            }
            vstd::arithmetic::power2::lemma_pow2_unfold(usize::BITS as nat);
        }
        p = p * 2;
        proof {
            k = k + 1;
        }
    }
    proof {
        lemma_pow2_ge_next(n as nat, k);
        lemma_ceil_log2(n as nat);
        if k < ceil_log2(n as nat) {
            if k < (ceil_log2(n as nat) - 1) as nat {
                lemma_pow2_strictly_increases(k, (ceil_log2(n as nat) - 1) as nat);
            }
        }
    }
    p
}

/// The width of `usize` in terms of `pow2`.
pub proof fn lemma_usize_bits()
    ensures
        usize::BITS == 32 || usize::BITS == 64,
        usize::MAX as nat + 1 == pow2(usize::BITS as nat),
{
    lemma2_to64();
    vstd::arithmetic::power2::lemma2_to64_rest();
}

proof fn lemma2_to64_rest_hint()
    ensures
        pow2(63) == 0x8000_0000_0000_0000,
        pow2(64) == 0x1_0000_0000_0000_0000,
{
    vstd::arithmetic::power2::lemma2_to64_rest();
}

/// Whether `n` is a power of two.
pub fn is_power_of_two(n: usize) -> (r: bool)
    ensures
        r == is_pow2(n as nat),
{
    let mut k: usize = 0;
    proof {
        lemma_usize_bits();
    }
    while k < usize::BITS as usize
        invariant
            k <= usize::BITS,
            usize::BITS == 32 || usize::BITS == 64,
            usize::MAX as nat + 1 == pow2(usize::BITS as nat),
            forall|j: nat| j < k ==> pow2(j) != n,
        decreases usize::BITS - k,
    {
        proof {
            lemma_usize_pow2_no_overflow(k as nat);
            lemma_usize_shl_is_mul(1, k);
        }
        if n == 1usize << k {
            return true;
        }
        k = k + 1;
    }
    proof {
        if is_pow2(n as nat) {
            let j = choose|j: nat| pow2(j) == n;
            if j >= usize::BITS {
                if j > usize::BITS {
                    lemma_pow2_strictly_increases(usize::BITS as nat, j);
                }
            }
        }
    }
    false
}


/// The size of a block of order `order` when the smallest block is `2^l`.
pub open spec fn order_size_of(l: nat, order: nat) -> nat {
    pow2(l + order)
}

/// No address occurs twice.
pub open spec fn no_dup(s: Seq<usize>) -> bool {
    forall|i: int, j: int| 0 <= i < j < s.len() ==> s[i] != s[j]
}

/// The lists after taking the head of list `order`; the top list loses all its blocks.
pub open spec fn popped(lists: Seq<Seq<usize>>, order: int) -> Seq<Seq<usize>> {
    lists.update(
        order,
        if order == HEAP_BLOCKS - 1 {
            Seq::<usize>::empty()
        } else {
            lists[order].drop_last()
        },
    )
}

/// The lists after splitting a block of order `from` at `block` down to order
/// `needed`: every order `o` in `needed..from` receives the upper half `block + 2^(l+o)`.
pub open spec fn split_into(
    lists: Seq<Seq<usize>>,
    block: usize,
    l: nat,
    from: int,
    needed: int,
) -> Seq<Seq<usize>> {
    Seq::new(
        lists.len(),
        |o: int|
            if needed <= o < from {
                lists[o].push((block + pow2(l + o as nat)) as usize)
            } else {
                lists[o]
            },
    )
}

/// The first order at or above `from` whose list holds a block, or `HEAP_BLOCKS`.
pub open spec fn first_free_order(lists: Seq<Seq<usize>>, from: int) -> int
    decreases HEAP_BLOCKS - from,
{
    if from >= HEAP_BLOCKS {
        HEAP_BLOCKS as int
    } else if lists[from].len() > 0 {
        from
    } else {
        first_free_order(lists, from + 1)
    }
}

/// The bytes held by the lists of orders below `k`.
pub open spec fn free_mem_upto(lists: Seq<Seq<usize>>, l: nat, k: int) -> nat
    decreases k,
{
    if k <= 0 {
        0
    } else {
        free_mem_upto(lists, l, k - 1) + lists[k - 1].len() * pow2(l + (k - 1) as nat)
    }
}

/// The block size that a request of `size` bytes aligned to `align` is served from.
pub open spec fn allocation_size_spec(size: nat, align: nat, min_block: nat, heap_size: nat) -> Option<nat> {
    if !is_pow2(align) {
        None
    } else if align > MIN_HEAP_ALIGN {
        None
    } else {
        let s1 = if align > size { align } else { size };
        let s2 = if s1 >= min_block { s1 } else { min_block };
        let s3 = next_pow2(s2);
        if s3 > heap_size {
            None
        } else {
            Some(s3)
        }
    }
}

/// A heap of `heap_size` bytes from `heap_start`, split into power-of-two blocks.
pub struct BuddyAllocator {
    pub heap_start: usize,
    heap_size: usize,
    free_lists: Vec<Vec<usize>>,
    min_block_size: usize,
    min_block_size_log2: u8,
}

impl BuddyAllocator {
    /// The free lists, one per order, each with its head last.
    pub closed spec fn lists(&self) -> Seq<Seq<usize>> {
        self.free_lists@.map_values(|v: Vec<usize>| v@)
    }

    /// The first address of the heap.
    pub closed spec fn start(&self) -> usize {
        self.heap_start
    }

    /// The size of the heap in bytes.
    pub closed spec fn heap_size_spec(&self) -> nat {
        self.heap_size as nat
    }

    /// The size of the smallest block.
    pub closed spec fn min_block(&self) -> nat {
        self.min_block_size as nat
    }

    /// The log of the size of the smallest block.
    pub closed spec fn min_log2(&self) -> nat {
        self.min_block_size_log2 as nat
    }

    /// The size of a block of order `order`.
    pub open spec fn order_size_spec(&self, order: nat) -> nat {
        order_size_of(self.min_log2(), order)
    }

    /// The bytes on the free lists.
    pub open spec fn free_mem(&self) -> nat {
        free_mem_upto(self.lists(), self.min_log2(), HEAP_BLOCKS as int)
    }

    /// The block size a request is served from.
    pub open spec fn allocation_size_of(&self, size: nat, align: nat) -> Option<nat> {
        allocation_size_spec(size, align, self.min_block(), self.heap_size_spec())
    }

    /// The order a request is served from.
    pub open spec fn allocation_order_of(&self, size: nat, align: nat) -> Option<nat> {
        match self.allocation_size_of(size, align) {
            Some(s) => Some((spec_log2(s) - self.min_log2()) as nat),
            None => None,
        }
    }

    /// The block an allocation returns and the free lists after it.
    pub open spec fn alloc_outcome(&self, size: nat, align: nat) -> (Option<usize>, Seq<Seq<usize>>) {
        match self.allocation_order_of(size, align) {
            None => (None, self.lists()),
            Some(needed) => {
                let o = first_free_order(self.lists(), needed as int);
                if o >= HEAP_BLOCKS {
                    (None, self.lists())
                } else {
                    let block = self.lists()[o].last();
                    (
                        Some(block),
                        split_into(popped(self.lists(), o), block, self.min_log2(), o, needed as int),
                    )
                }
            },
        }
    }

    /// The free lists after a block of the given request is given back.
    pub open spec fn dealloc_outcome(&self, ptr: usize, size: nat, align: nat) -> Seq<Seq<usize>> {
        let o = self.allocation_order_of(size, align).unwrap() as int;
        if o < HEAP_BLOCKS {
            self.lists().update(o, self.lists()[o].push(ptr))
        } else {
            self.lists()
        }
    }

    /// The allocator's invariant: sixteen lists without repeats, the smallest
    /// block `heap_size >> 15`, every free block inside the address space,
    /// and, for a heap whose size is a power of two of at least 2^15 (whose
    /// top block is the whole heap), no top block but the heap itself.
    pub closed spec fn wf(&self) -> bool {
        &&& self.free_lists@.len() == HEAP_BLOCKS
        &&& self.min_block_size as nat == self.heap_size as nat / pow2(15)
        &&& self.min_block_size_log2 as nat == spec_log2(self.min_block_size as nat)
        &&& self.min_block_size_log2 + HEAP_BLOCKS <= usize::BITS
        &&& self.heap_start as nat + self.heap_size as nat <= usize::MAX
        &&& forall|o: int| 0 <= o < HEAP_BLOCKS ==> #[trigger] no_dup(self.lists()[o])
        &&& forall|o: int, i: int|
            0 <= o < HEAP_BLOCKS && 0 <= i < self.lists()[o].len() ==> #[trigger] self.lists()[o][i] as nat
                + pow2(self.min_block_size_log2 as nat + o as nat) <= usize::MAX
        &&& pow2_heap(self.heap_size as nat) ==> forall|i: int|
            0 <= i < self.lists()[HEAP_BLOCKS - 1].len() ==> #[trigger] self.lists()[HEAP_BLOCKS - 1][i] == self.heap_start
    }
}

/// `n < 2^k` bounds the log of `n` below `k`.
proof fn lemma_log2_lt(n: nat, k: nat)
    requires
        n < pow2(k),
        k >= 1,
    ensures
        spec_log2(n) < k,
{
    lemma_halvings_log2(n);
    vstd::arithmetic::power2::lemma_pow2_unfold(k);
    lemma_halvings_bound_n(n / 2, (k - 1) as nat);
}

/// The smallest block of any heap is below `2^(BITS - 15)`.
proof fn lemma_min_block_bound(heap_size: usize)
    ensures
        heap_size as nat / pow2(15) < pow2((usize::BITS - 15) as nat),
        pow2((usize::BITS - 15) as nat) < pow2((usize::BITS - 1) as nat),
{
    lemma_usize_bits();
    lemma2_to64();
    lemma_pow2_adds(15, (usize::BITS - 15) as nat);
    assert(15 + (usize::BITS - 15) as nat == usize::BITS as nat);
    vstd::arithmetic::div_mod::lemma_multiply_divide_lt(
        heap_size as int, pow2(15) as int, pow2((usize::BITS - 15) as nat) as int);
    lemma_pow2_strictly_increases((usize::BITS - 15) as nat, (usize::BITS - 1) as nat);
}

/// A power of two at most `n` is reached at its log.
proof fn lemma_pow2_log2_le(n: nat)
    requires
        n >= 1,
    ensures
        pow2(spec_log2(n)) <= n,
    decreases n,
{
    if n < 2 {
        lemma2_to64();
    } else {
        lemma_pow2_log2_le(n / 2);
        vstd::arithmetic::power2::lemma_pow2_unfold(spec_log2(n));
    }
}

/// The free memory of lists holding one block, on the top list, is that
/// block's size.
proof fn lemma_new_free_mem(lists: Seq<Seq<usize>>, l: nat)
    requires
        lists.len() == HEAP_BLOCKS,
        forall|o: int| 0 <= o < HEAP_BLOCKS - 1 ==> (#[trigger] lists[o]).len() == 0,
        lists[HEAP_BLOCKS - 1].len() == 1,
    ensures
        free_mem_upto(lists, l, HEAP_BLOCKS as int) == pow2(l + 15),
{
    assert forall|k: int| 0 <= k <= HEAP_BLOCKS - 1 implies #[trigger] free_mem_upto(lists, l, k) == 0 by {
        lemma_free_mem_zero_prefix(lists, l, k);
    }
    assert(free_mem_upto(lists, l, 15) == 0);
    assert(free_mem_upto(lists, l, 16) == free_mem_upto(lists, l, 15) + lists[15].len() * pow2(l + 15));
}

/// Empty lists below `k` hold no memory.
proof fn lemma_free_mem_zero_prefix(lists: Seq<Seq<usize>>, l: nat, k: int)
    requires
        forall|o: int| 0 <= o < k ==> (#[trigger] lists[o]).len() == 0,
    ensures
        free_mem_upto(lists, l, k) == 0,
    decreases k,
{
    if k > 0 {
        lemma_free_mem_zero_prefix(lists, l, k - 1);
        assert(lists[k - 1].len() == 0);
    }
}

/// A heap whose size is a power of two of at least 2^15 has a smallest block
/// whose log, plus 15, gives the heap's size back.
proof fn lemma_pow2_heap_log2(n: nat)
    requires
        n >= 0x8000,
        is_pow2(n),
    ensures
        pow2(spec_log2(n / pow2(15)) + 15) == n,
{
    let k = choose|k: nat| pow2(k) == n;
    lemma2_to64();
    if k < 15 {
        lemma_pow2_strictly_increases(k, 15);
    }
    assert(k >= 15);
    lemma_pow2_adds((k - 15) as nat, 15);
    lemma_pow2_pos(15);
    vstd::arithmetic::div_mod::lemma_div_multiples_vanish(pow2((k - 15) as nat) as int, pow2(15) as int);
    assert(n / pow2(15) == pow2((k - 15) as nat));
    lemma_log2_pow2((k - 15) as nat);
}

impl BuddyAllocator {
    /// An allocator over `heap_size` bytes at `heap_start`: the whole heap is
    /// one free block of the top order, whose smallest block is
    /// `heap_size >> 15`. The free memory is that top block: at most the heap,
    /// and all of it when the heap's size is a power of two of at least
    /// 2^15. (A heap under 2^15 bytes has a smallest block of 0, and its top
    /// block is taken as 2^15 bytes, which must then be addressable.)
    pub fn new_unchecked(heap_start: usize, heap_size: usize) -> (r: Self)
        requires
            heap_start as nat + heap_size as nat <= usize::MAX,
            heap_size < 0x8000 ==> heap_start as nat + 0x8000 <= usize::MAX,
        ensures
            r.wf(),
            r.start() == heap_start,
            r.heap_size_spec() == heap_size,
            r.min_block() == heap_size as nat / pow2(15),
            r.free_mem() == pow2(r.min_log2() + 15),
            heap_size >= 0x8000 ==> r.free_mem() <= heap_size,
            heap_size >= 0x8000 && is_pow2(heap_size as nat) ==> r.free_mem() == heap_size,
            r.lists() == Seq::new(HEAP_BLOCKS as nat, |o: int| if o == HEAP_BLOCKS - 1 { seq![heap_start] } else { Seq::<usize>::empty() }),
    {
        proof {
            lemma_usize_bits();
            lemma_usize_shr_is_div(heap_size, 15);
        }
        let min_block_size = heap_size >> 15;
        let mut free_lists: Vec<Vec<usize>> = Vec::new();
        let mut i: usize = 0;
        while i < HEAP_BLOCKS
            invariant
                i <= HEAP_BLOCKS,
                free_lists@.len() == i,
                forall|o: int| 0 <= o < i ==> (#[trigger] free_lists@[o])@ == if o == HEAP_BLOCKS - 1 { seq![heap_start] } else { Seq::<usize>::empty() },
            decreases HEAP_BLOCKS - i,
        {
            let mut l: Vec<usize> = Vec::new();
            if i == HEAP_BLOCKS - 1 {
                l.push(heap_start);
            }
            free_lists.push(l);
            i = i + 1;
        }
        let min_block_size_log2 = log2(min_block_size);
        proof {
            lemma2_to64();
            lemma_pow2_adds(15, (usize::BITS - 15) as nat);
            vstd::arithmetic::div_mod::lemma_multiply_divide_lt(
                heap_size as int, pow2(15) as int, pow2((usize::BITS - 15) as nat) as int);
            lemma_log2_lt(min_block_size as nat, (usize::BITS - 15) as nat);
            if min_block_size >= 1 {
                lemma_pow2_log2_le(min_block_size as nat);
                lemma_pow2_adds(min_block_size_log2 as nat, 15);
                vstd::arithmetic::div_mod::lemma_fundamental_div_mod(heap_size as int, pow2(15) as int);
                vstd::arithmetic::mul::lemma_mul_inequality(
                    pow2(min_block_size_log2 as nat) as int, min_block_size as int, pow2(15) as int);
                vstd::arithmetic::div_mod::lemma_mod_pos_bound(heap_size as int, pow2(15) as int);
            }
        }
        let r = BuddyAllocator {
            heap_start,
            heap_size,
            free_lists,
            min_block_size,
            min_block_size_log2,
        };
        proof {
            assert(r.lists() =~= Seq::new(HEAP_BLOCKS as nat, |o: int| if o == HEAP_BLOCKS - 1 { seq![heap_start] } else { Seq::<usize>::empty() }));
            lemma_new_free_mem(r.lists(), min_block_size_log2 as nat);
            if heap_size >= 0x8000 && is_pow2(heap_size as nat) {
                lemma_pow2_heap_log2(heap_size as nat);
            }
        }
        r
    }
}

impl BuddyAllocator {
    /// Replaces list `order` with `list`.
    fn put_list(&mut self, order: usize, list: Vec<usize>)
        requires
            order < old(self).free_lists@.len(),
        ensures
            final(self).lists() == old(self).lists().update(order as int, list@),
            final(self).free_lists@.len() == old(self).free_lists@.len(),
            final(self).heap_start == old(self).heap_start,
            final(self).heap_size == old(self).heap_size,
            final(self).min_block_size == old(self).min_block_size,
            final(self).min_block_size_log2 == old(self).min_block_size_log2,
    {
        let _ = self.free_lists.remove(order);
        self.free_lists.insert(order, list);
        proof {
            assert(self.lists() =~= old(self).lists().update(order as int, list@));
        }
    }

    /// A copy of list `order`.
    fn get_list(&self, order: usize) -> (l: Vec<usize>)
        requires
            order < self.free_lists@.len(),
        ensures
            l@ == self.lists()[order as int],
    {
        let l = self.free_lists[order].clone();
        proof {
            assert(l@ =~= self.lists()[order as int]);
        }
        l
    }

    /// The block size serving a request, if the heap can serve it at all.
    fn allocation_size(&self, size: usize, align: usize) -> (r: Option<usize>)
        requires
            self.wf(),
            size as nat <= pow2((usize::BITS - 1) as nat),
        ensures
            r matches Some(s) ==> Some(s as nat) == self.allocation_size_of(size as nat, align as nat),
            r is None ==> self.allocation_size_of(size as nat, align as nat) is None,
    {
        let mut size = size;
        if !is_power_of_two(align) {
            return None;
        }
        if align > MIN_HEAP_ALIGN {
            return None;
        }
        if align > size {
            size = align;
        }
        if size < self.min_block_size {
            size = self.min_block_size;
        }
        proof {
            lemma_usize_bits();
            lemma2_to64();
            if size == self.min_block_size {
                lemma_min_block_bound(self.heap_size);
            }
            if size == align {
                vstd::arithmetic::power2::lemma_pow2_strictly_increases(12, (usize::BITS - 1) as nat);
            }
        }
        size = next_power_of_two(size);
        if size > self.heap_size {
            return None;
        }
        Some(size)
    }

    /// The order serving a request.
    fn allocation_order(&self, size: usize, align: usize) -> (r: Option<usize>)
        requires
            self.wf(),
            size as nat <= pow2((usize::BITS - 1) as nat),
        ensures
            r matches Some(o) ==> Some(o as nat) == self.allocation_order_of(size as nat, align as nat),
            r is None ==> self.allocation_order_of(size as nat, align as nat) is None,
    {
        match self.allocation_size(size, align) {
            Some(s) => {
                let l = log2(s);
                proof {
                    let s1 = if align > size { align as nat } else { size as nat };
                    let s2 = if s1 >= self.min_block_size { s1 } else { self.min_block_size as nat };
                    lemma_ceil_log2(s2);
                    lemma_log2_monotonic(self.min_block_size as nat, s as nat);
                }
                Some((l - self.min_block_size_log2) as usize)
            },
            None => None,
        }
    }

    /// The size of a block of order `order`.
    fn order_size(&self, order: usize) -> (r: usize)
        requires
            self.min_block_size_log2 + HEAP_BLOCKS <= usize::BITS,
            order < HEAP_BLOCKS,
        ensures
            r == self.order_size_spec(order as nat),
    {
        let shift = self.min_block_size_log2 as usize + order;
        proof {
            lemma_usize_bits();
            lemma_usize_pow2_no_overflow(shift as nat);
            lemma_usize_shl_is_mul(1, shift);
        }
        1usize << shift
    }

    /// Takes the head of list `order`; taking from the top list empties it.
    fn free_list_pop(&mut self, order: usize) -> (r: Option<usize>)
        requires
            old(self).wf(),
            order < HEAP_BLOCKS,
        ensures
            old(self).lists()[order as int].len() == 0 ==> r is None && *final(self) == *old(self),
            old(self).lists()[order as int].len() > 0 ==> r == Some(old(self).lists()[order as int].last())
                && final(self).lists() == popped(old(self).lists(), order as int)
                && final(self).heap_start == old(self).heap_start
                && final(self).heap_size == old(self).heap_size
                && final(self).min_block_size == old(self).min_block_size
                && final(self).min_block_size_log2 == old(self).min_block_size_log2
                && final(self).free_lists@.len() == HEAP_BLOCKS,
    {
        let len = self.free_lists[order].len();
        proof {
            assert(self.lists()[order as int] == self.free_lists@[order as int]@);
        }
        if len == 0 {
            return None;
        }
        let candidate = self.free_lists[order][len - 1];
        if order != HEAP_BLOCKS - 1 {
            let mut l = self.get_list(order);
            l.pop();
            self.put_list(order, l);
        } else {
            self.put_list(order, Vec::new());
        }
        proof {
            assert(final(self).lists() =~= popped(old(self).lists(), order as int));
        }
        Some(candidate)
    }

    /// Makes `block` the head of list `order`.
    fn free_list_insert(&mut self, order: usize, block: usize)
        requires
            old(self).free_lists@.len() == HEAP_BLOCKS,
            order < HEAP_BLOCKS,
        ensures
            final(self).lists() == old(self).lists().update(order as int, old(self).lists()[order as int].push(block)),
            final(self).heap_start == old(self).heap_start,
            final(self).heap_size == old(self).heap_size,
            final(self).min_block_size == old(self).min_block_size,
            final(self).min_block_size_log2 == old(self).min_block_size_log2,
            final(self).free_lists@.len() == HEAP_BLOCKS,
    {
        let mut l = self.get_list(order);
        l.push(block);
        self.put_list(order, l);
    }

    /// Unlinks the occurrence of `block` nearest the head of list `order`;
    /// whether one was found.
    fn free_list_remove(&mut self, order: usize, block: usize) -> (r: bool)
        requires
            old(self).free_lists@.len() == HEAP_BLOCKS,
            order < HEAP_BLOCKS,
        ensures
            r == old(self).lists()[order as int].contains(block),
            !r ==> *final(self) == *old(self),
            r ==> exists|i: int|
                0 <= i < old(self).lists()[order as int].len()
                    && old(self).lists()[order as int][i] == block
                    && (forall|j: int| i < j < old(self).lists()[order as int].len() ==> old(self).lists()[order as int][j] != block)
                    && final(self).lists() == old(self).lists().update(order as int, old(self).lists()[order as int].remove(i)),
            final(self).heap_start == old(self).heap_start,
            final(self).heap_size == old(self).heap_size,
            final(self).min_block_size == old(self).min_block_size,
            final(self).min_block_size_log2 == old(self).min_block_size_log2,
            final(self).free_lists@.len() == HEAP_BLOCKS,
    {
        let mut l = self.get_list(order);
        let mut i = l.len();
        while i > 0
            invariant
                i <= l@.len(),
                *self == *old(self),
                order < HEAP_BLOCKS,
                self.free_lists@.len() == HEAP_BLOCKS,
                l@ == old(self).lists()[order as int],
                forall|j: int| i <= j < l@.len() ==> l@[j] != block,
            decreases i,
        {
            if l[i - 1] == block {
                let ghost before = l@;
                l.remove(i - 1);
                self.put_list(order, l);
                proof {
                    assert(before.remove(i - 1) == l@);
                    assert(old(self).lists()[order as int][i - 1] == block);
                }
                return true;
            }
            i = i - 1;
        }
        false
    }

    /// The buddy of `block` at order `order`, unless a block of that order
    /// spans the whole heap.
    fn buddy(&self, order: usize, block: usize) -> (r: Option<usize>)
        requires
            self.wf(),
            order < HEAP_BLOCKS,
            block >= self.heap_start,
            block as nat + self.order_size_spec(order as nat) <= self.heap_start as nat + self.heap_size as nat,
        ensures
            self.order_size_spec(order as nat) >= self.heap_size ==> r is None,
            self.order_size_spec(order as nat) < self.heap_size ==> r == Some(
                (self.heap_start + ((block - self.heap_start) as usize ^ self.order_size_spec(order as nat) as usize)) as usize),
    {
        let relative = block - self.heap_start;
        let size = self.order_size(order);
        if size >= self.heap_size {
            None
        } else {
            assert((relative ^ size) as int <= relative as int + size as int) by (bit_vector);
            Some(self.heap_start + (relative ^ size))
        }
    }
}

/// Free memory changes by the change in length of the one list that changed.
proof fn lemma_free_mem_update(lists: Seq<Seq<usize>>, l: nat, o: int, x: Seq<usize>, k: int, d: int)
    requires
        0 <= o < lists.len(),
        k <= lists.len(),
        x.len() as int == lists[o].len() as int + d,
    ensures
        free_mem_upto(lists.update(o, x), l, k) as int == free_mem_upto(lists, l, k) as int + if o < k {
            d * pow2(l + o as nat) as int
        } else {
            0
        },
    decreases k,
{
    if k > 0 {
        lemma_free_mem_update(lists, l, o, x, k - 1, d);
        if o == k - 1 {
            assert((x.len() as int) * pow2(l + o as nat) as int - (lists[o].len() as int) * pow2(l + o as nat) as int
                == d * pow2(l + o as nat) as int) by (nonlinear_arith)
                requires x.len() as int == lists[o].len() as int + d;
        }
    }
}

/// Free memory only grows with more orders.
proof fn lemma_free_mem_monotonic(lists: Seq<Seq<usize>>, l: nat, j: int, k: int)
    requires
        j <= k,
    ensures
        free_mem_upto(lists, l, j) <= free_mem_upto(lists, l, k),
    decreases k - j,
{
    if j < k {
        lemma_free_mem_monotonic(lists, l, j, k - 1);
    }
}

/// Lists that agree on every order give the same free memory.
proof fn lemma_free_mem_ext(a: Seq<Seq<usize>>, b: Seq<Seq<usize>>, l: nat, k: int)
    requires
        k <= a.len(),
        k <= b.len(),
        forall|o: int| 0 <= o < k ==> a[o].len() == b[o].len(),
    ensures
        free_mem_upto(a, l, k) == free_mem_upto(b, l, k),
    decreases k,
{
    if k > 0 {
        lemma_free_mem_ext(a, b, l, k - 1);
    }
}

/// Splitting a block of order `o` down to order `m` adds `2^(l+o) - 2^(l+m)` free bytes.
proof fn lemma_split_free_mem(p: Seq<Seq<usize>>, block: usize, l: nat, o: int, m: int)
    requires
        p.len() == HEAP_BLOCKS,
        0 <= m <= o < HEAP_BLOCKS,
    ensures
        free_mem_upto(split_into(p, block, l, o, m), l, HEAP_BLOCKS as int) as int
            == free_mem_upto(p, l, HEAP_BLOCKS as int) as int + pow2(l + o as nat) as int - pow2(l + m as nat) as int,
    decreases o - m,
{
    if m == o {
        assert(split_into(p, block, l, o, m) =~= p);
    } else {
        lemma_split_free_mem(p, block, l, o, m + 1);
        let prev = split_into(p, block, l, o, m + 1);
        assert(prev[m] == p[m]);
        assert(prev.len() == HEAP_BLOCKS);
        assert(split_into(p, block, l, o, m) =~= prev.update(m, p[m].push((block + pow2(l + m as nat)) as usize)));
        lemma_free_mem_update(prev, l, m, p[m].push((block + pow2(l + m as nat)) as usize), HEAP_BLOCKS as int, 1);
        vstd::arithmetic::power2::lemma_pow2_unfold(l + (m + 1) as nat);
    }
}

/// The first free order is the first order with a block.
proof fn lemma_first_free_order(lists: Seq<Seq<usize>>, from: int, o: int)
    requires
        0 <= from <= o <= HEAP_BLOCKS,
        lists.len() == HEAP_BLOCKS,
        forall|k: int| from <= k < o ==> lists[k].len() == 0,
        o < HEAP_BLOCKS ==> lists[o].len() > 0,
    ensures
        first_free_order(lists, from) == o,
    decreases o - from,
{
    if from < o {
        lemma_first_free_order(lists, from + 1, o);
    }
}

/// A sub-range of a list without repeats has none.
proof fn lemma_no_dup_prefix(s: Seq<usize>, n: int)
    requires
        no_dup(s),
        0 <= n <= s.len(),
    ensures
        no_dup(s.subrange(0, n)),
{
}

impl BuddyAllocator {
    /// Splits `block`, of order `order`, down to `order_needed`: the upper half
    /// of each split goes onto the list one order below.
    fn split_free_block(&mut self, block: usize, order: usize, order_needed: usize)
        requires
            old(self).free_lists@.len() == HEAP_BLOCKS,
            old(self).min_block_size_log2 + HEAP_BLOCKS <= usize::BITS,
            order_needed <= order < HEAP_BLOCKS,
            block as nat + pow2(old(self).min_block_size_log2 as nat + order as nat) <= usize::MAX,
        ensures
            final(self).lists() == split_into(old(self).lists(), block, old(self).min_log2(), order as int, order_needed as int),
            final(self).heap_start == old(self).heap_start,
            final(self).heap_size == old(self).heap_size,
            final(self).min_block_size == old(self).min_block_size,
            final(self).min_block_size_log2 == old(self).min_block_size_log2,
            final(self).free_lists@.len() == HEAP_BLOCKS,
    {
        let mut size_to_split = self.order_size(order);
        let mut order_now = order;
        let ghost l = self.min_block_size_log2 as nat;
        proof {
            assert(self.lists() =~= split_into(old(self).lists(), block, l, order as int, order as int));
        }
        while order_now > order_needed
            invariant
                order_needed <= order_now <= order < HEAP_BLOCKS,
                size_to_split == pow2(l + order_now as nat),
                l == self.min_block_size_log2,
                block as nat + pow2(l + order as nat) <= usize::MAX,
                self.free_lists@.len() == HEAP_BLOCKS,
                self.lists() == split_into(old(self).lists(), block, l, order as int, order_now as int),
                self.heap_start == old(self).heap_start,
                self.heap_size == old(self).heap_size,
                self.min_block_size == old(self).min_block_size,
                self.min_block_size_log2 == old(self).min_block_size_log2,
            decreases order_now,
        {
            proof {
                vstd::arithmetic::power2::lemma_pow2_unfold(l + order_now as nat);
                lemma_pow2_pos(l + (order_now - 1) as nat);
                if order_now < order {
                    lemma_pow2_strictly_increases(l + order_now as nat, l + order as nat);
                }
            }
            let ghost before = self.lists();
            assert(size_to_split >> 1 == size_to_split / 2) by (bit_vector);
            size_to_split = size_to_split >> 1;
            order_now = order_now - 1;
            self.free_list_insert(order_now, block + size_to_split);
            proof {
                assert(self.lists() =~= split_into(old(self).lists(), block, l, order as int, order_now as int));
            }
        }
    }

    /// Allocates a block for `size` bytes aligned to `align`: the smallest
    /// suitable block is taken from the first non-empty list at or above the
    /// needed order and split down to that order.
    pub fn allocate(&mut self, size: usize, align: usize) -> (r: Option<usize>)
        requires
            old(self).wf(),
            size as nat <= pow2((usize::BITS - 1) as nat),
        ensures
            final(self).wf(),
            (r, final(self).lists()) == old(self).alloc_outcome(size as nat, align as nat),
            final(self).start() == old(self).start(),
            final(self).heap_size_spec() == old(self).heap_size_spec(),
            final(self).min_block() == old(self).min_block(),
            final(self).min_log2() == old(self).min_log2(),
    {
        match self.allocation_order(size, align) {
            Some(order_needed) => {
                let mut order = order_needed;
                while order < HEAP_BLOCKS
                    invariant
                        *self == *old(self),
                        self.wf(),
                        order_needed <= order,
                        Some(order_needed as nat) == self.allocation_order_of(size as nat, align as nat),
                        forall|k: int| order_needed <= k < order ==> self.lists()[k].len() == 0,
                    decreases HEAP_BLOCKS - order,
                {
                    let ghost lists0 = self.lists();
                    let popped_block = self.free_list_pop(order);
                    match popped_block {
                        Some(block) => {
                            proof {
                                lemma_first_free_order(lists0, order_needed as int, order as int);
                                assert(lists0[order as int][lists0[order as int].len() - 1] == block);
                            }
                            if order > order_needed {
                                self.split_free_block(block, order, order_needed);
                            } else {
                                proof {
                                    assert(split_into(popped(lists0, order as int), block, self.min_log2(), order as int, order as int) =~= popped(lists0, order as int));
                                }
                            }
                            proof {
                                lemma_alloc_keeps_wf(old(self), *self, lists0, block, order as int, order_needed as int);
                            }
                            return Some(block);
                        },
                        None => {},
                    }
                    order = order + 1;
                }
                proof {
                    if order_needed < HEAP_BLOCKS {
                        lemma_first_free_order(self.lists(), order_needed as int, HEAP_BLOCKS as int);
                    }
                }
                None
            },
            None => None,
        }
    }
}

/// Taking the head of an order and splitting it keeps the allocator's invariant.
proof fn lemma_alloc_keeps_wf(
    a: &BuddyAllocator,
    b: BuddyAllocator,
    lists0: Seq<Seq<usize>>,
    block: usize,
    o: int,
    n: int,
)
    requires
        a.wf(),
        lists0 == a.lists(),
        0 <= n <= o < HEAP_BLOCKS,
        forall|k: int| n <= k < o ==> lists0[k].len() == 0,
        lists0[o].len() > 0,
        block == lists0[o].last(),
        b.lists() == split_into(popped(lists0, o), block, a.min_log2(), o, n),
        b.heap_start == a.heap_start,
        b.heap_size == a.heap_size,
        b.min_block_size == a.min_block_size,
        b.min_block_size_log2 == a.min_block_size_log2,
        b.free_lists@.len() == HEAP_BLOCKS,
    ensures
        b.wf(),
{
    let l = a.min_log2();
    let p = popped(lists0, o);
    assert(lists0.len() == HEAP_BLOCKS) by {
        assert(a.lists().len() == a.free_lists@.len());
    }
    assert forall|k: int| 0 <= k < HEAP_BLOCKS implies #[trigger] no_dup(b.lists()[k]) by {
        assert(no_dup(lists0[k]));
        if n <= k < o {
            assert(b.lists()[k] =~= seq![(block + pow2(l + k as nat)) as usize]);
        } else if k == o {
            if o == HEAP_BLOCKS - 1 {
                assert(b.lists()[k] =~= Seq::<usize>::empty());
            } else {
                lemma_no_dup_prefix(lists0[o], lists0[o].len() - 1);
            }
        }
    }
    assert forall|k: int, i: int| 0 <= k < HEAP_BLOCKS && 0 <= i < b.lists()[k].len() implies
        #[trigger] b.lists()[k][i] as nat + pow2(b.min_block_size_log2 as nat + k as nat) <= usize::MAX by {
        assert(block as nat + pow2(l + o as nat) <= usize::MAX);
        if n <= k < o {
            vstd::arithmetic::power2::lemma_pow2_unfold(l + (k + 1) as nat);
            if k + 1 < o {
                lemma_pow2_strictly_increases(l + (k + 1) as nat, l + o as nat);
            }
            assert(b.lists()[k][i] == (block + pow2(l + k as nat)) as usize);
        } else if k == o {
            assert(b.lists()[k][i] == lists0[k][i]);
        } else {
            assert(b.lists()[k][i] == lists0[k][i]);
        }
    }
}

impl BuddyAllocator {
    /// Gives back a block allocated for `size` bytes aligned to `align`: it is
    /// put on the list of its order, at the head. Buddies are looked up but a
    /// block being freed is never on its own list, so no merge happens.
    pub fn dealloc(&mut self, ptr: usize, size: usize, align: usize)
        requires
            old(self).wf(),
            size as nat <= pow2((usize::BITS - 1) as nat),
            old(self).allocation_order_of(size as nat, align as nat) is Some,
            old(self).allocation_order_of(size as nat, align as nat).unwrap() < HEAP_BLOCKS ==> {
                let o = old(self).allocation_order_of(size as nat, align as nat).unwrap();
                &&& ptr >= old(self).start()
                &&& ptr as nat + old(self).order_size_spec(o) <= old(self).start() as nat + old(self).heap_size_spec()
                &&& !old(self).lists()[o as int].contains(ptr)
            },
        ensures
            final(self).wf(),
            final(self).lists() == old(self).dealloc_outcome(ptr, size as nat, align as nat),
            final(self).start() == old(self).start(),
            final(self).heap_size_spec() == old(self).heap_size_spec(),
            final(self).min_block() == old(self).min_block(),
            final(self).min_log2() == old(self).min_log2(),
    {
        let initial_order = match self.allocation_order(size, align) {
            Some(o) => o,
            None => {
                return;
            },
        };
        let mut block = ptr;
        let mut order = initial_order;
        while order < HEAP_BLOCKS
            invariant
                *self == *old(self),
                self.wf(),
                order == initial_order,
                block == ptr,
                Some(initial_order as nat) == self.allocation_order_of(size as nat, align as nat),
                order < HEAP_BLOCKS ==> {
                    &&& ptr >= self.start()
                    &&& ptr as nat + self.order_size_spec(order as nat) <= self.start() as nat + self.heap_size_spec()
                    &&& !self.lists()[order as int].contains(ptr)
                },
            decreases HEAP_BLOCKS - order,
        {
            match self.buddy(order, block) {
                Some(buddy) => {
                    if self.free_list_remove(order, block) {
                        block = if block < buddy { block } else { buddy };
                        order = order + 1;
                        continue;
                    }
                },
                None => {},
            }
            let ghost before = *self;
            self.free_list_insert(order, block);
            proof {
                let o = order as int;
                assert forall|k: int| 0 <= k < HEAP_BLOCKS implies #[trigger] no_dup(self.lists()[k]) by {
                    assert(no_dup(before.lists()[k]));
                }
                assert forall|k: int, i: int| 0 <= k < HEAP_BLOCKS && 0 <= i < self.lists()[k].len() implies
                    #[trigger] self.lists()[k][i] as nat + pow2(self.min_block_size_log2 as nat + k as nat) <= usize::MAX by {
                    if k == o && i == before.lists()[k].len() {
                    } else {
                        assert(self.lists()[k][i] == before.lists()[k][i]);
                    }
                }
                if pow2_heap(self.heap_size as nat) {
                    let top = HEAP_BLOCKS - 1;
                    if o == top {
                        lemma_pow2_heap_log2(self.heap_size as nat);
                        assert(ptr == self.heap_start);
                    }
                    assert forall|i: int| 0 <= i < self.lists()[top].len() implies #[trigger] self.lists()[top][i] == self.heap_start by {
                        if !(o == top && i == before.lists()[top].len()) {
                            assert(self.lists()[top][i] == before.lists()[top][i]);
                        }
                    }
                }
            }
            return;
        }
    }

    /// Whether `dealloc` may give back `ptr` as a block of `size` bytes
    /// aligned to `align`: the request names an order, and a block of an
    /// order the lists hold lies inside the heap and is not free already.
    pub fn may_dealloc(&self, ptr: usize, size: usize, align: usize) -> (r: bool)
        requires
            self.wf(),
            size as nat <= pow2((usize::BITS - 1) as nat),
        ensures
            r == ({
                &&& self.allocation_order_of(size as nat, align as nat) is Some
                &&& self.allocation_order_of(size as nat, align as nat).unwrap() < HEAP_BLOCKS ==> {
                    let o = self.allocation_order_of(size as nat, align as nat).unwrap();
                    &&& ptr >= self.start()
                    &&& ptr as nat + self.order_size_spec(o) <= self.start() as nat + self.heap_size_spec()
                    &&& !self.lists()[o as int].contains(ptr)
                }
            }),
    {
        let order = match self.allocation_order(size, align) {
            None => return false,
            Some(o) => o,
        };
        if order >= HEAP_BLOCKS {
            return true;
        }
        if ptr < self.heap_start {
            return false;
        }
        let block = self.order_size(order);
        if ptr as u128 + block as u128 > self.heap_start as u128 + self.heap_size as u128 {
            return false;
        }
        let list = self.get_list(order);
        let mut free = false;
        let mut i: usize = 0;
        while i < list.len()
            invariant
                0 <= i <= list@.len(),
                free == (exists|k: int| 0 <= k < i && list@[k] == ptr),
            decreases list@.len() - i,
        {
            if list[i] == ptr {
                free = true;
            }
            i = i + 1;
        }
        proof {
            if free {
                let k = choose|k: int| 0 <= k < i && list@[k] == ptr;
                assert(list@.contains(ptr));
            } else {
                assert(!list@.contains(ptr));
            }
        }
        !free
    }

    /// The bytes on the free lists, counted as `get_free_mem` counts them,
    /// where the count fits in a `usize`: `None` where it would overflow.
    pub fn free_mem_checked(&self) -> (r: Option<usize>)
        requires
            self.wf(),
        ensures
            r == (if self.free_mem() <= usize::MAX { Some(self.free_mem() as usize) } else { None::<usize> }),
    {
        let mut free_mem: usize = 0;
        let mut order: usize = 0;
        let ghost l = self.min_log2();
        while order < HEAP_BLOCKS
            invariant
                self.wf(),
                l == self.min_log2(),
                order <= HEAP_BLOCKS,
                free_mem == free_mem_upto(self.lists(), l, order as int),
            decreases HEAP_BLOCKS - order,
        {
            let len = self.free_lists[order].len();
            let size = self.order_size(order);
            let mut i = len;
            proof {
                assert(self.lists()[order as int].len() == len);
            }
            while i > 0
                invariant
                    i <= len,
                    len == self.lists()[order as int].len(),
                    order < HEAP_BLOCKS,
                    self.wf(),
                    size == pow2(l + order as nat),
                    l == self.min_log2(),
                    free_mem as int == free_mem_upto(self.lists(), l, order as int) as int + (len - i) as int * size as int,
                decreases i,
            {
                proof {
                    assert((len - i) as int * size as int + size as int == (len - (i - 1)) as int * size as int) by (nonlinear_arith);
                }
                match free_mem.checked_add(size) {
                    Some(m) => free_mem = m,
                    None => {
                        proof {
                            assert((len - i + 1) as int * size as int <= len as int * size as int) by (nonlinear_arith)
                                requires i >= 1, i <= len;
                            lemma_free_mem_monotonic(self.lists(), l, order as int + 1, HEAP_BLOCKS as int);
                        }
                        return None;
                    },
                }
                i = i - 1;
            }
            order = order + 1;
        }
        Some(free_mem)
    }

    /// The bytes on the free lists, counted block by block.
    pub fn get_free_mem(&self) -> (r: usize)
        requires
            self.wf(),
            self.free_mem() <= usize::MAX,
        ensures
            r == self.free_mem(),
    {
        let mut free_mem: usize = 0;
        let mut order: usize = 0;
        let ghost l = self.min_log2();
        while order < HEAP_BLOCKS
            invariant
                self.wf(),
                l == self.min_log2(),
                self.free_mem() <= usize::MAX,
                order <= HEAP_BLOCKS,
                free_mem == free_mem_upto(self.lists(), l, order as int),
            decreases HEAP_BLOCKS - order,
        {
            let len = self.free_lists[order].len();
            let size = self.order_size(order);
            let mut i = len;
            proof {
                assert(self.lists()[order as int].len() == len);
                lemma_free_mem_monotonic(self.lists(), l, order as int + 1, HEAP_BLOCKS as int);
            }
            while i > 0
                invariant
                    i <= len,
                    len == self.lists()[order as int].len(),
                    order < HEAP_BLOCKS,
                    size == pow2(l + order as nat),
                    free_mem as int == free_mem_upto(self.lists(), l, order as int) as int + (len - i) as int * size as int,
                    free_mem_upto(self.lists(), l, order as int + 1) <= usize::MAX,
                decreases i,
            {
                proof {
                    assert((len - i) as int * size as int + size as int == (len - (i - 1)) as int * size as int) by (nonlinear_arith);
                    assert((len - i + 1) as int * size as int <= len as int * size as int) by (nonlinear_arith)
                        requires i >= 1, i <= len;
                }
                free_mem = free_mem + size;
                i = i - 1;
            }
            order = order + 1;
        }
        free_mem
    }

    /// The size of the heap.
    pub fn get_total_mem(&self) -> (r: usize)
        ensures
            r == self.heap_size_spec(),
    {
        self.heap_size
    }

    /// The bytes of the heap not on the free lists.
    pub fn get_used_mem(&self) -> (r: usize)
        requires
            self.wf(),
            self.free_mem() <= self.heap_size_spec(),
        ensures
            r == self.heap_size_spec() - self.free_mem(),
    {
        self.get_total_mem() - self.get_free_mem()
    }
}

/// The order a request is served from holds blocks of exactly the request's
/// allocation size.
proof fn lemma_order_size_is_allocation_size(a: BuddyAllocator, size: nat, align: nat)
    requires
        a.wf(),
        a.allocation_size_of(size, align) is Some,
    ensures
        a.order_size_spec(a.allocation_order_of(size, align).unwrap()) == a.allocation_size_of(size, align).unwrap(),
{
    let s1 = if align > size { align } else { size };
    let s2 = if s1 >= a.min_block() { s1 } else { a.min_block() };
    let c = ceil_log2(s2);
    let l = a.min_log2();
    assert(a.allocation_size_of(size, align).unwrap() == pow2(c));
    lemma_log2_pow2(c);
    lemma_ceil_log2(s2);
    if a.min_block() >= 1 {
        lemma_pow2_log2_le(a.min_block());
        if c < l {
            lemma_pow2_strictly_increases(c, l);
        }
    } else {
        assert(l == 0);
    }
    assert(c >= l);
    assert(a.allocation_order_of(size, align).unwrap() == (c - l) as nat);
    assert(l + (c - l) as nat == c);
}

/// Law: an allocation takes exactly its allocation size, the size of the
/// order it is served from, off the free memory (when the top list holds at
/// most one block).
pub proof fn law_allocation_takes_its_block(a: BuddyAllocator, size: nat, align: nat)
    requires
        a.wf(),
        a.lists()[HEAP_BLOCKS - 1].len() <= 1,
        a.alloc_outcome(size, align).0 is Some,
    ensures
        a.allocation_order_of(size, align) is Some,
        free_mem_upto(a.alloc_outcome(size, align).1, a.min_log2(), HEAP_BLOCKS as int)
            + a.order_size_spec(a.allocation_order_of(size, align).unwrap()) == a.free_mem(),
        free_mem_upto(a.alloc_outcome(size, align).1, a.min_log2(), HEAP_BLOCKS as int)
            + a.allocation_size_of(size, align).unwrap() == a.free_mem(),
{
    lemma_order_size_is_allocation_size(a, size, align);
    let lists = a.lists();
    let l = a.min_log2();
    let n = a.allocation_order_of(size, align).unwrap() as int;
    let o = first_free_order(lists, n);
    assert(lists.len() == HEAP_BLOCKS);
    lemma_first_free_order_props(lists, n);
    let p = popped(lists, o);
    assert(p[o].len() == lists[o].len() - 1);
    lemma_free_mem_update(lists, l, o, p[o], HEAP_BLOCKS as int, -1);
    assert(p =~= lists.update(o, p[o]));
    lemma_split_free_mem(p, lists[o].last(), l, o, n);
}

/// A well-formed allocator over a heap of a power-of-two size keeps at most
/// one top block free.
proof fn lemma_pow2_heap_top(a: BuddyAllocator)
    requires
        a.wf(),
        pow2_heap(a.heap_size_spec()),
    ensures
        a.lists()[HEAP_BLOCKS - 1].len() <= 1,
{
    let top = a.lists()[HEAP_BLOCKS - 1];
    if top.len() >= 2 {
        assert(no_dup(top));
        assert(top[0] == a.heap_start && top[1] == a.heap_start);
    }
}

/// Law: on a heap whose size is a power of two of at least 2^15, an
/// allocation takes exactly its allocation size off the free memory, so the
/// memory in use grows by exactly that size.
pub proof fn law_allocation_uses_its_size(a: BuddyAllocator, size: nat, align: nat)
    requires
        a.wf(),
        pow2_heap(a.heap_size_spec()),
        a.alloc_outcome(size, align).0 is Some,
    ensures
        free_mem_upto(a.alloc_outcome(size, align).1, a.min_log2(), HEAP_BLOCKS as int)
            + a.allocation_size_of(size, align).unwrap() == a.free_mem(),
        a.heap_size_spec() - free_mem_upto(a.alloc_outcome(size, align).1, a.min_log2(), HEAP_BLOCKS as int)
            == a.heap_size_spec() - a.free_mem() + a.allocation_size_of(size, align).unwrap(),
{
    lemma_pow2_heap_top(a);
    law_allocation_takes_its_block(a, size, align);
}

/// Properties of the first free order.
proof fn lemma_first_free_order_props(lists: Seq<Seq<usize>>, from: int)
    requires
        lists.len() == HEAP_BLOCKS,
        0 <= from,
    ensures
        from <= HEAP_BLOCKS ==> first_free_order(lists, from) >= from,
        from > HEAP_BLOCKS ==> first_free_order(lists, from) == HEAP_BLOCKS,
        first_free_order(lists, from) < HEAP_BLOCKS ==> lists[first_free_order(lists, from)].len() > 0,
        forall|k: int| from <= k < first_free_order(lists, from) ==> lists[k].len() == 0,
    decreases HEAP_BLOCKS - from,
{
    if from < HEAP_BLOCKS && lists[from].len() == 0 {
        lemma_first_free_order_props(lists, from + 1);
    }
}

/// Law: giving back a block that is not free adds the size of its order to
/// the free memory.
pub proof fn law_deallocation_returns_its_block(a: BuddyAllocator, ptr: usize, size: nat, align: nat)
    requires
        a.wf(),
        a.allocation_order_of(size, align) is Some,
        a.allocation_order_of(size, align).unwrap() < HEAP_BLOCKS,
    ensures
        free_mem_upto(a.dealloc_outcome(ptr, size, align), a.min_log2(), HEAP_BLOCKS as int)
            == a.free_mem() + a.order_size_spec(a.allocation_order_of(size, align).unwrap()),
{
    let o = a.allocation_order_of(size, align).unwrap() as int;
    assert(a.lists().len() == HEAP_BLOCKS);
    lemma_free_mem_update(a.lists(), a.min_log2(), o, a.lists()[o].push(ptr), HEAP_BLOCKS as int, 1);
}

/// Law: allocating and then giving the block back restores the free memory,
/// and the block handed out is never on the free list of its order.
pub proof fn law_allocate_then_dealloc_restores_free_memory(
    a: BuddyAllocator,
    b: BuddyAllocator,
    size: nat,
    align: nat,
)
    requires
        a.wf(),
        b.wf(),
        a.lists()[HEAP_BLOCKS - 1].len() <= 1,
        a.alloc_outcome(size, align).0 is Some,
        b.lists() == a.alloc_outcome(size, align).1,
        b.min_log2() == a.min_log2(),
        b.min_block() == a.min_block(),
        b.heap_size_spec() == a.heap_size_spec(),
    ensures
        b.allocation_order_of(size, align) == a.allocation_order_of(size, align),
        !b.lists()[a.allocation_order_of(size, align).unwrap() as int].contains(a.alloc_outcome(size, align).0.unwrap()),
        free_mem_upto(b.dealloc_outcome(a.alloc_outcome(size, align).0.unwrap(), size, align), b.min_log2(), HEAP_BLOCKS as int)
            == a.free_mem(),
{
    law_allocation_takes_its_block(a, size, align);
    let n = a.allocation_order_of(size, align).unwrap() as int;
    let lists = a.lists();
    assert(lists.len() == HEAP_BLOCKS);
    let o = first_free_order(lists, n);
    lemma_first_free_order_props(lists, n);
    let blk = lists[o].last();
    assert(no_dup(lists[o]));
    if o == n {
        if o == HEAP_BLOCKS - 1 {
            assert(b.lists()[n] =~= Seq::<usize>::empty());
        } else {
            assert(b.lists()[n] =~= lists[o].drop_last());
            if b.lists()[n].contains(blk) {
                let i = choose|i: int| 0 <= i < b.lists()[n].len() && b.lists()[n][i] == blk;
                assert(lists[o][i] == lists[o][lists[o].len() - 1]);
            }
        }
    } else {
        assert(b.lists()[n] =~= seq![(blk + pow2(a.min_log2() + n as nat)) as usize]);
        lemma_pow2_pos(a.min_log2() + n as nat);
        assert(blk as nat + pow2(a.min_log2() + o as nat) <= usize::MAX);
        if n < o {
            lemma_pow2_strictly_increases(a.min_log2() + n as nat, a.min_log2() + o as nat);
        }
    }
    law_deallocation_returns_its_block(b, blk, size, align);
}

} // verus!
