//! Little- and big-endian integers read out of byte buffers.
use vstd::prelude::*;
use vstd::arithmetic::power::pow;

verus! {

/// The little-endian value of `s`.
pub open spec fn le_value(s: Seq<u8>) -> nat
    decreases s.len(),
{
    if s.len() == 0 {
        0
    } else {
        s[0] as nat + 256 * le_value(s.drop_first())
    }
}

/// The big-endian value of `s`.
pub open spec fn be_value(s: Seq<u8>) -> nat
    decreases s.len(),
{
    if s.len() == 0 {
        0
    } else {
        be_value(s.drop_last()) * 256 + s.last() as nat
    }
}

/// The little-endian value of `n` bytes of `b` from `off`.
pub open spec fn le_at(b: Seq<u8>, off: int, n: int) -> nat {
    le_value(b.subrange(off, off + n))
}

/// The little-endian `u16` at `off`.
pub open spec fn le16(b: Seq<u8>, off: int) -> u16 {
    le_at(b, off, 2) as u16
}

/// The little-endian `u32` at `off`.
pub open spec fn le32(b: Seq<u8>, off: int) -> u32 {
    le_at(b, off, 4) as u32
}

/// The little-endian `u64` at `off`.
pub open spec fn le64(b: Seq<u8>, off: int) -> u64 {
    le_at(b, off, 8) as u64
}

/// The big-endian `u32` at `off`.
pub open spec fn be32(b: Seq<u8>, off: int) -> u32 {
    be_value(b.subrange(off, off + 4)) as u32
}

proof fn lemma_le_value_bound(s: Seq<u8>)
    ensures
        le_value(s) < pow(256, s.len()),
    decreases s.len(),
{
    vstd::arithmetic::power::lemma_pow_positive(256, s.len());
    if s.len() > 0 {
        lemma_le_value_bound(s.drop_first());
        vstd::arithmetic::power::lemma_pow_adds(256, 1, (s.len() - 1) as nat);
        vstd::arithmetic::power::lemma_pow1(256);
        assert(le_value(s) <= 255 + 256 * (pow(256, (s.len() - 1) as nat) - 1)) by (nonlinear_arith)
            requires
                le_value(s) == s[0] as nat + 256 * le_value(s.drop_first()),
                le_value(s.drop_first()) < pow(256, (s.len() - 1) as nat),
                s[0] <= 255;
    }
}

proof fn lemma_be_value_bound(s: Seq<u8>)
    ensures
        be_value(s) < pow(256, s.len()),
    decreases s.len(),
{
    vstd::arithmetic::power::lemma_pow_positive(256, s.len());
    if s.len() > 0 {
        lemma_be_value_bound(s.drop_last());
        vstd::arithmetic::power::lemma_pow_adds(256, 1, (s.len() - 1) as nat);
        vstd::arithmetic::power::lemma_pow1(256);
        assert(be_value(s) <= 256 * (pow(256, (s.len() - 1) as nat) - 1) + 255) by (nonlinear_arith)
            requires
                be_value(s) == be_value(s.drop_last()) * 256 + s.last() as nat,
                be_value(s.drop_last()) < pow(256, (s.len() - 1) as nat),
                s.last() <= 255;
    }
}

proof fn lemma_pow256_values()
    ensures
        pow(256, 1) == 0x100,
        pow(256, 2) == 0x1_0000,
        pow(256, 4) == 0x1_0000_0000,
        pow(256, 8) == 0x1_0000_0000_0000_0000,
{
    reveal_with_fuel(pow, 9);
}

/// The little-endian value of `n <= 8` bytes of `b` from `off`.
pub fn read_le(b: &[u8], off: usize, n: usize) -> (r: u64)
    requires
        n <= 8,
        off + n <= b@.len(),
    ensures
        r == le_at(b@, off as int, n as int),
{
    let blen = b.len();
    let mut v: u64 = 0;
    let mut i = n;
    proof {
        lemma_pow256_values();
        assert(b@.subrange(off + n, off + n) =~= Seq::<u8>::empty());
    }
    while i > 0
        invariant
            i <= n <= 8,
            off + n <= b@.len(),
            blen == b@.len(),
            v == le_value(b@.subrange(off + i, off + n)),
        decreases i,
    {
        let ghost tail = b@.subrange(off + i, off + n);
        let ghost s = b@.subrange(off + i - 1, off + n);
        proof {
            assert(s.drop_first() =~= tail);
            lemma_le_value_bound(tail);
            vstd::arithmetic::power::lemma_pow_increases(256, tail.len(), 7);
            lemma_pow256_values();
            vstd::arithmetic::power::lemma_pow_adds(256, 7, 1);
        }
        v = v * 256 + b[off + i - 1] as u64;
        i = i - 1;
    }
    v
}

/// The little-endian `u16` at `off`.
pub fn read_u16_le(b: &[u8], off: usize) -> (r: u16)
    requires
        off + 2 <= b@.len(),
    ensures
        r == le16(b@, off as int),
        r as nat == le_at(b@, off as int, 2),
{
    proof {
        lemma_le_value_bound(b@.subrange(off as int, off + 2));
        lemma_pow256_values();
    }
    read_le(b, off, 2) as u16
}

/// The little-endian `u32` at `off`.
pub fn read_u32_le(b: &[u8], off: usize) -> (r: u32)
    requires
        off + 4 <= b@.len(),
    ensures
        r == le32(b@, off as int),
        r as nat == le_at(b@, off as int, 4),
{
    proof {
        lemma_le_value_bound(b@.subrange(off as int, off + 4));
        lemma_pow256_values();
    }
    read_le(b, off, 4) as u32
}

/// The little-endian `u64` at `off`.
pub fn read_u64_le(b: &[u8], off: usize) -> (r: u64)
    requires
        off + 8 <= b@.len(),
    ensures
        r == le64(b@, off as int),
        r as nat == le_at(b@, off as int, 8),
{
    proof {
        lemma_le_value_bound(b@.subrange(off as int, off + 8));
        lemma_pow256_values();
    }
    read_le(b, off, 8)
}

/// The big-endian `u32` at `off`.
pub fn read_u32_be(b: &[u8], off: usize) -> (r: u32)
    requires
        off + 4 <= b@.len(),
    ensures
        r == be32(b@, off as int),
{
    let blen = b.len();
    let mut v: u32 = 0;
    let mut i: usize = 0;
    proof {
        lemma_pow256_values();
        assert(b@.subrange(off as int, off as int) =~= Seq::<u8>::empty());
    }
    while i < 4
        invariant
            i <= 4,
            off + 4 <= b@.len(),
            blen == b@.len(),
            v as nat == be_value(b@.subrange(off as int, off + i)),
        decreases 4 - i,
    {
        let ghost head = b@.subrange(off as int, off + i);
        let ghost s = b@.subrange(off as int, off + i + 1);
        proof {
            assert(s.drop_last() =~= head);
            lemma_be_value_bound(head);
            vstd::arithmetic::power::lemma_pow_increases(256, head.len(), 3);
            vstd::arithmetic::power::lemma_pow_adds(256, 3, 1);
            lemma_pow256_values();
        }
        v = v * 256 + b[off + i] as u32;
        i = i + 1;
    }
    proof {
        lemma_be_value_bound(b@.subrange(off as int, off + 4));
    }
    v
}

/// A copy of `b[start..end]`.
pub fn copy_range(b: &[u8], start: usize, end: usize) -> (r: Vec<u8>)
    requires
        start <= end <= b@.len(),
    ensures
        r@ == b@.subrange(start as int, end as int),
{
    let mut r: Vec<u8> = Vec::new();
    let mut i = start;
    while i < end
        invariant
            start <= i <= end <= b@.len(),
            r@ == b@.subrange(start as int, i as int),
        decreases end - i,
    {
        r.push(b[i]);
        proof {
            assert(r@ =~= b@.subrange(start as int, i + 1));
        }
        i = i + 1;
    }
    r
}

} // verus!
