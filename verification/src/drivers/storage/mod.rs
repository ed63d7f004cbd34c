//! Disks and their partition tables: the MBR, the GPT, and the bounds a
//! partition puts on reads.
pub mod drive;
pub mod ide;

use vstd::prelude::*;
use crate::bytes::{le16, le32, le64, read_u16_le, read_u32_le, read_u64_le, copy_range};
use crate::usr::text::{chars_to_string, char_of_ascii, push_char, str_trim, trimmed};
use crate::usr::tty::{parse_unsigned, parse_unsigned_from};
use crate::drivers::fs::fat::{split_on, split_chars, char_views};

verus! {

/// A partition's unique identifier, read from 16 little-endian bytes: a
/// 32-bit field, two 16-bit fields and eight bytes.
#[derive(Clone, Copy, Debug)]
pub struct Uuid {
    pub a: u32,
    pub b: u16,
    pub c: u16,
    pub d: [u8; 8],
}

/// The identifier the 16 bytes of `b` from `off` hold.
pub open spec fn uuid_at(b: Seq<u8>, off: int) -> (u32, u16, u16, Seq<u8>) {
    (le32(b, off), le16(b, off + 4), le16(b, off + 6), b.subrange(off + 8, off + 16))
}

/// The upper-case hexadecimal digit of `d` (below 16).
pub open spec fn hex_digit(d: nat) -> char {
    if d < 10 { (('0' as nat) + d) as char } else { (('A' as nat) + d - 10) as char }
}

/// Law: a hexadecimal digit reads back as the value it was written for: the
/// digits of 0 to 15 are exactly those that `digit_in_radix` reads, in base
/// 16, as 0 to 15.
pub proof fn law_hex_digit_reads_back(d: nat)
    requires
        d < 16,
    ensures
        crate::usr::tty::digit_in_radix(hex_digit(d), 16) == Some(d),
{
}

/// The upper-case hexadecimal digits of `n`, without leading zeros.
pub open spec fn hex_digits(n: nat) -> Seq<char>
    decreases n,
{
    if n < 16 { seq![hex_digit(n)] } else { hex_digits(n / 16).push(hex_digit(n % 16)) }
}

/// The two upper-case hexadecimal digits of each byte of `d`.
pub open spec fn hex_pairs(d: Seq<u8>) -> Seq<char>
    decreases d.len(),
{
    if d.len() == 0 { Seq::empty() } else { hex_pairs(d.drop_last()) + seq![hex_digit((d.last() / 16) as nat), hex_digit((d.last() % 16) as nat)] }
}

/// The text of an identifier: its three fields in hexadecimal, each
/// followed by a dash, then its eight bytes, two digits each.
pub open spec fn uuid_string(f: (u32, u16, u16, Seq<u8>)) -> Seq<char> {
    hex_digits(f.0 as nat) + seq!['-'] + hex_digits(f.1 as nat) + seq!['-'] + hex_digits(f.2 as nat) + seq!['-']
        + hex_pairs(f.3)
}

fn hex_char(d: u64) -> (r: char)
    requires
        d < 16,
    ensures
        r == hex_digit(d as nat),
{
    if d < 10 { char_of_ascii(48 + d as u8) } else { char_of_ascii(55 + d as u8) }
}

/// Appends the hexadecimal digits of `n` to `s`.
fn push_hex(s: &mut String, n: u64)
    ensures
        final(s)@ == old(s)@ + hex_digits(n as nat),
    decreases n,
{
    if n < 16 {
        push_char(s, hex_char(n));
    } else {
        push_hex(s, n / 16);
        push_char(s, hex_char(n % 16));
    }
}

impl Uuid {
    /// The identifier's fields as plain values.
    pub open spec fn fields(&self) -> (u32, u16, u16, Seq<u8>) {
        (self.a, self.b, self.c, self.d@)
    }

    /// Reads the identifier in the 16 bytes from `off`.
    pub fn from_bytes(value: &[u8], off: usize) -> (r: Uuid)
        requires
            off + 16 <= value@.len(),
        ensures
            r.fields() == uuid_at(value@, off as int),
    {
        let n = value.len();
        proof {
            assert(off + 16 <= n);
        }
        let a = read_u32_le(value, off);
        let b = read_u16_le(value, off + 4);
        let c = read_u16_le(value, off + 6);
        let d = [
            value[off + 8], value[off + 9], value[off + 10], value[off + 11],
            value[off + 12], value[off + 13], value[off + 14], value[off + 15],
        ];
        proof {
            assert(d@ =~= value@.subrange(off + 8, off + 16));
        }
        Uuid { a, b, c, d }
    }

    /// Whether two identifiers are the same.
    pub fn same(&self, other: &Uuid) -> (r: bool)
        ensures
            r == (self.fields() == other.fields()),
    {
        let mut i: usize = 0;
        while i < 8
            invariant
                0 <= i <= 8,
                forall|k: int| 0 <= k < i ==> self.d@[k] == other.d@[k],
            decreases 8 - i,
        {
            if self.d[i] != other.d[i] {
                return false;
            }
            i = i + 1;
        }
        proof {
            assert(self.d@ =~= other.d@);
        }
        self.a == other.a && self.b == other.b && self.c == other.c
    }

    /// The identifier's text: `A-B-C-` with the fields in hexadecimal, then
    /// the eight bytes, two digits each.
    pub fn to_string(&self) -> (r: String)
        ensures
            r@ == uuid_string(self.fields()),
    {
        let mut s = String::new();
        push_hex(&mut s, self.a as u64);
        push_char(&mut s, '-');
        push_hex(&mut s, self.b as u64);
        push_char(&mut s, '-');
        push_hex(&mut s, self.c as u64);
        push_char(&mut s, '-');
        let ghost head = s@;
        let mut i: usize = 0;
        while i < 8
            invariant
                0 <= i <= 8,
                self.d@.len() == 8,
                s@ == head + hex_pairs(self.d@.subrange(0, i as int)),
            decreases 8 - i,
        {
            let b = self.d[i];
            push_char(&mut s, hex_char((b / 16) as u64));
            push_char(&mut s, hex_char((b % 16) as u64));
            proof {
                assert(self.d@.subrange(0, i + 1).drop_last() =~= self.d@.subrange(0, i as int));
                assert(s@ =~= head + hex_pairs(self.d@.subrange(0, i + 1)));
            }
            i = i + 1;
        }
        proof {
            assert(self.d@.subrange(0, 8) =~= self.d@);
            assert(s@ =~= uuid_string(self.fields()));
        }
        s
    }
}

/// The master boot record: the disk's identifier, its four partition
/// entries and the boot signature.
pub struct MBR {
    pub disk_id: Vec<u8>,
    pub reserved: Vec<u8>,
    pub first_partition: Vec<u8>,
    pub second_partition: Vec<u8>,
    pub third_partition: Vec<u8>,
    pub fourth_partition: Vec<u8>,
    pub signature: Vec<u8>,
}

/// Where the record's fields start: at byte 440 of a whole sector, at the
/// start of anything shorter.
pub open spec fn mbr_offset(len: nat) -> int {
    if len >= 512 { 440 } else { 0 }
}

impl MBR {
    /// Reads the record from a sector, or from its fields alone.
    pub fn from_bytes(value: &[u8]) -> (r: MBR)
        requires
            value@.len() >= 72,
        ensures
            ({
                let o = mbr_offset(value@.len());
                &&& r.disk_id@ == value@.subrange(o, o + 4)
                &&& r.reserved@ == value@.subrange(o + 4, o + 6)
                &&& r.first_partition@ == value@.subrange(o + 6, o + 22)
                &&& r.second_partition@ == value@.subrange(o + 22, o + 38)
                &&& r.third_partition@ == value@.subrange(o + 38, o + 54)
                &&& r.fourth_partition@ == value@.subrange(o + 54, o + 70)
                &&& r.signature@ == value@.subrange(o + 70, o + 72)
            }),
    {
        let offset: usize = if value.len() >= 512 { 440 } else { 0 };
        MBR {
            disk_id: copy_range(value, offset, offset + 4),
            reserved: copy_range(value, offset + 4, offset + 6),
            first_partition: copy_range(value, offset + 6, offset + 22),
            second_partition: copy_range(value, offset + 22, offset + 38),
            third_partition: copy_range(value, offset + 38, offset + 54),
            fourth_partition: copy_range(value, offset + 54, offset + 70),
            signature: copy_range(value, offset + 70, offset + 72),
        }
    }

    /// The entries in use, in order: the first entry whose bytes are all
    /// zero ends the list.
    pub fn partitions(&self) -> (r: Vec<MBRPartition>)
        requires
            self.first_partition@.len() == 16,
            self.second_partition@.len() == 16,
            self.third_partition@.len() == 16,
            self.fourth_partition@.len() == 16,
        ensures
            r@ == used_partitions(seq![self.first_partition@, self.second_partition@, self.third_partition@, self.fourth_partition@]),
    {
        let ghost raws = seq![self.first_partition@, self.second_partition@, self.third_partition@, self.fourth_partition@];
        let mut r: Vec<MBRPartition> = Vec::new();
        let mut k: usize = 0;
        proof {
            assert(raws.subrange(0, 4) =~= raws);
            assert(r@ + used_partitions(raws) =~= used_partitions(raws));
        }
        while k < 4
            invariant
                0 <= k <= 4,
                raws == seq![self.first_partition@, self.second_partition@, self.third_partition@, self.fourth_partition@],
                forall|j: int| 0 <= j < 4 ==> #[trigger] raws[j].len() == 16,
                used_partitions(raws) == r@ + used_partitions(raws.subrange(k as int, 4)),
            decreases 4 - k,
        {
            let raw: &Vec<u8> = if k == 0 {
                &self.first_partition
            } else if k == 1 {
                &self.second_partition
            } else if k == 2 {
                &self.third_partition
            } else {
                &self.fourth_partition
            };
            proof {
                assert(raw@ == raws[k as int]);
                assert(raws.subrange(k as int, 4)[0] == raw@);
                assert(raws.subrange(k as int, 4).drop_first() =~= raws.subrange(k + 1, 4));
            }
            if all_zero(raw.as_slice()) {
                proof {
                    assert(r@ + Seq::<MBRPartition>::empty() =~= r@);
                }
                return r;
            }
            let p = MBRPartition::from_entry(raw.as_slice());
            proof {
                assert(r@.push(p) + used_partitions(raws.subrange(k + 1, 4)) =~= r@ + (seq![p] + used_partitions(raws.subrange(k + 1, 4))));
            }
            r.push(p);
            k = k + 1;
        }
        proof {
            assert(r@ + used_partitions(Seq::empty()) =~= r@);
            assert(raws.subrange(4, 4) =~= Seq::<Seq<u8>>::empty());
        }
        r
    }
}

/// Whether every byte of `b` is zero.
pub open spec fn zero_bytes(b: Seq<u8>) -> bool {
    forall|i: int| 0 <= i < b.len() ==> #[trigger] b[i] == 0
}

/// Whether every byte of `b` is zero.
pub fn all_zero(b: &[u8]) -> (r: bool)
    ensures
        r == zero_bytes(b@),
{
    let mut i: usize = 0;
    while i < b.len()
        invariant
            0 <= i <= b@.len(),
            forall|k: int| 0 <= k < i ==> b@[k] == 0,
        decreases b@.len() - i,
    {
        if b[i] != 0 {
            return false;
        }
        i = i + 1;
    }
    true
}

/// The entries among `raws` in use, up to the first all-zero one.
pub open spec fn used_partitions(raws: Seq<Seq<u8>>) -> Seq<MBRPartition>
    decreases raws.len(),
{
    if raws.len() == 0 || zero_bytes(raws[0]) {
        Seq::empty()
    } else {
        seq![mbr_partition_of(raws[0])] + used_partitions(raws.drop_first())
    }
}

/// A partition entry of the MBR.
#[derive(Clone, Copy, Debug)]
pub struct MBRPartition {
    pub boot_indicator: u8,
    pub partition_start_chs: (u8, u8, u8),
    pub partition_type: u8,
    pub partition_end_chs: (u8, u8, u8),
    pub partition_start_lba: u32,
    pub partition_sectors: u32,
}

/// The partition a 16-byte entry describes. The end CHS address is read
/// from bytes 4 to 6, sharing its first byte with the type.
pub open spec fn mbr_partition_of(p: Seq<u8>) -> MBRPartition {
    MBRPartition {
        boot_indicator: p[0],
        partition_start_chs: (p[1], p[2], p[3]),
        partition_type: p[4],
        partition_end_chs: (p[4], p[5], p[6]),
        partition_start_lba: le32(p, 8),
        partition_sectors: le32(p, 12),
    }
}

impl MBRPartition {
    /// Reads a 16-byte partition entry.
    pub fn from_entry(p: &[u8]) -> (r: MBRPartition)
        requires
            p@.len() == 16,
        ensures
            r == mbr_partition_of(p@),
    {
        MBRPartition {
            boot_indicator: p[0],
            partition_start_chs: (p[1], p[2], p[3]),
            partition_type: p[4],
            partition_end_chs: (p[4], p[5], p[6]),
            partition_start_lba: read_u32_le(p, 8),
            partition_sectors: read_u32_le(p, 12),
        }
    }
}

/// A GPT partition entry: its type and identity, its sectors and flags, and
/// its name in UTF-16.
pub struct GPTPartitionEntry {
    pub partition_type_guid: Uuid,
    pub unique_partition_guid: Uuid,
    pub start_sector: u64,
    pub end_sector: u64,
    pub attributes: u64,
    pub partition_name: Vec<u8>,
}

/// A partition of a disk, found through the MBR or the GPT.
pub enum Partition {
    MBRPartition(MBRPartition),
    GPTPartition(GPTPartitionEntry),
}

/// Where a read of `sector_count` sectors from `sector` of a partition
/// lands on the disk: refused when it would pass the partition's end.
pub open spec fn partition_read(p: Partition, sector: u64, sector_count: usize) -> Result<u64, ()> {
    match p {
        Partition::GPTPartition(e) => {
            if e.start_sector + sector + sector_count > e.end_sector {
                Err(())
            } else {
                Ok((e.start_sector + sector) as u64)
            }
        },
        Partition::MBRPartition(e) => {
            if e.partition_start_lba + sector + sector_count > e.partition_start_lba + e.partition_sectors {
                Err(())
            } else {
                Ok((e.partition_start_lba + sector) as u64)
            }
        },
    }
}

/// Whether the sums a read computes fit in 64 bits.
pub open spec fn read_fits(p: Partition, sector: u64, sector_count: usize) -> bool {
    match p {
        Partition::GPTPartition(e) => e.start_sector + sector + sector_count <= u64::MAX,
        Partition::MBRPartition(e) => e.partition_start_lba + sector + sector_count <= u64::MAX,
    }
}

impl Partition {
    /// Checks a read of `sector_count` sectors from `sector` against the
    /// partition's bounds, and gives the disk sector it starts at.
    pub fn read(&self, sector: u64, sector_count: usize) -> (r: Result<u64, ()>)
        requires
            read_fits(*self, sector, sector_count),
        ensures
            r == partition_read(*self, sector, sector_count),
    {
        match self {
            Partition::GPTPartition(partition) => {
                if partition.start_sector + sector + sector_count as u64 > partition.end_sector {
                    return Err(());
                }
                Ok(partition.start_sector + sector)
            },
            Partition::MBRPartition(partition) => {
                if partition.partition_start_lba as u64 + sector + sector_count as u64
                    > partition.partition_start_lba as u64 + partition.partition_sectors as u64 {
                    return Err(());
                }
                Ok(partition.partition_start_lba as u64 + sector)
            },
        }
    }
}

/// The GPT header.
pub struct GPTHeader {
    pub header: Vec<u8>,
    pub revision: u32,
    pub header_size: u32,
    pub header_checksum: u32,
    pub reserved: Vec<u8>,
    pub header_lba: u64,
    pub header_lba_alt: u64,
    pub first_usable_block: u64,
    pub last_usable_block: u64,
    pub guid: Uuid,
    pub guid_lba: u64,
    pub partition_entry_count: u32,
    pub partition_entry_size: u32,
    pub partition_table_crc: u32,
}

impl GPTHeader {
    /// Reads the header at the start of `data`.
    pub fn new(data: &[u8]) -> (r: GPTHeader)
        requires
            data@.len() >= 0x5C,
        ensures
            r.header@ == data@.subrange(0, 8),
            r.revision == le32(data@, 0x08),
            r.header_size == le32(data@, 0x0C),
            r.header_checksum == le32(data@, 0x10),
            r.reserved@ == data@.subrange(0x14, 0x18),
            r.header_lba == le64(data@, 0x18),
            r.header_lba_alt == le64(data@, 0x20),
            r.first_usable_block == le64(data@, 0x28),
            r.last_usable_block == le64(data@, 0x30),
            r.guid.fields() == uuid_at(data@, 0x38),
            r.guid_lba == le64(data@, 0x48),
            r.partition_entry_count == le32(data@, 0x50),
            r.partition_entry_size == le32(data@, 0x54),
            r.partition_table_crc == le32(data@, 0x58),
    {
        GPTHeader {
            header: copy_range(data, 0, 8),
            revision: read_u32_le(data, 0x08),
            header_size: read_u32_le(data, 0x0C),
            header_checksum: read_u32_le(data, 0x10),
            reserved: copy_range(data, 0x14, 0x18),
            header_lba: read_u64_le(data, 0x18),
            header_lba_alt: read_u64_le(data, 0x20),
            first_usable_block: read_u64_le(data, 0x28),
            last_usable_block: read_u64_le(data, 0x30),
            guid: Uuid::from_bytes(data, 0x38),
            guid_lba: read_u64_le(data, 0x48),
            partition_entry_count: read_u32_le(data, 0x50),
            partition_entry_size: read_u32_le(data, 0x54),
            partition_table_crc: read_u32_le(data, 0x58),
        }
    }
}


/// The pieces `chunks(2)` cuts `s` into: pairs of characters, the last one
/// alone when their number is odd.
pub open spec fn char_pairs(s: Seq<char>) -> Seq<Seq<char>>
    decreases s.len(),
{
    if s.len() == 0 {
        Seq::empty()
    } else if s.len() == 1 {
        seq![s]
    } else {
        seq![s.subrange(0, 2)] + char_pairs(s.subrange(2, s.len() as int))
    }
}

/// The bytes the hexadecimal pieces `p` give, if each parses.
pub open spec fn hex_bytes(p: Seq<Seq<char>>) -> Option<Seq<u8>>
    decreases p.len(),
{
    if p.len() == 0 {
        Some(Seq::empty())
    } else {
        match (parse_unsigned(p[0], 16, 255), hex_bytes(p.drop_first())) {
            (Some(b), Some(rest)) => Some(seq![b as u8] + rest),
            _ => None,
        }
    }
}

/// The identifier the text `s` writes, as this kernel reads it: five parts
/// between dashes, the first three hexadecimal numbers of 32, 16 and 16
/// bits, the last two joined, trimmed and read two digits at a time as
/// exactly eight bytes.
pub open spec fn uuid_text(s: Seq<char>) -> Option<(u32, u16, u16, Seq<u8>)> {
    let parts = split_on(s, '-');
    if parts.len() != 5 {
        None
    } else {
        match (parse_unsigned(parts[0], 16, u32::MAX as nat), parse_unsigned(parts[1], 16, u16::MAX as nat),
            parse_unsigned(parts[2], 16, u16::MAX as nat)) {
            (Some(a), Some(b), Some(c)) => match hex_bytes(char_pairs(trimmed(parts[3] + parts[4]))) {
                Some(d) => if d.len() == 8 { Some((a as u32, b as u16, c as u16, d)) } else { None },
                None => None,
            },
            _ => None,
        }
    }
}

impl Uuid {
    /// Whether the text `other` writes this identifier.
    pub fn eq_str(&self, other: &str) -> (r: bool)
        ensures
            r == (uuid_text(other@) == Some(self.fields())),
    {
        let parts = split_chars(other, '-');
        if parts.len() != 5 {
            return false;
        }
        proof {
            assert(char_views(parts@)[0] == parts@[0]@);
            assert(char_views(parts@)[1] == parts@[1]@);
            assert(char_views(parts@)[2] == parts@[2]@);
            assert(char_views(parts@)[3] == parts@[3]@);
            assert(char_views(parts@)[4] == parts@[4]@);
        }
        let p0 = chars_to_string(&parts[0]);
        let p1 = chars_to_string(&parts[1]);
        let p2 = chars_to_string(&parts[2]);
        proof {
            assert(p0@.subrange(0, p0@.len() as int) =~= p0@);
            assert(p1@.subrange(0, p1@.len() as int) =~= p1@);
            assert(p2@.subrange(0, p2@.len() as int) =~= p2@);
        }
        let a = parse_unsigned_from(p0.as_str(), 0, 16, 0xFFFF_FFFF);
        let b = parse_unsigned_from(p1.as_str(), 0, 16, 0xFFFF);
        let c = parse_unsigned_from(p2.as_str(), 0, 16, 0xFFFF);
        let (a, b, c) = match (a, b, c) {
            (Some(a), Some(b), Some(c)) => (a, b, c),
            _ => {
                return false;
            },
        };
        let mut joined: Vec<char> = Vec::new();
        let mut k: usize = 0;
        while k < parts[3].len()
            invariant
                0 <= k <= parts@[3]@.len(),
                parts@.len() == 5,
                joined@ == parts@[3]@.subrange(0, k as int),
            decreases parts@[3]@.len() - k,
        {
            joined.push(parts[3][k]);
            proof {
                assert(joined@ =~= parts@[3]@.subrange(0, k + 1));
            }
            k = k + 1;
        }
        let mut k: usize = 0;
        while k < parts[4].len()
            invariant
                0 <= k <= parts@[4]@.len(),
                parts@.len() == 5,
                joined@ == parts@[3]@ + parts@[4]@.subrange(0, k as int),
            decreases parts@[4]@.len() - k,
        {
            joined.push(parts[4][k]);
            proof {
                assert(joined@ =~= parts@[3]@ + parts@[4]@.subrange(0, k + 1));
            }
            k = k + 1;
        }
        proof {
            assert(parts@[3]@.subrange(0, parts@[3]@.len() as int) =~= parts@[3]@);
            assert(parts@[4]@.subrange(0, parts@[4]@.len() as int) =~= parts@[4]@);
        }
        let joined_text = chars_to_string(&joined);
        let t = str_trim(joined_text.as_str());
        let d = match hex_pair_bytes(t) {
            Some(d) => d,
            None => {
                return false;
            },
        };
        if d.len() != 8 {
            return false;
        }
        let other_uuid = Uuid {
            a: a as u32,
            b: b as u16,
            c: c as u16,
            d: [d[0], d[1], d[2], d[3], d[4], d[5], d[6], d[7]],
        };
        proof {
            assert(other_uuid.d@ =~= d@);
        }
        self.same(&other_uuid)
    }
}


/// `d` followed by the bytes `o`, if there are any.
pub open spec fn prefixed(d: Seq<u8>, o: Option<Seq<u8>>) -> Option<Seq<u8>> {
    match o {
        Some(rest) => Some(d + rest),
        None => None,
    }
}

proof fn lemma_hex_step(s: Seq<char>)
    requires
        s.len() >= 1,
    ensures
        ({
            let first = if s.len() >= 2 { s.subrange(0, 2) } else { s };
            let rest = if s.len() >= 2 { s.subrange(2, s.len() as int) } else { Seq::<char>::empty() };
            hex_bytes(char_pairs(s)) == match (parse_unsigned(first, 16, 255), hex_bytes(char_pairs(rest))) {
                (Some(b), Some(r)) => Some(seq![b as u8] + r),
                _ => None::<Seq<u8>>,
            }
        }),
{
    let first = if s.len() >= 2 { s.subrange(0, 2) } else { s };
    let rest = if s.len() >= 2 { s.subrange(2, s.len() as int) } else { Seq::<char>::empty() };
    let p = char_pairs(s);
    if s.len() >= 2 {
        assert(p == seq![first] + char_pairs(rest));
    } else {
        assert(p == seq![first]);
        assert(char_pairs(rest) =~= Seq::<Seq<char>>::empty());
        assert(seq![first] =~= seq![first] + char_pairs(rest));
    }
    assert(p[0] == first);
    assert(p.drop_first() =~= char_pairs(rest));
}

/// The bytes the hexadecimal text `t` writes two digits at a time, if
/// every pair parses.
fn hex_pair_bytes(t: &str) -> (r: Option<Vec<u8>>)
    ensures
        match r {
            Some(d) => hex_bytes(char_pairs(t@)) == Some(d@),
            None => hex_bytes(char_pairs(t@)) is None,
        },
{
    let n = t.unicode_len();
    let mut d: Vec<u8> = Vec::new();
    let mut i: usize = 0;
    proof {
        assert(t@.subrange(0, n as int) =~= t@);
        assert(prefixed(d@, hex_bytes(char_pairs(t@))) =~~= hex_bytes(char_pairs(t@)));
    }
    while i < n
        invariant
            n == t@.len(),
            0 <= i <= n,
            hex_bytes(char_pairs(t@)) == prefixed(d@, hex_bytes(char_pairs(t@.subrange(i as int, n as int)))),
        decreases n - i,
    {
        let ghost suffix = t@.subrange(i as int, n as int);
        proof {
            lemma_hex_step(suffix);
        }
        let mut piece: Vec<char> = Vec::new();
        piece.push(t.get_char(i));
        let step: usize = if i + 1 < n { 2 } else { 1 };
        if i + 1 < n {
            piece.push(t.get_char(i + 1));
        }
        let ps = chars_to_string(&piece);
        proof {
            assert(ps@.subrange(0, ps@.len() as int) =~= ps@);
            if i + 1 < n {
                assert(piece@ =~= suffix.subrange(0, 2));
                assert(suffix.subrange(2, suffix.len() as int) =~= t@.subrange(i + 2, n as int));
            } else {
                assert(piece@ =~= suffix);
                assert(t@.subrange(i + 1, n as int) =~= Seq::<char>::empty());
            }
        }
        match parse_unsigned_from(ps.as_str(), 0, 16, 0xFF) {
            Some(v) => {
                let ghost before = d@;
                d.push(v as u8);
                proof {
                    let rest = hex_bytes(char_pairs(t@.subrange(i + step, n as int)));
                    if rest is Some {
                        assert(before + (seq![v as u8] + rest.unwrap()) =~= d@ + rest.unwrap());
                    }
                }
            },
            None => {
                return None;
            },
        }
        i = i + step;
    }
    proof {
        assert(t@.subrange(n as int, n as int) =~= Seq::<char>::empty());
        assert(d@ + Seq::<u8>::empty() =~= d@);
    }
    Some(d)
}


/// A read the partition accepts stays inside it: it starts at or after the
/// partition's first sector and its last sector is within the partition.
pub proof fn law_partition_read_in_bounds(p: Partition, sector: u64, sector_count: usize)
    requires
        partition_read(p, sector, sector_count) is Ok,
    ensures
        match p {
            Partition::GPTPartition(e) => {
                let s = partition_read(p, sector, sector_count).unwrap();
                e.start_sector <= s && s + sector_count <= e.end_sector
            },
            Partition::MBRPartition(e) => {
                let s = partition_read(p, sector, sector_count).unwrap();
                e.partition_start_lba <= s && s + sector_count <= e.partition_start_lba + e.partition_sectors
            },
        },
{
}

/// The MBR lists at most its four entries, every one in use.
pub proof fn law_mbr_partitions_bounded(raws: Seq<Seq<u8>>)
    ensures
        used_partitions(raws).len() <= raws.len(),
    decreases raws.len(),
{
    if raws.len() > 0 && !zero_bytes(raws[0]) {
        law_mbr_partitions_bounded(raws.drop_first());
    }
}

} // verus!
