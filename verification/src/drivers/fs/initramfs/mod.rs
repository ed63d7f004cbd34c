//! The SquashFS image the initramfs is shipped in.
//!
//! Metadata tables are sequences of chunks, each led by a two-byte
//! little-endian header: the low fifteen bits give the length of the chunk's
//! data and a clear top bit marks it compressed. The only decompressor this
//! kernel has never returns, so every read here is of uncompressed data.
pub mod compressors;

use vstd::prelude::*;
use vstd::string::*;
use crate::bytes::{le16, le32, le64, le_at, read_u16_le, read_u32_le, read_u64_le, copy_range};
use crate::drivers::fs::fat::{contains_seq, str_contains};


verus! {

/// The bytes a chunk's data may hold at most.
pub const CHUNK_SIZE: usize = 8192;

/// The size of a chunk's header.
pub const HEADER_SIZE: usize = 2;

/// The kind of an inode.
#[derive(Clone, Copy, Debug, PartialEq, Eq, Structural)]
pub enum InodeFileType {
    BasicDirectory,
    BasicFile,
    BasicSymlink,
    BasicBlockDevice,
    BasicCharDevice,
    BasicPipe,
    BasicSocked,
    ExtendedDirectory,
    ExtendedFile,
    ExtendedSymlink,
    ExtendedBlockDevice,
    ExtendedPipe,
    ExtendedSocked,
}

/// The inode kind numbered `value` (1 to 13).
pub open spec fn file_type_of(value: u16) -> InodeFileType {
    if value == 1 {
        InodeFileType::BasicDirectory
    } else if value == 2 {
        InodeFileType::BasicFile
    } else if value == 3 {
        InodeFileType::BasicSymlink
    } else if value == 4 {
        InodeFileType::BasicBlockDevice
    } else if value == 5 {
        InodeFileType::BasicCharDevice
    } else if value == 6 {
        InodeFileType::BasicPipe
    } else if value == 7 {
        InodeFileType::BasicSocked
    } else if value == 8 {
        InodeFileType::ExtendedDirectory
    } else if value == 9 {
        InodeFileType::ExtendedFile
    } else if value == 10 {
        InodeFileType::ExtendedSymlink
    } else if value == 11 {
        InodeFileType::ExtendedBlockDevice
    } else if value == 12 {
        InodeFileType::ExtendedPipe
    } else {
        InodeFileType::ExtendedSocked
    }
}

impl InodeFileType {
    /// The inode kind numbered `value`; other numbers are not inode kinds.
    pub fn from_raw(value: u16) -> (r: Self)
        requires
            1 <= value <= 13,
        ensures
            r == file_type_of(value),
    {
        match value {
            1 => InodeFileType::BasicDirectory,
            2 => InodeFileType::BasicFile,
            3 => InodeFileType::BasicSymlink,
            4 => InodeFileType::BasicBlockDevice,
            5 => InodeFileType::BasicCharDevice,
            6 => InodeFileType::BasicPipe,
            7 => InodeFileType::BasicSocked,
            8 => InodeFileType::ExtendedDirectory,
            9 => InodeFileType::ExtendedFile,
            10 => InodeFileType::ExtendedSymlink,
            11 => InodeFileType::ExtendedBlockDevice,
            12 => InodeFileType::ExtendedPipe,
            _ => InodeFileType::ExtendedSocked,
        }
    }
}

/// The compressor a SquashFS image was made with.
#[derive(Clone, Copy, Debug, PartialEq, Eq, Structural)]
pub enum SquashfsCompressionType {
    Gzip,
    Lzma,
    Lzo,
    Xz,
    Lz4,
    Zstd,
}

/// The compressor numbered `value` (1 to 6).
pub open spec fn compression_of(value: u16) -> SquashfsCompressionType {
    if value == 1 {
        SquashfsCompressionType::Gzip
    } else if value == 2 {
        SquashfsCompressionType::Lzma
    } else if value == 3 {
        SquashfsCompressionType::Lzo
    } else if value == 4 {
        SquashfsCompressionType::Xz
    } else if value == 5 {
        SquashfsCompressionType::Lz4
    } else {
        SquashfsCompressionType::Zstd
    }
}

impl SquashfsCompressionType {
    /// The compressor numbered `value`; other numbers name no compressor.
    pub fn from_raw(value: u16) -> (r: Self)
        requires
            1 <= value <= 6,
        ensures
            r == compression_of(value),
    {
        match value {
            1 => SquashfsCompressionType::Gzip,
            2 => SquashfsCompressionType::Lzma,
            3 => SquashfsCompressionType::Lzo,
            4 => SquashfsCompressionType::Xz,
            5 => SquashfsCompressionType::Lz4,
            _ => SquashfsCompressionType::Zstd,
        }
    }
}

/// The feature flags of an image, one per bit of the superblock's flags.
#[derive(Clone, Copy, Debug, PartialEq, Eq, Structural)]
pub struct SquashfsFeatures {
    pub uncompressed_inodes: bool,
    pub uncompressed_data_blocks: bool,
    pub reserved: bool,
    pub uncompressed_fragments: bool,
    pub unused_fragments: bool,
    pub fragments_always_present: bool,
    pub deduplicated_data: bool,
    pub nfs_table_present: bool,
    pub uncompressed_xattrs: bool,
    pub no_xattrs: bool,
    pub compressor_options_present: bool,
    pub uncompressed_id_table: bool,
}

/// The first 96 bytes of an image.
#[derive(Clone, Copy, Debug, PartialEq, Eq, Structural)]
pub struct SquashfsSuperblock {
    pub magic: u32,
    pub inode_count: u32,
    pub mod_time: u32,
    pub block_size: u32,
    pub frag_count: u32,
    pub compressor: SquashfsCompressionType,
    pub block_log: u16,
    pub flags: u16,
    pub id_count: u16,
    pub ver_major: u16,
    pub ver_minor: u16,
    pub root_inode: u64,
    pub bytes_used: u64,
    pub id_table: u64,
    pub xattr_table: u64,
    pub inode_table: u64,
    pub dir_table: u64,
    pub frag_table: u64,
    pub export_table: u64,
}

/// The superblock that `b` encodes, field by field in little-endian order.
pub open spec fn superblock_of(b: Seq<u8>) -> SquashfsSuperblock {
    SquashfsSuperblock {
        magic: le32(b, 0),
        inode_count: le32(b, 4),
        mod_time: le32(b, 8),
        block_size: le32(b, 12),
        frag_count: le32(b, 16),
        compressor: compression_of(le16(b, 20)),
        block_log: le16(b, 22),
        flags: le16(b, 24),
        id_count: le16(b, 26),
        ver_major: le16(b, 28),
        ver_minor: le16(b, 30),
        root_inode: le64(b, 32),
        bytes_used: le64(b, 40),
        id_table: le64(b, 48),
        xattr_table: le64(b, 56),
        inode_table: le64(b, 64),
        dir_table: le64(b, 72),
        frag_table: le64(b, 80),
        export_table: le64(b, 88),
    }
}

/// Whether a superblock is one this kernel reads: the SquashFS magic,
/// version 4.0, and a block size of `2^block_log` up to 1 MiB.
pub open spec fn superblock_accepted(s: SquashfsSuperblock) -> bool {
    &&& s.magic == 0x73717368
    &&& s.ver_major == 4 && s.ver_minor == 0
    &&& s.block_size <= 1048576
    &&& s.block_log <= 20
    &&& s.block_size == vstd::arithmetic::power2::pow2(s.block_log as nat)
}

impl SquashfsSuperblock {
    /// Reads the superblock at the start of `bytes` and checks it.
    pub fn new(bytes: &[u8]) -> (r: Result<Self, ()>)
        requires
            bytes@.len() >= 96,
            1 <= le16(bytes@, 20) <= 6,
        ensures
            r is Ok <==> superblock_accepted(superblock_of(bytes@)),
            r matches Ok(s) ==> s == superblock_of(bytes@),
    {
        let compressor_raw = read_u16_le(bytes, 20);
        let superblock = SquashfsSuperblock {
            magic: read_u32_le(bytes, 0),
            inode_count: read_u32_le(bytes, 4),
            mod_time: read_u32_le(bytes, 8),
            block_size: read_u32_le(bytes, 12),
            frag_count: read_u32_le(bytes, 16),
            compressor: SquashfsCompressionType::from_raw(compressor_raw),
            block_log: read_u16_le(bytes, 22),
            flags: read_u16_le(bytes, 24),
            id_count: read_u16_le(bytes, 26),
            ver_major: read_u16_le(bytes, 28),
            ver_minor: read_u16_le(bytes, 30),
            root_inode: read_u64_le(bytes, 32),
            bytes_used: read_u64_le(bytes, 40),
            id_table: read_u64_le(bytes, 48),
            xattr_table: read_u64_le(bytes, 56),
            inode_table: read_u64_le(bytes, 64),
            dir_table: read_u64_le(bytes, 72),
            frag_table: read_u64_le(bytes, 80),
            export_table: read_u64_le(bytes, 88),
        };
        if superblock.magic != 0x73717368 {
            return Err(());
        }
        if superblock.ver_major != 4 || superblock.ver_minor != 0 {
            return Err(());
        }
        if superblock.block_size > 1048576 {
            return Err(());
        }
        if superblock.block_log > 20 {
            return Err(());
        }
        let shift = superblock.block_log as u32;
        proof {
            vstd::bits::lemma_u32_pow2_no_overflow(shift as nat);
            vstd::bits::lemma_u32_shl_is_mul(1, shift);
        }
        if superblock.block_size != (1u32 << shift) {
            return Err(());
        }
        if superblock.block_size == 0 {
            return Err(());
        }
        let bs = superblock.block_size;
        proof {
            lemma_pow2_bits(bs, shift);
        }
        if ((superblock.block_size - 1) & superblock.block_size) != 0 {
            return Err(());
        }
        Ok(superblock)
    }

    /// The feature flags, one per bit of `flags`.
    pub fn features(&self) -> (r: SquashfsFeatures)
        ensures
            r.uncompressed_inodes == (self.flags & 0x0001 != 0),
            r.uncompressed_data_blocks == (self.flags & 0x0002 != 0),
            r.reserved == (self.flags & 0x0004 != 0),
            r.uncompressed_fragments == (self.flags & 0x0008 != 0),
            r.unused_fragments == (self.flags & 0x0010 != 0),
            r.fragments_always_present == (self.flags & 0x0020 != 0),
            r.deduplicated_data == (self.flags & 0x0040 != 0),
            r.nfs_table_present == (self.flags & 0x0080 != 0),
            r.uncompressed_xattrs == (self.flags & 0x0100 != 0),
            r.no_xattrs == (self.flags & 0x0200 != 0),
            r.compressor_options_present == (self.flags & 0x0400 != 0),
            r.uncompressed_id_table == (self.flags & 0x0800 != 0),
    {
        SquashfsFeatures {
            uncompressed_inodes: self.flags & 0x0001 != 0,
            uncompressed_data_blocks: self.flags & 0x0002 != 0,
            reserved: self.flags & 0x0004 != 0,
            uncompressed_fragments: self.flags & 0x0008 != 0,
            unused_fragments: self.flags & 0x0010 != 0,
            fragments_always_present: self.flags & 0x0020 != 0,
            deduplicated_data: self.flags & 0x0040 != 0,
            nfs_table_present: self.flags & 0x0080 != 0,
            uncompressed_xattrs: self.flags & 0x0100 != 0,
            no_xattrs: self.flags & 0x0200 != 0,
            compressor_options_present: self.flags & 0x0400 != 0,
            uncompressed_id_table: self.flags & 0x0800 != 0,
        }
    }
}

/// A power of two shares no bit with its predecessor.
proof fn lemma_pow2_bits(x: u32, k: u32)
    requires
        k < 32,
        x == 1u32 << k,
    ensures
        (x - 1) as u32 & x == 0,
{
    assert((((1u32 << k) - 1) as u32 & (1u32 << k)) == 0) by (bit_vector)
        requires k < 32;
}

/// The header every inode starts with.
#[derive(Clone, Copy, Debug, PartialEq, Eq, Structural)]
pub struct InodeHeader {
    pub file_type: InodeFileType,
    pub mtime: u32,
    pub inode_num: u32,
}

/// Whether `b` starts with an inode header of a known kind.
pub open spec fn header_readable(b: Seq<u8>) -> bool {
    b.len() >= 16 && 1 <= le16(b, 0) <= 13
}

/// The inode header that `b` starts with.
pub open spec fn inode_header_of(b: Seq<u8>) -> InodeHeader {
    InodeHeader { file_type: file_type_of(le16(b, 0)), mtime: le32(b, 8), inode_num: le32(b, 12) }
}

impl InodeHeader {
    /// Reads the header at the start of `bytes`.
    pub fn from_bytes(bytes: &[u8]) -> (r: Self)
        requires
            header_readable(bytes@),
        ensures
            r == inode_header_of(bytes@),
    {
        let file_type = InodeFileType::from_raw(read_u16_le(bytes, 0));
        let mtime = read_u32_le(bytes, 8);
        let inode_num = read_u32_le(bytes, 12);
        InodeHeader { file_type, mtime, inode_num }
    }
}

/// A directory whose listing fits the basic inode.
#[derive(Clone, Copy, Debug, PartialEq, Eq, Structural)]
pub struct BasicDirectoryInode {
    pub header: InodeHeader,
    pub block_index: u32,
    pub link_count: u32,
    pub file_size: u16,
    pub block_offset: u16,
    pub parent_inode: u32,
}

/// The basic directory inode that `b` starts with.
pub open spec fn basic_directory_of(b: Seq<u8>) -> BasicDirectoryInode {
    BasicDirectoryInode {
        header: inode_header_of(b),
        block_index: le32(b, 16),
        link_count: le32(b, 20),
        file_size: le16(b, 24),
        block_offset: le16(b, 26),
        parent_inode: le32(b, 28),
    }
}

impl BasicDirectoryInode {
    /// Reads the inode at the start of `bytes`.
    pub fn from_bytes(bytes: &[u8]) -> (r: Self)
        requires
            header_readable(bytes@),
            bytes@.len() >= 32,
        ensures
            r == basic_directory_of(bytes@),
    {
        let header = InodeHeader::from_bytes(bytes);
        BasicDirectoryInode {
            header,
            block_index: read_u32_le(bytes, 16),
            link_count: read_u32_le(bytes, 20),
            file_size: read_u16_le(bytes, 24),
            block_offset: read_u16_le(bytes, 26),
            parent_inode: read_u32_le(bytes, 28),
        }
    }
}

/// A directory with the extended inode.
#[derive(Clone, Copy, Debug, PartialEq, Eq, Structural)]
pub struct ExtendedDirectoryInode {
    pub header: InodeHeader,
    pub link_count: u32,
    pub file_size: u32,
    pub block_index: u32,
    pub parent_inode: u32,
    pub index_count: u16,
    pub block_offset: u16,
    pub xattr_index: u32,
}

/// The extended directory inode that `b` starts with.
pub open spec fn extended_directory_of(b: Seq<u8>) -> ExtendedDirectoryInode {
    ExtendedDirectoryInode {
        header: inode_header_of(b),
        link_count: le32(b, 16),
        file_size: le32(b, 20),
        block_index: le32(b, 24),
        parent_inode: le32(b, 28),
        index_count: le16(b, 32),
        block_offset: le16(b, 34),
        xattr_index: le32(b, 36),
    }
}

impl ExtendedDirectoryInode {
    /// Reads the inode at the start of `bytes`.
    pub fn from_bytes(bytes: &[u8]) -> (r: Self)
        requires
            header_readable(bytes@),
            bytes@.len() >= 40,
        ensures
            r == extended_directory_of(bytes@),
    {
        let header = InodeHeader::from_bytes(bytes);
        ExtendedDirectoryInode {
            header,
            link_count: read_u32_le(bytes, 16),
            file_size: read_u32_le(bytes, 20),
            block_index: read_u32_le(bytes, 24),
            parent_inode: read_u32_le(bytes, 28),
            index_count: read_u16_le(bytes, 32),
            block_offset: read_u16_le(bytes, 34),
            xattr_index: read_u32_le(bytes, 36),
        }
    }
}

/// A regular file with the basic inode.
#[derive(Clone, Copy, Debug, PartialEq, Eq, Structural)]
pub struct BasicFileInode {
    pub header: InodeHeader,
    pub block_start: u32,
    pub frag_idx: u32,
    pub block_offset: u32,
    pub file_size: u32,
}

/// The basic file inode that `b` starts with.
pub open spec fn basic_file_of(b: Seq<u8>) -> BasicFileInode {
    BasicFileInode {
        header: inode_header_of(b),
        block_start: le32(b, 16),
        frag_idx: le32(b, 20),
        block_offset: le32(b, 24),
        file_size: le32(b, 28),
    }
}

impl BasicFileInode {
    /// Reads the inode at the start of `bytes`.
    pub fn from_bytes(bytes: &[u8]) -> (r: Self)
        requires
            header_readable(bytes@),
            bytes@.len() >= 32,
        ensures
            r == basic_file_of(bytes@),
    {
        let header = InodeHeader::from_bytes(bytes);
        BasicFileInode {
            header,
            block_start: read_u32_le(bytes, 16),
            frag_idx: read_u32_le(bytes, 20),
            block_offset: read_u32_le(bytes, 24),
            file_size: read_u32_le(bytes, 28),
        }
    }
}

/// An inode of one of the kinds this kernel reads.
#[derive(Clone, Copy, Debug, PartialEq, Eq, Structural)]
pub enum Inode {
    BasicFile(BasicFileInode),
    BasicDirectory(BasicDirectoryInode),
    ExtendedDirectory(ExtendedDirectoryInode),
}

/// The size of an inode of kind `t`, for the kinds that have one here.
pub open spec fn inode_size_of(t: u16) -> nat {
    if t == 1 {
        32
    } else if t == 8 {
        40
    } else {
        32
    }
}

/// Whether `b` holds a whole inode of a kind this kernel reads.
pub open spec fn inode_readable(b: Seq<u8>) -> bool {
    &&& b.len() >= 2
    &&& (le16(b, 0) == 1 || le16(b, 0) == 2 || le16(b, 0) == 8)
    &&& b.len() >= inode_size_of(le16(b, 0))
}

/// The inode that `b` starts with.
pub open spec fn inode_of(b: Seq<u8>) -> Inode {
    if le16(b, 0) == 1 {
        Inode::BasicDirectory(basic_directory_of(b))
    } else if le16(b, 0) == 8 {
        Inode::ExtendedDirectory(extended_directory_of(b))
    } else {
        Inode::BasicFile(basic_file_of(b))
    }
}

impl Inode {
    /// Reads the inode at the start of `value`.
    pub fn from_bytes(value: &[u8]) -> (r: Self)
        requires
            inode_readable(value@),
        ensures
            r == inode_of(value@),
    {
        let t = read_u16_le(value, 0);
        if t == 1 {
            Inode::BasicDirectory(BasicDirectoryInode::from_bytes(value))
        } else if t == 8 {
            Inode::ExtendedDirectory(ExtendedDirectoryInode::from_bytes(value))
        } else {
            Inode::BasicFile(BasicFileInode::from_bytes(value))
        }
    }
}

/// The header of a run of directory entries.
#[derive(Clone, Copy, Debug, PartialEq, Eq, Structural)]
pub struct DirectoryTableHeader {
    pub entry_count: u32,
    pub start: u32,
    pub inode_num: u32,
}

/// The directory header that `b` starts with; the stored count is one less
/// than the number of entries.
pub open spec fn directory_header_of(b: Seq<u8>) -> DirectoryTableHeader {
    DirectoryTableHeader { entry_count: (le32(b, 0) + 1) as u32, start: le32(b, 4), inode_num: le32(b, 8) }
}

impl DirectoryTableHeader {
    /// Reads the header at the start of `value`.
    pub fn from_bytes(value: &[u8]) -> (r: Self)
        requires
            value@.len() >= 12,
            le32(value@, 0) < u32::MAX,
        ensures
            r == directory_header_of(value@),
    {
        DirectoryTableHeader {
            entry_count: read_u32_le(value, 0) + 1,
            start: read_u32_le(value, 4),
            inode_num: read_u32_le(value, 8),
        }
    }
}

/// An entry of a directory listing; its name is stored one byte longer than
/// its size field says.
#[derive(Debug, PartialEq, Eq)]
pub struct DirectoryTableEntry {
    pub offset: u16,
    pub inode_offset: i16,
    pub inode_type: InodeFileType,
    pub name_size: u16,
    pub name: Vec<u8>,
}

/// Whether `b` starts with a directory entry whose kind is known and whose
/// name is all there and valid UTF-8.
pub open spec fn entry_readable(b: Seq<u8>) -> bool {
    &&& b.len() >= 8
    &&& 1 <= le16(b, 4) <= 13
    &&& b.len() >= 8 + le16(b, 6) + 1
    &&& vstd::utf8::valid_utf8(b.subrange(8, 8 + le16(b, 6) + 1))
}

impl DirectoryTableEntry {
    /// Reads the entry at the start of `bytes`.
    pub fn from_bytes(bytes: &[u8]) -> (r: Self)
        requires
            entry_readable(bytes@),
        ensures
            r.offset == le16(bytes@, 0),
            r.inode_offset == le16(bytes@, 2) as i16,
            r.inode_type == file_type_of(le16(bytes@, 4)),
            r.name_size == le16(bytes@, 6),
            r.name@ == bytes@.subrange(8, 8 + le16(bytes@, 6) + 1),
    {
        let offset = read_u16_le(bytes, 0);
        let inode_offset = read_u16_le(bytes, 2) as i16;
        let inode_type = InodeFileType::from_raw(read_u16_le(bytes, 4));
        let name_size = read_u16_le(bytes, 6);
        let name = copy_range(bytes, 8, (name_size as usize + 1) + 8);
        DirectoryTableEntry { offset, inode_offset, inode_type, name_size, name }
    }
}

/// The length of a chunk's data, from its header.
pub open spec fn chunk_len_of(c: Seq<u8>) -> nat {
    (le16(c, 0) & 0x7FFF) as nat
}

/// Whether a chunk is compressed: the top bit of its header is clear.
pub open spec fn chunk_compressed(c: Seq<u8>) -> bool {
    le16(c, 0) & 0x8000 == 0
}

/// `data` from `off` cut into chunks, each its header and the data the
/// header counts; `None` where a header or its data runs past the end.
pub open spec fn split_chunks(data: Seq<u8>, off: int) -> Option<Seq<Seq<u8>>>
    decreases data.len() - off,
{
    if off >= data.len() {
        if off == data.len() {
            Some(Seq::<Seq<u8>>::empty())
        } else {
            None
        }
    } else if off + 2 > data.len() {
        None
    } else {
        let l = chunk_len_of(data.subrange(off, off + 2)) as int + 2;
        if off + l > data.len() {
            None
        } else {
            match split_chunks(data, off + l) {
                Some(rest) => Some(seq![data.subrange(off, off + l)] + rest),
                None => None,
            }
        }
    }
}

/// The number of chunks from `idx` a read of `size` bytes touches, given
/// `avail` bytes in the first `n` of them.
pub open spec fn needed_chunks(cs: Seq<Seq<u8>>, idx: int, n: int, avail: int, size: int) -> Option<int>
    decreases cs.len() - (idx + n),
{
    if avail >= size {
        Some(n)
    } else if idx + n >= cs.len() {
        None
    } else {
        needed_chunks(cs, idx, n + 1, avail + chunk_len_of(cs[idx + n]), size)
    }
}

/// The bytes a read takes from chunk `c` starting at `start`: up to `size`
/// of them, stopping at the chunk's end.
pub open spec fn slice_piece(c: Seq<u8>, start: int, size: int) -> Seq<u8> {
    let end = chunk_len_of(c) as int + 2;
    let e = if end - start > size { start + size } else { end };
    c.subrange(start, e)
}

/// The bytes a read takes from the `n` chunks from `idx`: from `offset` in
/// the first, from the start of the others.
pub open spec fn slice_pieces(cs: Seq<Seq<u8>>, idx: int, n: int, offset: int, size: int) -> Seq<u8>
    decreases n,
{
    if n <= 0 {
        Seq::<u8>::empty()
    } else {
        slice_pieces(cs, idx, n - 1, offset, size) + slice_piece(
            cs[idx + n - 1],
            (if n - 1 == 0 { offset } else { 0 }) + 2,
            size,
        )
    }
}

/// The index of the chunk a read at byte `chunk` of the table starts in,
/// counting every chunk as long as the first.
pub open spec fn chunk_index_of(cs: Seq<Seq<u8>>, chunk: int) -> int {
    if chunk == 0 {
        0
    } else {
        chunk / (chunk_len_of(cs[0]) + 2) as int
    }
}

/// The number of chunks a read touches.
pub open spec fn chunks_touched(cs: Seq<Seq<u8>>, chunk: int, offset: int, size: int) -> int {
    let idx = chunk_index_of(cs, chunk);
    needed_chunks(cs, idx, 1, chunk_len_of(cs[idx]) + 2 - offset, size).unwrap()
}

/// Whether a read of `size` bytes from `offset` in the chunk at byte `chunk`
/// of the table can be served: the position is a chunk boundary, the offset
/// lies in that chunk, enough chunks follow, and none of them is compressed.
pub open spec fn slice_readable(cs: Seq<Seq<u8>>, chunk: int, offset: int, size: int) -> bool {
    &&& chunk == 0 || cs.len() > 0
    &&& chunk != 0 ==> chunk % (chunk_len_of(cs[0]) + 2) as int == 0
    &&& chunk_index_of(cs, chunk) < cs.len()
    &&& offset <= chunk_len_of(cs[chunk_index_of(cs, chunk)])
    &&& needed_chunks(cs, chunk_index_of(cs, chunk), 1,
        chunk_len_of(cs[chunk_index_of(cs, chunk)]) + 2 - offset, size) is Some
    &&& forall|i: int| chunk_index_of(cs, chunk) <= i < chunk_index_of(cs, chunk) + chunks_touched(cs, chunk, offset, size)
        ==> !chunk_compressed(#[trigger] cs[i])
}

/// The bytes a read returns.
pub open spec fn slice_of(cs: Seq<Seq<u8>>, chunk: int, offset: int, size: int) -> Seq<u8> {
    slice_pieces(cs, chunk_index_of(cs, chunk), chunks_touched(cs, chunk, offset, size), offset, size)
}

/// A chunk of a metadata table: its header and its data.
pub struct Chunk {
    pub data: Vec<u8>,
}

impl Chunk {
    /// The chunk's header.
    pub fn header(&self) -> (r: u16)
        requires
            self.data@.len() >= 2,
        ensures
            r == le16(self.data@, 0),
    {
        read_u16_le(self.data.as_slice(), 0)
    }

    /// The length of the chunk's data.
    pub fn len(&self) -> (r: usize)
        requires
            self.data@.len() >= 2,
        ensures
            r == chunk_len_of(self.data@),
    {
        let h = self.header();
        (h & 0x7FFF) as usize
    }

    /// Whether the chunk is compressed.
    pub fn is_compressed(&self) -> (r: bool)
        requires
            self.data@.len() >= 2,
        ensures
            r == chunk_compressed(self.data@),
    {
        self.header() & 0x8000 == 0
    }
}

/// A metadata table cut into its chunks.
pub struct ChunkReader {
    pub chunks: Vec<Chunk>,
}

proof fn lemma_split_chunks_shape(data: Seq<u8>, off: int)
    requires
        0 <= off <= data.len(),
        split_chunks(data, off) is Some,
    ensures
        forall|i: int| 0 <= i < split_chunks(data, off).unwrap().len() ==> {
            let c = #[trigger] split_chunks(data, off).unwrap()[i];
            c.len() >= 2 && c.len() == chunk_len_of(c) + 2
        },
    decreases data.len() - off,
{
    if off < data.len() {
        let l = chunk_len_of(data.subrange(off, off + 2)) as int + 2;
        lemma_split_chunks_shape(data, off + l);
        let c = data.subrange(off, off + l);
        assert(c.subrange(0, 2) =~= data.subrange(off, off + 2));
        assert(data.subrange(off, off + 2).subrange(0, 2) =~= data.subrange(off, off + 2));
        assert(chunk_len_of(c) == l - 2);
        let rest = split_chunks(data, off + l).unwrap();
        assert(split_chunks(data, off).unwrap() == seq![c] + rest);
        assert forall|i: int| 0 <= i < split_chunks(data, off).unwrap().len() implies {
            let c2 = #[trigger] split_chunks(data, off).unwrap()[i];
            c2.len() >= 2 && c2.len() == chunk_len_of(c2) + 2
        } by {
            if i > 0 {
                assert(split_chunks(data, off).unwrap()[i] == rest[i - 1]);
            } else {
                assert(split_chunks(data, off).unwrap()[0] == c);
            }
        }
    }
}

impl ChunkReader {
    /// The chunks' bytes.
    pub open spec fn chunk_bytes(&self) -> Seq<Seq<u8>> {
        self.chunks@.map_values(|c: Chunk| c.data@)
    }

    /// Every chunk holds its header and exactly the data its header counts.
    pub open spec fn wf(&self) -> bool {
        forall|i: int| 0 <= i < self.chunks@.len() ==> {
            let c = #[trigger] self.chunks@[i].data@;
            c.len() >= 2 && c.len() == chunk_len_of(c) + 2
        }
    }

    /// Cuts `data` into its chunks.
    pub fn new(data: &[u8]) -> (r: Self)
        requires
            split_chunks(data@, 0) is Some,
        ensures
            r.wf(),
            r.chunk_bytes() == split_chunks(data@, 0).unwrap(),
    {
        let mut chunks: Vec<Chunk> = Vec::new();
        let mut offset: usize = 0;
        let len = data.len();
        proof {
            lemma_split_chunks_shape(data@, 0);
        }
        while offset != len
            invariant
                offset <= data@.len(),
                len == data@.len(),
                split_chunks(data@, 0) is Some,
                split_chunks(data@, offset as int) is Some,
                split_chunks(data@, 0).unwrap() == chunks@.map_values(|c: Chunk| c.data@)
                    + split_chunks(data@, offset as int).unwrap(),
            decreases data@.len() - offset,
        {
            let header = read_u16_le(data, offset);
            proof {
                assert(le16(data@, offset as int) == le16(data@.subrange(offset as int, offset + 2), 0)) by {
                    assert(data@.subrange(offset as int, offset + 2).subrange(0, 2) =~= data@.subrange(offset as int, offset + 2));
                }
            }
            let length = (header & 0x7FFF) as usize + HEADER_SIZE;
            let chunk_data = copy_range(data, offset, offset + length);
            let ghost before = chunks@.map_values(|c: Chunk| c.data@);
            chunks.push(Chunk { data: chunk_data });
            proof {
                let rest = split_chunks(data@, offset + length).unwrap();
                assert(chunks@.map_values(|c: Chunk| c.data@) =~= before.push(data@.subrange(offset as int, offset + length)));
                assert(split_chunks(data@, offset as int).unwrap() =~= seq![data@.subrange(offset as int, offset + length)] + rest);
                assert(before + split_chunks(data@, offset as int).unwrap()
                    =~= before.push(data@.subrange(offset as int, offset + length)) + rest);
            }
            offset = offset + length;
        }
        proof {
            assert(chunks@.map_values(|c: Chunk| c.data@) =~= split_chunks(data@, 0).unwrap());
            lemma_split_chunks_shape(data@, 0);
            assert forall|i: int| 0 <= i < chunks@.len() implies {
                let c = #[trigger] chunks@[i].data@;
                c.len() >= 2 && c.len() == chunk_len_of(c) + 2
            } by {
                assert(chunks@[i].data@ == split_chunks(data@, 0).unwrap()[i]);
            }
        }
        ChunkReader { chunks }
    }
}

proof fn lemma_needed_chunks_bound(cs: Seq<Seq<u8>>, idx: int, n: int, avail: int, size: int)
    requires
        needed_chunks(cs, idx, n, avail, size) is Some,
        n >= 1,
    ensures
        needed_chunks(cs, idx, n, avail, size).unwrap() >= n,
        idx + needed_chunks(cs, idx, n, avail, size).unwrap() <= cs.len() || n == needed_chunks(cs, idx, n, avail, size).unwrap(),
    decreases cs.len() - (idx + n),
{
    if avail < size && idx + n < cs.len() {
        lemma_needed_chunks_bound(cs, idx, n + 1, avail + chunk_len_of(cs[idx + n]), size);
    }
}

proof fn lemma_chunk_len_bound(c: Seq<u8>)
    ensures
        chunk_len_of(c) <= 0x7FFF,
{
    let h = le16(c, 0);
    assert(h & 0x7FFF <= 0x7FFF) by (bit_vector);
}

proof fn lemma_step_multiple(total: u64, chunk: u64, step: int, k: u64)
    requires
        step >= 2,
        chunk as int % step == 0,
        total == k * step,
        total < chunk,
    ensures
        total + step <= chunk,
{
    vstd::arithmetic::div_mod::lemma_fundamental_div_mod(chunk as int, step);
    let a = chunk as int / step;
    assert(total + step <= chunk) by (nonlinear_arith)
        requires
            chunk == step * a,
            total == k * step,
            total < chunk,
            step >= 2;
}

impl ChunkReader {
    /// Reads `size` bytes from `offset` in the chunk that starts at byte
    /// `chunk` of the table, taking as many further chunks as it needs. Every
    /// chunk is taken to be as long as the first when turning `chunk` into a
    /// chunk index, and each chunk read contributes up to `size` bytes.
    pub fn get_slice(&self, chunk: u64, offset: u16, size: usize) -> (r: Vec<u8>)
        requires
            self.wf(),
            slice_readable(self.chunk_bytes(), chunk as int, offset as int, size as int),
            size <= usize::MAX - 0x10000,
        ensures
            r@ == slice_of(self.chunk_bytes(), chunk as int, offset as int, size as int),
    {
        let ghost cs = self.chunk_bytes();
        let mut chunk_idx: u64 = 0;
        let mut total_length: u64 = 0;
        let ghost step: int = if cs.len() > 0 { chunk_len_of(cs[0]) as int + 2 } else { 2 };
        proof {
            if cs.len() > 0 {
                assert(cs[0] == self.chunks@[0].data@);
            }
        }
        while total_length != chunk
            invariant
                self.wf(),
                cs == self.chunk_bytes(),
                chunk == 0 || cs.len() > 0,
                chunk != 0 ==> chunk as int % step == 0,
                cs.len() > 0 ==> step == chunk_len_of(cs[0]) + 2,
                step >= 2,
                total_length == chunk_idx * step,
                total_length <= chunk,
            decreases chunk - total_length,
        {
            proof {
                lemma_step_multiple(total_length, chunk, step, chunk_idx);
                assert(cs[0] == self.chunks@[0].data@);
                assert(chunk_idx <= total_length) by (nonlinear_arith)
                    requires total_length == chunk_idx * step, step >= 2;
                assert((chunk_idx + 1) * step == chunk_idx * step + step) by (nonlinear_arith);
                lemma_chunk_len_bound(cs[0]);
            }
            chunk_idx = chunk_idx + 1;
            total_length = total_length + (self.chunks[0].len() + HEADER_SIZE) as u64;
        }
        proof {
            if chunk != 0 {
                vstd::arithmetic::div_mod::lemma_div_multiples_vanish(chunk_idx as int, step);
                assert(chunk_idx * step == step * chunk_idx) by (nonlinear_arith);
            } else {
                assert(chunk_idx == 0) by (nonlinear_arith)
                    requires chunk_idx * step == 0, step >= 2;
            }
            assert(chunk_idx == chunk_index_of(cs, chunk as int));
        }
        let nchunks = self.chunks.len();
        let idx = chunk_idx as usize;
        let ghost first = cs[idx as int];
        proof {
            assert(first == self.chunks@[idx as int].data@);
            assert(first.len() == chunk_len_of(first) + 2);
            lemma_chunk_len_bound(first);
        }
        let mut chunks_to_read: usize = 1;
        let mut available = self.chunks[idx].data.len() - offset as usize;
        let ghost avail0 = available as int;
        let ghost n = chunks_touched(cs, chunk as int, offset as int, size as int);
        proof {
            lemma_needed_chunks_bound(cs, idx as int, 1, avail0, size as int);
        }
        while available < size
            invariant
                self.wf(),
                cs == self.chunk_bytes(),
                nchunks == cs.len(),
                1 <= chunks_to_read <= n,
                idx as int + n <= cs.len(),
                needed_chunks(cs, idx as int, chunks_to_read as int, available as int, size as int) == Some(n),
                available <= size + 0x8001,
                size <= usize::MAX - 0x10000,
            decreases n - chunks_to_read,
        {
            proof {
                lemma_needed_chunks_bound(cs, idx as int, chunks_to_read as int, available as int, size as int);
                assert(cs[idx + chunks_to_read] == self.chunks@[idx + chunks_to_read].data@);
                lemma_chunk_len_bound(cs[idx + chunks_to_read]);
            }
            available = available + self.chunks[idx + chunks_to_read].len();
            chunks_to_read = chunks_to_read + 1;
            proof {
                lemma_needed_chunks_bound(cs, idx as int, chunks_to_read as int, available as int, size as int);
            }
        }
        proof {
            assert(chunks_to_read == n);
        }
        let mut data: Vec<u8> = Vec::new();
        let mut off: usize = offset as usize;
        let mut i = idx;
        while i < idx + chunks_to_read
            invariant
                self.wf(),
                cs == self.chunk_bytes(),
                nchunks == cs.len(),
                idx <= i <= idx + chunks_to_read,
                idx as int + chunks_to_read <= cs.len(),
                chunks_to_read == n,
                off == if i == idx { offset as usize } else { 0usize },
                offset <= chunk_len_of(cs[idx as int]),
                data@ == slice_pieces(cs, idx as int, i - idx, offset as int, size as int),
                size <= usize::MAX - 0x10000,
            decreases idx + chunks_to_read - i,
        {
            let c = &self.chunks[i];
            proof {
                assert(cs[i as int] == c.data@);
            }
            let block_start = off + HEADER_SIZE;
            let mut block_end = c.len() + HEADER_SIZE;
            if (block_end - block_start) > size {
                block_end = block_start + size;
            }
            let mut piece = copy_range(c.data.as_slice(), block_start, block_end);
            let ghost before = data@;
            data.append(&mut piece);
            proof {
                assert(data@ =~= slice_pieces(cs, idx as int, i + 1 - idx, offset as int, size as int));
            }
            off = 0;
            i = i + 1;
        }
        data
    }
}

/// The metadata tables of an image.
#[derive(Clone, Copy, Debug, PartialEq, Eq, Structural)]
pub enum Table {
    Inode,
    Dir,
    Frag,
    Export,
    ID,
    Xattr,
}

/// The tables an image has, in the order they follow one another, with
/// their offsets; the optional ones are missing where their offset is all ones.
pub open spec fn tables_of(sb: SquashfsSuperblock) -> Seq<(Table, u64)> {
    seq![(Table::Inode, sb.inode_table), (Table::Dir, sb.dir_table)]
        + (if sb.frag_table != u64::MAX { seq![(Table::Frag, sb.frag_table)] } else { Seq::empty() })
        + (if sb.export_table != u64::MAX { seq![(Table::Export, sb.export_table)] } else { Seq::empty() })
        + seq![(Table::ID, sb.id_table)]
        + (if sb.xattr_table != u64::MAX { seq![(Table::Xattr, sb.xattr_table)] } else { Seq::empty() })
}

/// Where table `i` ends: where the next begins, or at the end of the image.
pub open spec fn table_end(ts: Seq<(Table, u64)>, i: int, len: nat) -> int {
    if i == ts.len() - 1 {
        len as int
    } else {
        ts[i + 1].1 as int
    }
}

/// Whether every table lies within the image and ends where the next begins.
pub open spec fn tables_fit(ts: Seq<(Table, u64)>, len: nat) -> bool {
    forall|i: int| 0 <= i < ts.len() ==> ts[i].1 <= #[trigger] table_end(ts, i, len) <= len
}

/// The bytes of table `i`.
pub open spec fn table_bytes(data: Seq<u8>, ts: Seq<(Table, u64)>, i: int) -> Seq<u8> {
    data.subrange(ts[i].1 as int, table_end(ts, i, data.len()))
}

/// The position of table `t` in `ts`, if the image has it.
pub open spec fn table_position(ts: Seq<(Table, u64)>, t: Table) -> Option<int> {
    if exists|i: int| 0 <= i < ts.len() && ts[i].0 == t {
        Some(choose|i: int| 0 <= i < ts.len() && ts[i].0 == t)
    } else {
        None
    }
}

/// Whether an image can be opened: its superblock reads, its compressor is
/// gzip, its data table starts after the superblock, its tables fit and its
/// inode and directory tables cut into chunks.
pub open spec fn image_readable(image: Seq<u8>) -> bool {
    let length = le64(image, 40) as int;
    let data = image.subrange(0, length);
    let sb = superblock_of(data);
    let ts = tables_of(sb);
    &&& image.len() >= 48
    &&& 96 <= length <= image.len()
    &&& 1 <= le16(data, 20) <= 6
    &&& superblock_accepted(sb) ==> {
        &&& sb.compressor == SquashfsCompressionType::Gzip
        &&& 96 <= sb.inode_table <= length
        &&& tables_fit(ts, length as nat)
        &&& split_chunks(table_bytes(data, ts, 0), 0) is Some
        &&& split_chunks(table_bytes(data, ts, 1), 0) is Some
    }
}

/// An opened SquashFS image.
pub struct Squashfs {
    superblock: SquashfsSuperblock,
    image: Vec<u8>,
    data_table: Vec<u8>,
    inode_table: ChunkReader,
    directory_table: ChunkReader,
    fragment_table: Option<Vec<u8>>,
    export_table: Option<Vec<u8>>,
    id_table: Vec<u8>,
    xattr_table: Option<Vec<u8>>,
}

/// The table at position `p`, if there is one.
pub open spec fn optional_table(data: Seq<u8>, ts: Seq<(Table, u64)>, p: Option<int>) -> Option<Seq<u8>> {
    match p {
        Some(i) => Some(table_bytes(data, ts, i)),
        None => None,
    }
}

/// A view of an optional table.
pub open spec fn view_table(t: Option<Vec<u8>>) -> Option<Seq<u8>> {
    match t {
        Some(v) => Some(v@),
        None => None,
    }
}

impl Squashfs {
    /// The superblock.
    pub closed spec fn sb(&self) -> SquashfsSuperblock {
        self.superblock
    }

    /// The image's bytes.
    pub closed spec fn image_bytes(&self) -> Seq<u8> {
        self.image@
    }

    /// The data table's bytes.
    pub closed spec fn data_table_bytes(&self) -> Seq<u8> {
        self.data_table@
    }

    /// The chunks of the inode table.
    pub closed spec fn inode_chunks(&self) -> Seq<Seq<u8>> {
        self.inode_table.chunk_bytes()
    }

    /// The chunks of the directory table.
    pub closed spec fn directory_chunks(&self) -> Seq<Seq<u8>> {
        self.directory_table.chunk_bytes()
    }

    /// The fragment table's bytes, if the image has one.
    pub closed spec fn fragment_table_bytes(&self) -> Option<Seq<u8>> {
        view_table(self.fragment_table)
    }

    /// The export table's bytes, if the image has one.
    pub closed spec fn export_table_bytes(&self) -> Option<Seq<u8>> {
        view_table(self.export_table)
    }

    /// The ID table's bytes.
    pub closed spec fn id_table_bytes(&self) -> Seq<u8> {
        self.id_table@
    }

    /// The extended attribute table's bytes, if the image has one.
    pub closed spec fn xattr_table_bytes(&self) -> Option<Seq<u8>> {
        view_table(self.xattr_table)
    }

    /// The chunk readers hold whole chunks.
    pub closed spec fn wf(&self) -> bool {
        &&& self.inode_table.wf()
        &&& self.directory_table.wf()
        &&& self.superblock.compressor == SquashfsCompressionType::Gzip
    }

    /// Whether `self` is the image `data` opened: its superblock, its bytes
    /// and each of its tables cut out of them.
    pub open spec fn opened_from(&self, data: Seq<u8>) -> bool {
        let sb = superblock_of(data);
        let ts = tables_of(sb);
        &&& self.wf()
        &&& self.sb() == sb
        &&& self.image_bytes() == data
        &&& self.data_table_bytes() == data.subrange(96, sb.inode_table as int)
        &&& self.inode_chunks() == split_chunks(table_bytes(data, ts, 0), 0).unwrap()
        &&& self.directory_chunks() == split_chunks(table_bytes(data, ts, 1), 0).unwrap()
        &&& self.fragment_table_bytes() == optional_table(data, ts, table_position(ts, Table::Frag))
        &&& self.export_table_bytes() == optional_table(data, ts, table_position(ts, Table::Export))
        &&& self.id_table_bytes() == table_bytes(data, ts, table_position(ts, Table::ID).unwrap())
        &&& self.xattr_table_bytes() == optional_table(data, ts, table_position(ts, Table::Xattr))
    }

    /// Opens the image at the start of `image`, whose superblock gives its
    /// length: reads the superblock, then cuts the image into its tables.
    pub fn new(image: &[u8]) -> (r: Result<Squashfs, ()>)
        requires
            image_readable(image@),
        ensures
            ({
                let data = image@.subrange(0, le64(image@, 40) as int);
                &&& r is Ok <==> superblock_accepted(superblock_of(data))
                &&& r matches Ok(f) ==> f.opened_from(data)
            }),
    {
        let raw_length = read_u64_le(image, 40);
        let image_len = image.len();
        proof {
            assert(raw_length <= image_len);
        }
        let length = raw_length as usize;
        let squashfs_data = copy_range(image, 0, length);
        let superblock = match SquashfsSuperblock::new(squashfs_data.as_slice()) {
            Ok(sb) => sb,
            Err(e) => {
                return Err(e);
            },
        };
        Ok(Self::cut_tables(squashfs_data, superblock))
    }

    /// Cuts the image `squashfs_data`, whose superblock is `superblock`, into
    /// its tables.
    fn cut_tables(squashfs_data: Vec<u8>, superblock: SquashfsSuperblock) -> (r: Squashfs)
        requires
            ({
                let data = squashfs_data@;
                let ts = tables_of(superblock);
                &&& superblock == superblock_of(data)
                &&& superblock.compressor == SquashfsCompressionType::Gzip
                &&& 96 <= superblock.inode_table <= data.len()
                &&& tables_fit(ts, data.len())
                &&& split_chunks(table_bytes(data, ts, 0), 0) is Some
                &&& split_chunks(table_bytes(data, ts, 1), 0) is Some
            }),
        ensures
            r.opened_from(squashfs_data@),
    {
        let data_len = squashfs_data.len();
        proof {
            assert(superblock.inode_table <= data_len);
        }
        let data_table = copy_range(squashfs_data.as_slice(), 96, superblock.inode_table as usize);
        let mut tables: Vec<(Table, u64)> = Vec::new();
        tables.push((Table::Inode, superblock.inode_table));
        tables.push((Table::Dir, superblock.dir_table));
        if superblock.frag_table != u64::MAX {
            tables.push((Table::Frag, superblock.frag_table));
        }
        if superblock.export_table != u64::MAX {
            tables.push((Table::Export, superblock.export_table));
        }
        tables.push((Table::ID, superblock.id_table));
        if superblock.xattr_table != u64::MAX {
            tables.push((Table::Xattr, superblock.xattr_table));
        }
        let ghost ts = tables_of(superblock);
        proof {
            assert(tables@ =~= ts);
            lemma_table_positions(superblock);
        }
        let data = squashfs_data.as_slice();
        let inode_bytes = read_table(data, &tables, 0);
        let inode_table = ChunkReader::new(inode_bytes.as_slice());
        let directory_bytes = read_table(data, &tables, 1);
        let directory_table = ChunkReader::new(directory_bytes.as_slice());
        let mut next: usize = 2;
        let fragment_table = if superblock.frag_table != u64::MAX {
            let t = read_table(data, &tables, next);
            next = next + 1;
            Some(t)
        } else {
            None
        };
        let export_table = if superblock.export_table != u64::MAX {
            let t = read_table(data, &tables, next);
            next = next + 1;
            Some(t)
        } else {
            None
        };
        let id_table = read_table(data, &tables, next);
        next = next + 1;
        let xattr_table = if superblock.xattr_table != u64::MAX {
            Some(read_table(data, &tables, next))
        } else {
            None
        };
        Squashfs {
            superblock,
            image: squashfs_data,
            data_table,
            inode_table,
            directory_table,
            fragment_table,
            export_table,
            id_table,
            xattr_table,
        }
    }
}

/// The bytes of table `i` of `tables`.
fn read_table(data: &[u8], tables: &Vec<(Table, u64)>, i: usize) -> (r: Vec<u8>)
    requires
        i < tables@.len(),
        tables_fit(tables@, data@.len()),
    ensures
        r@ == table_bytes(data@, tables@, i as int),
{
    let offset = tables[i].1;
    let len = data.len();
    proof {
        assert(tables@[i as int].1 <= table_end(tables@, i as int, data@.len()) <= data@.len());
        assert(offset <= len);
    }
    let start = offset as usize;
    if i == tables.len() - 1 {
        copy_range(data, start, data.len())
    } else {
        let next = tables[i + 1].1;
        proof {
            assert(next == table_end(tables@, i as int, data@.len()));
            assert(next <= len);
        }
        copy_range(data, start, next as usize)
    }
}

/// Where each table stands among the tables an image has.
proof fn lemma_table_positions(sb: SquashfsSuperblock)
    ensures
        ({
            let ts = tables_of(sb);
            let f: int = if sb.frag_table != u64::MAX { 1 } else { 0 };
            let e: int = if sb.export_table != u64::MAX { 1 } else { 0 };
            let x: int = if sb.xattr_table != u64::MAX { 1 } else { 0 };
            &&& ts.len() == 3 + f + e + x
            &&& ts[0].0 == Table::Inode && ts[1].0 == Table::Dir
            &&& table_position(ts, Table::Frag) == (if f == 1 { Some(2int) } else { None::<int> })
            &&& table_position(ts, Table::Export) == (if e == 1 { Some(2 + f) } else { None::<int> })
            &&& table_position(ts, Table::ID) == Some(2 + f + e)
            &&& table_position(ts, Table::Xattr) == (if x == 1 { Some(3 + f + e) } else { None::<int> })
        }),
{
    let ts = tables_of(sb);
    let f: int = if sb.frag_table != u64::MAX { 1 } else { 0 };
    let e: int = if sb.export_table != u64::MAX { 1 } else { 0 };
    let x: int = if sb.xattr_table != u64::MAX { 1 } else { 0 };
    assert(ts.len() == 3 + f + e + x);
    assert(ts[0].0 == Table::Inode && ts[1].0 == Table::Dir);
    assert(forall|j: int| 0 <= j < ts.len() ==> (ts[j].0 == Table::Frag <==> (f == 1 && j == 2)));
    assert(forall|j: int| 0 <= j < ts.len() ==> (ts[j].0 == Table::Export <==> (e == 1 && j == 2 + f)));
    assert(forall|j: int| 0 <= j < ts.len() ==> (ts[j].0 == Table::ID <==> j == 2 + f + e));
    assert(forall|j: int| 0 <= j < ts.len() ==> (ts[j].0 == Table::Xattr <==> (x == 1 && j == 3 + f + e)));
    if f == 1 {
        assert(ts[2].0 == Table::Frag);
    }
    if e == 1 {
        assert(ts[2 + f].0 == Table::Export);
    }
    assert(ts[2 + f + e].0 == Table::ID);
    if x == 1 {
        assert(ts[3 + f + e].0 == Table::Xattr);
    }
}


/// The metadata block and the offset in it that an inode number names: the
/// block position in bits 16 to 63, the offset in the low 16 bits.
pub open spec fn inode_block_offset(inode: u64) -> (u64, u16) {
    (((inode >> 16u64) & 0x0000FFFFFFFFFFFF) as u64, (inode & 0xFFFF) as u16)
}

/// The inode numbered `inode` in the inode table `cs`: its kind from its
/// first two bytes, then the whole inode. `None` where the kernel would not
/// survive the read: a read past the table or across a compressed chunk,
/// or an inode kind this kernel does not read.
pub open spec fn inode_read(cs: Seq<Seq<u8>>, inode: u64) -> Option<Inode> {
    let (b, o) = inode_block_offset(inode);
    if !slice_readable(cs, b as int, o as int, 2) || slice_of(cs, b as int, o as int, 2).len() != 2 {
        None
    } else {
        let t = le16(slice_of(cs, b as int, o as int, 2), 0);
        if !(t == 1 || t == 2 || t == 8) {
            None
        } else if !slice_readable(cs, b as int, o as int, inode_size_of(t) as int)
            || !inode_readable(slice_of(cs, b as int, o as int, inode_size_of(t) as int)) {
            None
        } else {
            Some(inode_of(slice_of(cs, b as int, o as int, inode_size_of(t) as int)))
        }
    }
}

/// Where a directory search is: the metadata block position and offset of
/// the listing, the bytes read past that offset, the entries read under the
/// current header, and that header.
pub type DirState = (u64, u16, usize, u32, DirectoryTableHeader);

/// One step of a directory search.
pub enum DirStep {
    /// Go on from this position.
    Continue(DirState),
    /// The entry names the inode with this number.
    Found(u64),
    /// The listing ended without the name.
    Missing,
}

/// The position a search moves to when its offset runs past the chunk it
/// is in: this kernel adds 8194 to the block position and carries the rest
/// of the offset into the next chunk, less the header. `None` where that
/// arithmetic or indexing would not survive.
pub open spec fn dir_carry(cs: Seq<Seq<u8>>, st: DirState) -> Option<(u64, u16, usize)> {
    let (block, doff, offset, i, hdr) = st;
    let k = block / 8194;
    if k >= cs.len() || chunk_len_of(cs[k as int]) < 2 || doff + offset > usize::MAX {
        None
    } else if chunk_len_of(cs[k as int]) - 2 < doff + offset {
        let b2 = block + 8194;
        let k2 = b2 / 8194;
        if b2 > u64::MAX || k2 >= cs.len() || chunk_len_of(cs[k2 as int]) < 2 || offset + doff < chunk_len_of(cs[k2 as int]) - 2 {
            None
        } else {
            let x = (offset + doff - (chunk_len_of(cs[k2 as int]) - 2)) as usize;
            if (x as u16) < 2 {
                None
            } else {
                Some((b2 as u64, ((x as u16) - 2) as u16, 0usize))
            }
        }
    } else {
        Some((block, doff, offset))
    }
}

/// One step of a search of a directory of `dir_size` bytes in the directory
/// table `cs` for the name whose UTF-8 bytes are `name`: carry into the next
/// chunk if needed; then read the next header when the current one's
/// entries are done and the listing is not; stop at the listing's end;
/// else read the next entry, and stop if it has the name.
pub open spec fn dir_step(cs: Seq<Seq<u8>>, name: Seq<u8>, dir_size: usize, st: DirState) -> Option<DirStep> {
    let (block, doff, offset, i, hdr) = st;
    match dir_carry(cs, st) {
        None => None,
        Some((b2, d2, o2)) => {
            if i == hdr.entry_count && o2 != dir_size {
                let pos = d2 + (o2 as u16);
                if pos > u16::MAX || !slice_readable(cs, b2 as int, pos, 12) {
                    None
                } else {
                    let bytes = slice_of(cs, b2 as int, pos, 12);
                    if bytes.len() < 12 || le32(bytes, 0) == u32::MAX || o2 + 12 > usize::MAX {
                        None
                    } else {
                        Some(DirStep::Continue((b2, d2, (o2 + 12) as usize, 0u32, directory_header_of(bytes))))
                    }
                }
            } else if o2 >= dir_size {
                Some(DirStep::Missing)
            } else {
                let npos = d2 + ((o2 as u16) + 6);
                let epos = d2 + (o2 as u16);
                if (o2 as u16) + 6 > u16::MAX || npos > u16::MAX || !slice_readable(cs, b2 as int, npos, 2)
                    || slice_of(cs, b2 as int, npos, 2).len() != 2 {
                    None
                } else {
                    let ns = le16(slice_of(cs, b2 as int, npos, 2), 0) + 1;
                    if epos > u16::MAX || !slice_readable(cs, b2 as int, epos, 8 + ns) {
                        None
                    } else {
                        let e = slice_of(cs, b2 as int, epos, 8 + ns);
                        if !entry_readable(e) || o2 + 8 + ns > usize::MAX {
                            None
                        } else if e.subrange(8, 8 + le16(e, 6) + 1) == name {
                            Some(DirStep::Found((((hdr.start as usize) << 16usize) | (le16(e, 0) as usize)) as u64))
                        } else if i + 1 > u32::MAX {
                            None
                        } else {
                            Some(DirStep::Continue((b2, d2, (o2 + 8 + ns) as usize, (i + 1) as u32, hdr)))
                        }
                    }
                }
            }
        },
    }
}

/// The first measure of a search's progress: how far its block position is
/// from past the table.
pub open spec fn dir_m1(n: nat, st: DirState) -> int {
    (n + 1) * 8194 - st.0
}

/// The second measure: how far its offset is from past the listing.
pub open spec fn dir_m2(dir_size: usize, st: DirState) -> int {
    dir_size + 65600 - st.2
}

/// Whether a step from `a` to `b` makes progress.
pub open spec fn dir_progress(n: nat, dir_size: usize, a: DirState, b: DirState) -> bool {
    &&& dir_m1(n, b) >= 0 && dir_m2(dir_size, b) >= 0
    &&& (dir_m1(n, b) < dir_m1(n, a) || (dir_m1(n, b) == dir_m1(n, a) && dir_m2(dir_size, b) < dir_m2(dir_size, a)))
}

/// A whole directory search from `st`: the inode number found, `Err` when
/// the listing ends, `None` where the kernel would not survive.
pub open spec fn dir_walk(cs: Seq<Seq<u8>>, name: Seq<u8>, dir_size: usize, st: DirState) -> Option<Result<u64, ()>>
    decreases dir_m1(cs.len(), st), dir_m2(dir_size, st),
{
    if dir_m1(cs.len(), st) < 0 || dir_m2(dir_size, st) < 0 {
        None
    } else {
        match dir_step(cs, name, dir_size, st) {
            None => None,
            Some(DirStep::Missing) => Some(Err(())),
            Some(DirStep::Found(ino)) => Some(Ok(ino)),
            Some(DirStep::Continue(next)) => {
                if dir_progress(cs.len(), dir_size, st, next) {
                    dir_walk(cs, name, dir_size, next)
                } else {
                    None
                }
            },
        }
    }
}

/// The listing a directory inode names: its block position and offset,
/// as one inode-style number, and its size; `None` for a file.
pub open spec fn dir_listing(dir: Inode) -> Option<(u64, usize)> {
    match dir {
        Inode::BasicDirectory(d) => Some(((((d.block_index as usize) << 16usize) | (d.block_offset as usize)) as u64, d.file_size as usize)),
        Inode::ExtendedDirectory(d) => Some(((((d.block_index as usize) << 16usize) | (d.block_offset as usize)) as u64, d.file_size as usize)),
        Inode::BasicFile(_) => None,
    }
}

/// The search of directory `dir` for the name whose UTF-8 bytes are `name`,
/// in the directory table `dcs` and the inode table `ics`: `Err` for a
/// file, an empty directory or a name not there; the found inode read from
/// the inode table; `None` where the kernel would not survive.
pub open spec fn find_in_directory(dcs: Seq<Seq<u8>>, ics: Seq<Seq<u8>>, dir: Inode, name: Seq<u8>) -> Option<Result<Inode, ()>> {
    match dir_listing(dir) {
        None => Some(Err(())),
        Some((listing, dir_size)) => {
            if dir_size == 0 {
                Some(Err(()))
            } else {
                let (block, doff) = inode_block_offset(listing);
                if !slice_readable(dcs, block as int, doff as int, 12) {
                    None
                } else {
                    let hb = slice_of(dcs, block as int, doff as int, 12);
                    if hb.len() < 12 || le32(hb, 0) == u32::MAX {
                        None
                    } else {
                        match dir_walk(dcs, name, dir_size, (block, doff, 12usize, 0u32, directory_header_of(hb))) {
                            None => None,
                            Some(Err(())) => Some(Err(())),
                            Some(Ok(ino)) => match inode_read(ics, ino) {
                                Some(x) => Some(Ok(x)),
                                None => None,
                            },
                        }
                    }
                }
            }
        },
    }
}

impl Squashfs {
    /// The metadata block and offset inode number `inode` names.
    pub fn get_inode_block_offset(&self, inode: u64) -> (r: (u64, u16))
        ensures
            r == inode_block_offset(inode),
    {
        let inode_block = ((inode >> 16) & 0x0000FFFFFFFFFFFF) as u64;
        let inode_offset = (inode & 0xFFFF) as u16;
        (inode_block, inode_offset)
    }

    /// Reads the inode numbered `inode`.
    pub fn read_inode(&self, inode: u64) -> (r: Inode)
        requires
            self.wf(),
            inode_read(self.inode_chunks(), inode) is Some,
        ensures
            r == inode_read(self.inode_chunks(), inode).unwrap(),
    {
        let (inode_block, inode_offset) = self.get_inode_block_offset(inode);
        let type_bytes = self.inode_table.get_slice(inode_block, inode_offset, 2);
        let file_type = read_u16_le(type_bytes.as_slice(), 0);
        let inode_size: usize = if file_type == 1 { 32 } else if file_type == 8 { 40 } else { 32 };
        let inode_bytes = self.inode_table.get_slice(inode_block, inode_offset, inode_size);
        Inode::from_bytes(inode_bytes.as_slice())
    }

    /// Reads the root directory's inode.
    pub fn read_root_dir(&self) -> (r: Inode)
        requires
            self.wf(),
            inode_read(self.inode_chunks(), self.sb().root_inode) is Some,
        ensures
            r == inode_read(self.inode_chunks(), self.sb().root_inode).unwrap(),
    {
        self.read_inode(self.superblock.root_inode)
    }

    /// Searches directory `dir` for `name`, as `find_in_directory` says.
    #[verifier::rlimit(60)]
    pub fn find_entry_in_directory(&self, dir: Inode, name: &str) -> (r: Result<Inode, ()>)
        requires
            self.wf(),
            find_in_directory(self.directory_chunks(), self.inode_chunks(), dir, name.spec_bytes()) is Some,
        ensures
            r == find_in_directory(self.directory_chunks(), self.inode_chunks(), dir, name.spec_bytes()).unwrap(),
    {
        let ghost dcs = self.directory_chunks();
        let ghost nb = name.spec_bytes();
        let name_bytes = name.as_bytes();
        let (dir_inode, dir_size) = match dir {
            Inode::BasicDirectory(d) => (((d.block_index as usize) << 16) | d.block_offset as usize, d.file_size as usize),
            Inode::ExtendedDirectory(d) => (((d.block_index as usize) << 16) | d.block_offset as usize, d.file_size as usize),
            Inode::BasicFile(_) => {
                return Err(());
            },
        };
        if dir_size == 0 {
            return Err(());
        }
        let (mut directory_block, mut directory_offset) = self.get_inode_block_offset(dir_inode as u64);
        let header_bytes = self.directory_table.get_slice(directory_block, directory_offset, 12);
        let mut directory_table_header = DirectoryTableHeader::from_bytes(header_bytes.as_slice());
        let mut offset: usize = 12;
        let mut i: u32 = 0;
        let n = self.directory_table.chunks.len();
        let ghost start: DirState = (directory_block, directory_offset, offset, i, directory_table_header);
        loop
            invariant_except_break
                dir_walk(dcs, nb, dir_size, start)
                    == dir_walk(dcs, nb, dir_size, (directory_block, directory_offset, offset, i, directory_table_header)),
                dir_walk(dcs, nb, dir_size, start) is Some,
            invariant
                self.wf(),
                dcs == self.directory_chunks(),
                nb == name.spec_bytes(),
                name_bytes@ == nb,
                n == dcs.len(),
                dcs == self.directory_table.chunk_bytes(),
                find_in_directory(dcs, self.inode_chunks(), dir, nb) is Some,
                dir_listing(dir) == Some((dir_inode as u64, dir_size)),
                dir_size != 0,
                ({
                    let (b0, d0) = inode_block_offset(dir_inode as u64);
                    let hb = slice_of(dcs, b0 as int, d0 as int, 12);
                    start == (b0, d0, 12usize, 0u32, directory_header_of(hb))
                }),
            ensures
                dir_walk(dcs, nb, dir_size, start) == Some(Err::<u64, ()>(())),
            decreases dir_m1(n as nat, (directory_block, directory_offset, offset, i, directory_table_header)),
                dir_m2(dir_size, (directory_block, directory_offset, offset, i, directory_table_header)),
        {
            let ghost st: DirState = (directory_block, directory_offset, offset, i, directory_table_header);
            proof {
                lemma_dir_walk_unfold(dcs, nb, dir_size, st);
            }
            let k = (directory_block / 8194) as usize;
            proof {
                assert(dcs[k as int] == self.directory_table.chunks@[k as int].data@);
            }
            let clen = self.directory_table.chunks[k].len();
            if clen - 2 < directory_offset as usize + offset {
                directory_block = directory_block + 8194;
                let k2 = (directory_block / 8194) as usize;
                proof {
                    assert(dcs[k2 as int] == self.directory_table.chunks@[k2 as int].data@);
                }
                let clen2 = self.directory_table.chunks[k2].len();
                directory_offset = ((offset + directory_offset as usize) - (clen2 - 2)) as u16 - 2;
                offset = 0;
            }
            if i == directory_table_header.entry_count && offset != dir_size {
                let hb = self.directory_table.get_slice(directory_block, directory_offset + offset as u16, 12);
                directory_table_header = DirectoryTableHeader::from_bytes(hb.as_slice());
                i = 0;
                offset = offset + 12;
                continue;
            }
            if offset >= dir_size {
                break;
            }
            let ns_bytes = self.directory_table.get_slice(directory_block, directory_offset + (offset as u16 + 6), 2);
            let name_size = read_u16_le(ns_bytes.as_slice(), 0) as usize + 1;
            let entry_bytes = self.directory_table.get_slice(directory_block, directory_offset + offset as u16, 8 + name_size);
            let directory_entry = DirectoryTableEntry::from_bytes(entry_bytes.as_slice());
            offset = offset + 8 + name_size;
            if bytes_equal(directory_entry.name.as_slice(), name_bytes) {
                let directory_entry_inode = ((directory_table_header.start as usize) << 16) | (directory_entry.offset as usize);
                return Ok(self.read_inode(directory_entry_inode as u64));
            }
            i = i + 1;
        }
        Err(())
    }
}

proof fn lemma_dir_walk_unfold(cs: Seq<Seq<u8>>, name: Seq<u8>, dir_size: usize, st: DirState)
    requires
        dir_walk(cs, name, dir_size, st) is Some,
    ensures
        dir_m1(cs.len(), st) >= 0,
        dir_m2(dir_size, st) >= 0,
        dir_step(cs, name, dir_size, st) is Some,
        dir_walk(cs, name, dir_size, st) == match dir_step(cs, name, dir_size, st).unwrap() {
            DirStep::Missing => Some(Err(())),
            DirStep::Found(ino) => Some(Ok(ino)),
            DirStep::Continue(next) => dir_walk(cs, name, dir_size, next),
        },
        dir_step(cs, name, dir_size, st).unwrap() matches DirStep::Continue(next) ==> dir_progress(cs.len(), dir_size, st, next),
{
}

/// Whether two byte strings are equal.
pub fn bytes_equal(a: &[u8], b: &[u8]) -> (r: bool)
    ensures
        r == (a@ == b@),
{
    if a.len() != b.len() {
        return false;
    }
    let mut i: usize = 0;
    while i < a.len()
        invariant
            a@.len() == b@.len(),
            0 <= i <= a@.len(),
            forall|k: int| 0 <= k < i ==> a@[k] == b@[k],
        decreases a@.len() - i,
    {
        if a[i] != b[i] {
            return false;
        }
        i = i + 1;
    }
    proof {
        assert(a@ =~= b@);
    }
    true
}


/// Whether a table read as `metadata_block` says is compressed: a metadata
/// block says so itself, with its header's top bit clear; other data is
/// compressed as the caller says.
pub open spec fn table_compressed(table: Seq<u8>, metadata_block: (bool, Option<bool>)) -> bool {
    if !metadata_block.0 { metadata_block.1.unwrap() } else { le16(table, 0) & 0x8000 == 0 }
}

/// The bytes a table holds: past the header for a metadata block.
pub open spec fn table_payload(table: Seq<u8>, metadata_block: (bool, Option<bool>)) -> Seq<u8> {
    if metadata_block.0 { table.subrange(2, table.len() as int) } else { table }
}

/// Where a file's data is when it has a fragment: read from the image
/// `image` with the fragment table `frag`. `None` where the kernel would not
/// survive: a read past the image or the table, or compressed data.
pub open spec fn fragment_data(image: Seq<u8>, frag: Seq<u8>, frag_idx: u32) -> Option<Seq<u8>> {
    if frag_idx + 8 > frag.len() {
        None
    } else {
        let ptr = le64(frag, frag_idx as int);
        if ptr + 2 > image.len() {
            None
        } else {
            let block_size = (le16(image, ptr as int) & 0x7FFF) + 2;
            if ptr + block_size > image.len() {
                None
            } else {
                let raw = image.subrange(ptr as int, ptr + block_size);
                if le16(raw, 0) & 0x8000 == 0 || raw.len() < 14 {
                    None
                } else {
                    let block = raw.subrange(2, raw.len() as int);
                    let start = le64(block, 0);
                    let size = le32(block, 8);
                    if size & 0x0100_0000 == 0 {
                        None
                    } else {
                        let size2 = size & 0xFEFFFFFF;
                        if start + size2 > image.len() {
                            None
                        } else {
                            Some(image.subrange(start as int, start + size2))
                        }
                    }
                }
            }
        }
    }
}

impl Squashfs {
    /// The bytes of `table`, read as `metadata_block` says: the first says
    /// whether it is a metadata block, the second, for other data, whether
    /// it is compressed. The only decompressor this kernel has never
    /// returns, so the table must not be compressed.
    pub fn get_decompressed_table(&self, table: &[u8], metadata_block: (bool, Option<bool>)) -> (r: Vec<u8>)
        requires
            self.wf(),
            table@.len() >= 2,
            !metadata_block.0 ==> metadata_block.1 is Some,
            !table_compressed(table@, metadata_block),
        ensures
            r@ == table_payload(table@, metadata_block),
    {
        let header = read_u16_le(table, 0);
        let table_is_compressed = if !metadata_block.0 {
            match metadata_block.1 {
                Some(c) => c,
                None => true,
            }
        } else {
            header & 0x8000 == 0
        };
        let n = table.len();
        let bytes = if metadata_block.0 { copy_range(table, 2, n) } else { copy_range(table, 0, n) };
        proof {
            assert(table@.subrange(0, n as int) =~= table@);
        }
        if table_is_compressed {
            return Vec::new();
        }
        bytes
    }

    /// Whether the file `file` can be read: it has no fragment and the
    /// image's data blocks are stored uncompressed, or its fragment can be
    /// read; and its bytes lie within the data it is read from.
    pub open spec fn file_readable(&self, file: BasicFileInode) -> bool {
        let data = if file.frag_idx == u32::MAX {
            if self.sb().flags & 0x0002 != 0 && self.data_table_bytes().len() >= 2 { Some(self.data_table_bytes()) } else { None }
        } else {
            match self.fragment_table_bytes() {
                Some(f) => if f.len() >= 2 { fragment_data(self.image_bytes(), f, file.frag_idx) } else { None },
                None => None,
            }
        };
        match data {
            Some(d) => file.block_offset + file.file_size <= d.len() && d.len() >= 2,
            None => false,
        }
    }

    /// The bytes of the file `file`.
    pub open spec fn file_bytes(&self, file: BasicFileInode) -> Seq<u8> {
        let data = if file.frag_idx == u32::MAX {
            self.data_table_bytes()
        } else {
            fragment_data(self.image_bytes(), self.fragment_table_bytes().unwrap(), file.frag_idx).unwrap()
        };
        data.subrange(file.block_offset as int, file.block_offset + file.file_size)
    }

    /// Reads the file whose inode is `inode`: from the data table, or from
    /// its fragment's block.
    pub fn open(&self, inode: Inode) -> (r: Result<Vec<u8>, ()>)
        requires
            self.wf(),
            inode matches Inode::BasicFile(f) && self.file_readable(f),
        ensures
            r matches Ok(v) && inode matches Inode::BasicFile(f) && v@ == self.file_bytes(f),
    {
        let file = match inode {
            Inode::BasicFile(f) => f,
            _ => {
                return Err(());
            },
        };
        let data_table: Vec<u8>;
        if file.frag_idx == u32::MAX {
            let uncompressed = self.superblock.features().uncompressed_data_blocks;
            data_table = self.get_decompressed_table(self.data_table.as_slice(), (false, Some(!uncompressed)));
        } else {
            let frag = match &self.fragment_table {
                Some(f) => f,
                None => {
                    return Err(());
                },
            };
            let fragment_table = self.get_decompressed_table(frag.as_slice(), (false, Some(false)));
            let image = self.image.as_slice();
            let ilen = image.len();
            let ptr = read_u64_le(fragment_table.as_slice(), file.frag_idx as usize);
            proof {
                assert(ptr + 2 <= ilen);
            }
            let raw_size = read_u16_le(image, ptr as usize);
            proof {
                assert(raw_size & 0x7FFF <= 0x7FFF) by (bit_vector);
            }
            let fragment_block_size = (raw_size & 0x7FFF) + 2;
            let fragment_block_raw = copy_range(image, ptr as usize, ptr as usize + fragment_block_size as usize);
            let fragment_block = self.get_decompressed_table(fragment_block_raw.as_slice(), (true, None));
            let fragment_start = read_u64_le(fragment_block.as_slice(), 0);
            let fragment_size = read_u32_le(fragment_block.as_slice(), 8);
            let fragment_compressed = fragment_size & 0x0100_0000 == 0;
            let fragment_size = fragment_size & 0xFEFFFFFF;
            proof {
                assert(fragment_start + fragment_size <= ilen);
            }
            let data_table_raw = copy_range(image, fragment_start as usize, fragment_start as usize + fragment_size as usize);
            data_table = self.get_decompressed_table(data_table_raw.as_slice(), (false, Some(fragment_compressed)));
        }
        let block_offset = file.block_offset as usize;
        let dlen = data_table.len();
        proof {
            assert(block_offset + file.file_size <= dlen);
        }
        let block_data = copy_range(data_table.as_slice(), block_offset, block_offset + file.file_size as usize);
        Ok(block_data)
    }
}


/// An inode number made from a block position below 2^48 and an offset,
/// as a directory entry's is, names that block and that offset again.
pub proof fn law_inode_number_round_trip(block: u64, offset: u16)
    requires
        block < 0x1_0000_0000_0000,
    ensures
        inode_block_offset(((block << 16u64) | (offset as u64)) as u64) == (block, offset),
{
    let n = ((block << 16u64) | (offset as u64)) as u64;
    let o = offset as u64;
    assert(((((block << 16u64) | o) >> 16u64) & 0x0000FFFFFFFFFFFFu64) == block) by (bit_vector)
        requires block < 0x1_0000_0000_0000u64, o < 0x10000u64;
    assert(((((block << 16u64) | o) & 0xFFFFu64) as u16) == o as u16) by (bit_vector)
        requires o < 0x10000u64;
}

/// The name the initramfs module's path contains.
pub open spec fn initramfs_name() -> Seq<char> {
    seq!['i', 'n', 'i', 't', 'r', 'a', 'm', 'f', 's', '.', 'i', 'm', 'g']
}

/// Whether a module's path, if readable, contains `initramfs.img`.
pub open spec fn names_initramfs(path: Option<String>) -> bool {
    match path {
        Some(p) => contains_seq(p@, initramfs_name()),
        None => false,
    }
}

/// Which of the boot modules, given their paths (`None` where a path is
/// not readable), is the initramfs: the last whose path contains
/// `initramfs.img`.
pub fn initramfs_module(paths: &Vec<Option<String>>) -> (r: Option<usize>)
    ensures
        match r {
            Some(i) => i < paths@.len() && names_initramfs(paths@[i as int])
                && forall|j: int| i < j < paths@.len() ==> !names_initramfs(#[trigger] paths@[j]),
            None => forall|j: int| 0 <= j < paths@.len() ==> !names_initramfs(#[trigger] paths@[j]),
        },
{
    let name = vec!['i', 'n', 'i', 't', 'r', 'a', 'm', 'f', 's', '.', 'i', 'm', 'g'];
    proof {
        assert(name@ =~= initramfs_name());
    }
    let mut found: Option<usize> = None;
    let mut i: usize = 0;
    while i < paths.len()
        invariant
            0 <= i <= paths@.len(),
            name@ == initramfs_name(),
            match found {
                Some(k) => k < i && names_initramfs(paths@[k as int])
                    && forall|j: int| k < j < i ==> !names_initramfs(#[trigger] paths@[j]),
                None => forall|j: int| 0 <= j < i ==> !names_initramfs(#[trigger] paths@[j]),
            },
        decreases paths@.len() - i,
    {
        match &paths[i] {
            Some(p) => {
                if str_contains(p.as_str(), &name) {
                    found = Some(i);
                }
            },
            None => {},
        }
        i = i + 1;
    }
    found
}

} // verus!
