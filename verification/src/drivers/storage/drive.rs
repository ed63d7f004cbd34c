//! The GPT header block as the IDE driver reads it, and the partition
//! entries it keeps.
use vstd::prelude::*;
use crate::bytes::{le32, le64, read_u32_le, read_u64_le, copy_range};

verus! {

/// A GPT partition the IDE driver found: its type and its sectors.
#[derive(Debug)]
pub struct GPTPartitionEntry {
    pub partition_type_guid: Vec<u8>,
    pub start_sector: u64,
    pub end_sector: u64,
}

/// The GPT header block, the whole 512-byte sector.
pub struct GPTBlock {
    pub header: Vec<u8>,
    pub revision: u32,
    pub header_size: u32,
    pub header_checksum: u32,
    pub reserved: Vec<u8>,
    pub header_lba: u64,
    pub header_lba_alt: u64,
    pub first_usable_block: u64,
    pub last_usable_block: u64,
    pub guid: Vec<u8>,
    pub guid_lba: u64,
    pub partition_entry_count: u32,
    pub partition_entry_size: u32,
    pub partition_table_crc: u32,
    pub reserved2: Vec<u8>,
}

impl GPTBlock {
    /// Reads the header block from its sector.
    pub fn new(data: &[u8]) -> (r: GPTBlock)
        requires
            data@.len() == 512,
        ensures
            r.header@ == data@.subrange(0, 8),
            r.revision == le32(data@, 0x08),
            r.header_size == le32(data@, 0x0C),
            r.header_checksum == le32(data@, 0x10),
            r.reserved@ == data@.subrange(0x14, 0x18),
            r.header_lba == le64(data@, 0x18),
            r.header_lba_alt == le64(data@, 0x20),
            r.first_usable_block == le64(data@, 0x28),
            r.last_usable_block == le64(data@, 0x30),
            r.guid@ == data@.subrange(0x38, 0x48),
            r.guid_lba == le64(data@, 0x48),
            r.partition_entry_count == le32(data@, 0x50),
            r.partition_entry_size == le32(data@, 0x54),
            r.partition_table_crc == le32(data@, 0x58),
            r.reserved2@ == data@.subrange(0x5C, 512),
    {
        GPTBlock {
            header: copy_range(data, 0, 8),
            revision: read_u32_le(data, 0x08),
            header_size: read_u32_le(data, 0x0C),
            header_checksum: read_u32_le(data, 0x10),
            reserved: copy_range(data, 0x14, 0x18),
            header_lba: read_u64_le(data, 0x18),
            header_lba_alt: read_u64_le(data, 0x20),
            first_usable_block: read_u64_le(data, 0x28),
            last_usable_block: read_u64_le(data, 0x30),
            guid: copy_range(data, 0x38, 0x48),
            guid_lba: read_u64_le(data, 0x48),
            partition_entry_count: read_u32_le(data, 0x50),
            partition_entry_size: read_u32_le(data, 0x54),
            partition_table_crc: read_u32_le(data, 0x58),
            reserved2: copy_range(data, 0x5C, 512),
        }
    }
}

} // verus!
