//! FAT32 file systems: the boot sector's parameters, the layout they give,
//! the cluster chain, and the search of a directory's entries.
use vstd::prelude::*;
use vstd::string::*;
use crate::bytes::{le16, le32, read_u16_le, read_u32_le, copy_range};
use crate::usr::text::{str_from_utf8, utf8_decoded, ascii_upper, to_ascii_uppercase, utf16_decoded, string_from_utf16};

verus! {

/// A cluster number from here on ends a chain.
pub const EOC: u32 = 0x0FFFFFF8;

/// The FAT variants, by cluster count.
#[derive(Clone, Copy, Debug, PartialEq, Eq, Structural)]
pub enum FatType {
    Fat12,
    Fat16,
    Fat32,
}

/// The BIOS parameter block and extended block of a FAT32 boot sector.
pub struct BIOSParameterBlock {
    pub jmp_instruction: Vec<u8>,
    pub oem_identifier: Vec<u8>,
    pub bytes_per_sector: u16,
    pub sectors_per_cluster: u8,
    pub reserved_sectors: u16,
    pub fat_count: u8,
    pub root_directory_count: u16,
    pub total_sectors: u16,
    pub media_descriptor_type: u8,
    pub sectors_per_fat: u16,
    pub sectors_per_track: u16,
    pub head_count: u16,
    pub hidden_sectors: u32,
    pub large_sector_count: u32,
    pub sectors_per_fat_ext: u32,
    pub flags: Vec<u8>,
    pub fat_version: u16,
    pub root_dir_cluster: u32,
    pub fsinfo_sector: u16,
    pub backup_bootsector: u16,
    pub reserved: Vec<u8>,
    pub drive_number: u8,
    pub reserved2: u8,
    pub signature: u8,
    pub volume_id: u32,
    pub volume_label: Vec<u8>,
    pub system_identifier_string: Vec<u8>,
    pub boot_code: Vec<u8>,
    pub bootable_signature: u16,
}

impl BIOSParameterBlock {
    /// Reads the parameters from the boot sector `b`, field after field
    /// with no padding.
    pub fn from_bytes(b: &[u8]) -> (r: BIOSParameterBlock)
        requires
            b@.len() >= 512,
        ensures
            r.jmp_instruction@ == b@.subrange(0, 3),
            r.oem_identifier@ == b@.subrange(3, 11),
            r.bytes_per_sector == le16(b@, 11),
            r.sectors_per_cluster == b@[13],
            r.reserved_sectors == le16(b@, 14),
            r.fat_count == b@[16],
            r.root_directory_count == le16(b@, 17),
            r.total_sectors == le16(b@, 19),
            r.media_descriptor_type == b@[21],
            r.sectors_per_fat == le16(b@, 22),
            r.sectors_per_track == le16(b@, 24),
            r.head_count == le16(b@, 26),
            r.hidden_sectors == le32(b@, 28),
            r.large_sector_count == le32(b@, 32),
            r.sectors_per_fat_ext == le32(b@, 36),
            r.flags@ == b@.subrange(40, 42),
            r.fat_version == le16(b@, 42),
            r.root_dir_cluster == le32(b@, 44),
            r.fsinfo_sector == le16(b@, 48),
            r.backup_bootsector == le16(b@, 50),
            r.reserved@ == b@.subrange(52, 64),
            r.drive_number == b@[64],
            r.reserved2 == b@[65],
            r.signature == b@[66],
            r.volume_id == le32(b@, 67),
            r.volume_label@ == b@.subrange(71, 82),
            r.system_identifier_string@ == b@.subrange(82, 90),
            r.boot_code@ == b@.subrange(90, 510),
            r.bootable_signature == le16(b@, 510),
    {
        BIOSParameterBlock {
            jmp_instruction: copy_range(b, 0, 3),
            oem_identifier: copy_range(b, 3, 11),
            bytes_per_sector: read_u16_le(b, 11),
            sectors_per_cluster: b[13],
            reserved_sectors: read_u16_le(b, 14),
            fat_count: b[16],
            root_directory_count: read_u16_le(b, 17),
            total_sectors: read_u16_le(b, 19),
            media_descriptor_type: b[21],
            sectors_per_fat: read_u16_le(b, 22),
            sectors_per_track: read_u16_le(b, 24),
            head_count: read_u16_le(b, 26),
            hidden_sectors: read_u32_le(b, 28),
            large_sector_count: read_u32_le(b, 32),
            sectors_per_fat_ext: read_u32_le(b, 36),
            flags: copy_range(b, 40, 42),
            fat_version: read_u16_le(b, 42),
            root_dir_cluster: read_u32_le(b, 44),
            fsinfo_sector: read_u16_le(b, 48),
            backup_bootsector: read_u16_le(b, 50),
            reserved: copy_range(b, 52, 64),
            drive_number: b[64],
            reserved2: b[65],
            signature: b[66],
            volume_id: read_u32_le(b, 67),
            volume_label: copy_range(b, 71, 82),
            system_identifier_string: copy_range(b, 82, 90),
            boot_code: copy_range(b, 90, 510),
            bootable_signature: read_u16_le(b, 510),
        }
    }
}

/// The FSInfo sector.
pub struct FSInfo {
    pub lead_signature: u32,
    pub reserved: Vec<u8>,
    pub mid_signature: u32,
    pub last_known_free_cluster: u32,
    pub look_for_free_clusters: u32,
    pub reserved2: Vec<u8>,
    pub trail_signature: u32,
}

impl FSInfo {
    /// Reads the FSInfo sector.
    pub fn from_bytes(bytes: &[u8]) -> (r: FSInfo)
        requires
            bytes@.len() == 512,
        ensures
            r.lead_signature == le32(bytes@, 0),
            r.reserved@ == bytes@.subrange(4, 484),
            r.mid_signature == le32(bytes@, 484),
            r.last_known_free_cluster == le32(bytes@, 488),
            r.look_for_free_clusters == le32(bytes@, 492),
            r.reserved2@ == bytes@.subrange(496, 508),
            r.trail_signature == le32(bytes@, 508),
    {
        FSInfo {
            lead_signature: read_u32_le(bytes, 0),
            reserved: copy_range(bytes, 4, 484),
            mid_signature: read_u32_le(bytes, 484),
            last_known_free_cluster: read_u32_le(bytes, 488),
            look_for_free_clusters: read_u32_le(bytes, 492),
            reserved2: copy_range(bytes, 496, 508),
            trail_signature: read_u32_le(bytes, 508),
        }
    }
}

/// Whether `needle` occurs in `hay`.
pub open spec fn contains_seq(hay: Seq<char>, needle: Seq<char>) -> bool {
    exists|i: int| 0 <= i && i + needle.len() <= hay.len() && #[trigger] hay.subrange(i, i + needle.len()) == needle
}

/// Whether the characters `needle` occur in `hay`.
pub fn str_contains(hay: &str, needle: &Vec<char>) -> (r: bool)
    ensures
        r == contains_seq(hay@, needle@),
{
    let n = hay.unicode_len();
    let m = needle.len();
    if m > n {
        proof {
            assert forall|i: int| 0 <= i && i + m <= n implies #[trigger] hay@.subrange(i, i + m) != needle@ by {}
        }
        return false;
    }
    let mut i: usize = 0;
    while i <= n - m
        invariant
            n == hay@.len(),
            m == needle@.len(),
            m <= n,
            i <= n - m + 1,
            forall|k: int| 0 <= k < i ==> #[trigger] hay@.subrange(k, k + m) != needle@,
        decreases n - m + 1 - i,
    {
        let mut j: usize = 0;
        let mut same = true;
        while j < m
            invariant
                n == hay@.len(),
                m == needle@.len(),
                i + m <= n,
                0 <= j <= m,
                same == (forall|q: int| 0 <= q < j ==> hay@[i + q] == needle@[q]),
            decreases m - j,
        {
            if hay.get_char(i + j) != needle[j] {
                same = false;
            }
            j = j + 1;
        }
        if same {
            proof {
                assert(hay@.subrange(i as int, i + m) =~= needle@);
            }
            return true;
        }
        proof {
            assert(exists|q: int| 0 <= q < m && hay@[i + q] != needle@[q]);
            let q = choose|q: int| 0 <= q < m && hay@[i + q] != needle@[q];
            assert(hay@.subrange(i as int, i + m)[q] != needle@[q]);
        }
        i = i + 1;
    }
    false
}

/// The word "FAT32".
pub open spec fn fat32_word() -> Seq<char> {
    seq!['F', 'A', 'T', '3', '2']
}

/// Whether a system identifier says FAT32: valid UTF-8 holding "FAT32".
pub open spec fn says_fat32(id: Seq<u8>) -> bool {
    match utf8_decoded(id) {
        Some(t) => contains_seq(t, fat32_word()),
        None => false,
    }
}

/// The variant a count of clusters makes: FAT12 below 4085, FAT16 below
/// 65525, FAT32 from there.
pub open spec fn fat_type_of(total_clusters: u32) -> FatType {
    if total_clusters < 4085 {
        FatType::Fat12
    } else if total_clusters < 65525 {
        FatType::Fat16
    } else {
        FatType::Fat32
    }
}

/// The sectors the root directory takes on FAT12 and FAT16.
pub open spec fn root_dir_sectors(f: BpbFields) -> int {
    (f.4 * 32 + (f.0 - 1)) / (f.0 as int)
}

/// The sectors and sectors per FAT the volume counts: the 16-bit fields,
/// unless the sector count is zero, then the 32-bit ones.
pub open spec fn volume_size(f: BpbFields) -> (u32, u32) {
    if f.5 == 0 {
        (f.7, f.8)
    } else {
        (f.5 as u32, f.6 as u32)
    }
}

/// The sectors of the data region.
pub open spec fn data_sectors(f: BpbFields) -> int {
    let (total, fat_size) = volume_size(f);
    total - (f.2 + f.3 * fat_size + root_dir_sectors(f))
}

/// Whether the layout computations of a volume neither overflow nor divide
/// by zero.
pub open spec fn layout_computable(f: BpbFields) -> bool {
    let (total, fat_size) = volume_size(f);
    &&& f.0 >= 1
    &&& f.4 * 32 + (f.0 - 1) <= u16::MAX
    &&& f.3 * fat_size <= u32::MAX
    &&& f.2 + f.3 * fat_size + root_dir_sectors(f) <= total
    &&& f.1 >= 1
}

/// A mounted FAT volume: the partition it starts at, its parameters, its
/// FAT when it is kept in memory, and the layout computed from them.
pub struct FatFs {
    pub partition_start: u64,
    pub fs_info: FSInfo,
    pub fat: Option<Vec<u32>>,
    pub bpb: BIOSParameterBlock,
    pub fat_start: u64,
    pub fat_type: FatType,
    pub cluster_size: usize,
    pub sectors_per_fat: usize,
}

impl FatFs {
    /// Whether the boot sector's system identifier says FAT32.
    pub fn is_fat32(bpb: &BIOSParameterBlock) -> (r: bool)
        ensures
            r == says_fat32(bpb.system_identifier_string@),
    {
        match str_from_utf8(bpb.system_identifier_string.as_slice()) {
            None => false,
            Some(id) => {
                let word = vec!['F', 'A', 'T', '3', '2'];
                proof {
                    assert(word@ =~= fat32_word());
                }
                str_contains(id, &word)
            },
        }
    }

    /// Mounts the volume on the partition starting at `partition_start`,
    /// with boot sector `bpb_bytes`, FSInfo sector `fsinfo_bytes` and, when
    /// it is kept in memory, the FAT `fat`: refused unless the boot sector
    /// says FAT32.
    pub fn new(partition_start: u64, bpb_bytes: &[u8], fsinfo_bytes: &[u8], fat: Option<Vec<u32>>) -> (r: Result<FatFs, ()>)
        requires
            bpb_bytes@.len() >= 512,
            fsinfo_bytes@.len() == 512,
            says_fat32(bpb_bytes@.subrange(82, 90)) ==> {
                let bpb = bpb_of(bpb_bytes@);
                &&& layout_computable(bpb)
                &&& partition_start + le16(bpb_bytes@, 14) <= u64::MAX
            },
        ensures
            r is Ok <==> says_fat32(bpb_bytes@.subrange(82, 90)),
            r matches Ok(f) ==> {
                let clusters = (data_sectors(bpb_of(bpb_bytes@)) / (bpb_bytes@[13] as int)) as u32;
                &&& f.bpb.system_identifier_string@ == bpb_bytes@.subrange(82, 90)
                &&& f.bpb.sectors_per_cluster == bpb_bytes@[13]
                &&& f.bpb.reserved_sectors == le16(bpb_bytes@, 14)
                &&& f.partition_start == partition_start
                &&& f.fat == fat
                &&& f.fs_info.last_known_free_cluster == le32(fsinfo_bytes@, 488)
                &&& f.fat_start == partition_start + f.bpb.reserved_sectors
                &&& f.fat_type == fat_type_of(clusters)
                &&& f.sectors_per_fat == (if f.fat_type == FatType::Fat32 { f.bpb.sectors_per_fat_ext as usize } else { f.bpb.sectors_per_fat as usize })
                &&& f.cluster_size == f.bpb.sectors_per_cluster * 512
                &&& bpb_of(bpb_bytes@) == bpb_fields(f.bpb)
            },
    {
        let bpb = BIOSParameterBlock::from_bytes(bpb_bytes);
        proof {
            assert(bpb_fields(bpb) == bpb_of(bpb_bytes@));
        }
        if !Self::is_fat32(&bpb) {
            return Err(());
        }
        let fs_info = FSInfo::from_bytes(fsinfo_bytes);
        let fat_start = partition_start + bpb.reserved_sectors as u64;
        let (total_sectors, fat_size) = if bpb.total_sectors == 0 {
            (bpb.large_sector_count, bpb.sectors_per_fat_ext)
        } else {
            (bpb.total_sectors as u32, bpb.sectors_per_fat as u32)
        };
        let root_dir_sectors = ((bpb.root_directory_count * 32) + (bpb.bytes_per_sector - 1)) / bpb.bytes_per_sector;
        let total_data_sectors = total_sectors - (bpb.reserved_sectors as u32 + (bpb.fat_count as u32 * fat_size) + root_dir_sectors as u32);
        let total_clusters = total_data_sectors / bpb.sectors_per_cluster as u32;
        let fat_type = if total_clusters < 4085 {
            FatType::Fat12
        } else if total_clusters < 65525 {
            FatType::Fat16
        } else {
            FatType::Fat32
        };
        let sectors_per_fat = match fat_type {
            FatType::Fat32 => bpb.sectors_per_fat_ext as usize,
            _ => bpb.sectors_per_fat as usize,
        };
        let cluster_size = bpb.sectors_per_cluster as usize * 512;
        Ok(FatFs { partition_start, fs_info, fat, bpb, fat_start, fat_type, cluster_size, sectors_per_fat })
    }
}

/// The parameters' numeric fields.
pub type BpbFields = (u16, u8, u16, u8, u16, u16, u16, u32, u32, u32, u16);

/// The numeric fields of a parameter block: bytes per sector, sectors per
/// cluster, reserved sectors, FAT count, root entries, sectors, sectors per
/// FAT, large sector count, sectors per FAT (32-bit), root cluster, FSInfo
/// sector.
pub open spec fn bpb_fields(b: BIOSParameterBlock) -> BpbFields {
    (b.bytes_per_sector, b.sectors_per_cluster, b.reserved_sectors, b.fat_count, b.root_directory_count,
        b.total_sectors, b.sectors_per_fat, b.large_sector_count, b.sectors_per_fat_ext, b.root_dir_cluster, b.fsinfo_sector)
}

/// The numeric fields the boot sector `b` holds.
pub open spec fn bpb_of(b: Seq<u8>) -> BpbFields {
    (le16(b, 11), b[13], le16(b, 14), b[16], le16(b, 17), le16(b, 19), le16(b, 22), le32(b, 32), le32(b, 36), le32(b, 44), le16(b, 48))
}


/// The sector the data region starts at, from the volume's start.
pub open spec fn first_data_sector(f: BpbFields, fat_size: int) -> int {
    f.2 + f.3 * fat_size + root_dir_sectors(f)
}

/// The sector cluster `cluster` starts at, from the volume's start:
/// clusters are numbered from 2 at the start of the data region.
pub open spec fn cluster_sector(f: BpbFields, fat_size: int, cluster: int) -> int {
    (cluster - 2) * f.1 + first_data_sector(f, fat_size)
}

impl FatFs {
    /// Whether the layout of the volume can be computed.
    pub open spec fn wf(&self) -> bool {
        let f = bpb_fields(self.bpb);
        &&& f.0 >= 1
        &&& f.4 * 32 + (f.0 - 1) <= u16::MAX
        &&& first_data_sector(f, self.sectors_per_fat as int) <= usize::MAX
    }

    /// The sector cluster `cluster` starts at, from the volume's start.
    pub fn cluster_to_sector(&self, cluster: usize) -> (r: usize)
        requires
            self.wf(),
            cluster >= 2,
            cluster - 2 <= isize::MAX,
            (cluster - 2) * self.bpb.sectors_per_cluster <= isize::MAX,
            cluster_sector(bpb_fields(self.bpb), self.sectors_per_fat as int, cluster as int) <= usize::MAX,
        ensures
            r == cluster_sector(bpb_fields(self.bpb), self.sectors_per_fat as int, cluster as int),
    {
        let fat_size = self.sectors_per_fat;
        let rds = ((self.bpb.root_directory_count * 32) + (self.bpb.bytes_per_sector - 1)) / self.bpb.bytes_per_sector;
        proof {
            let f = bpb_fields(self.bpb);
            assert(self.bpb.fat_count as usize * fat_size <= first_data_sector(f, fat_size as int)) by (nonlinear_arith)
                requires
                    first_data_sector(f, fat_size as int) == f.2 + f.3 * fat_size + root_dir_sectors(f),
                    f.3 == self.bpb.fat_count,
                    root_dir_sectors(f) >= 0,
                    f.2 >= 0;
        }
        let first_data_sector = self.bpb.reserved_sectors as usize
            + (self.bpb.fat_count as usize * fat_size)
            + rds as usize;
        let spc = self.bpb.sectors_per_cluster as isize;
        let c = (cluster - 2) as isize;
        proof {
            assert(c * spc <= isize::MAX && c * spc >= 0) by (nonlinear_arith)
                requires c == cluster - 2, spc == self.bpb.sectors_per_cluster, (cluster - 2) * self.bpb.sectors_per_cluster <= isize::MAX, c >= 0, spc >= 0;
        }
        (c * spc) as usize + first_data_sector
    }

    /// Where cluster `cluster` is read from: its first sector on the disk,
    /// and its length in sectors.
    pub fn read_cluster(&self, cluster: usize) -> (r: (u64, usize))
        requires
            self.wf(),
            cluster >= 2,
            cluster - 2 <= isize::MAX,
            (cluster - 2) * self.bpb.sectors_per_cluster <= isize::MAX,
            cluster_sector(bpb_fields(self.bpb), self.sectors_per_fat as int, cluster as int) <= usize::MAX,
            self.partition_start + cluster_sector(bpb_fields(self.bpb), self.sectors_per_fat as int, cluster as int) <= u64::MAX,
        ensures
            r == ((self.partition_start + cluster_sector(bpb_fields(self.bpb), self.sectors_per_fat as int, cluster as int)) as u64,
                self.bpb.sectors_per_cluster as usize),
    {
        let s = self.cluster_to_sector(cluster);
        (self.partition_start + s as u64, self.bpb.sectors_per_cluster as usize)
    }

    /// Where cluster `cluster` is read from, as `read_cluster` gives it,
    /// where that can be computed: `None` unless the layout is computable
    /// and the cluster's sector is a number `read_cluster` can reach.
    pub fn read_cluster_checked(&self, cluster: usize) -> (r: Option<(u64, usize)>)
        ensures
            r is Some <==> ({
                &&& self.wf()
                &&& cluster >= 2
                &&& cluster - 2 <= isize::MAX
                &&& (cluster - 2) * self.bpb.sectors_per_cluster <= isize::MAX
                &&& cluster_sector(bpb_fields(self.bpb), self.sectors_per_fat as int, cluster as int) <= usize::MAX
                &&& self.partition_start + cluster_sector(bpb_fields(self.bpb), self.sectors_per_fat as int, cluster as int) <= u64::MAX
            }),
            r matches Some(x) ==> x == ((self.partition_start + cluster_sector(bpb_fields(self.bpb), self.sectors_per_fat as int, cluster as int)) as u64,
                self.bpb.sectors_per_cluster as usize),
    {
        let ghost f = bpb_fields(self.bpb);
        let bps = self.bpb.bytes_per_sector as u128;
        let rdc = self.bpb.root_directory_count as u128;
        if bps == 0 || rdc * 32 + (bps - 1) > 0xFFFF {
            return None;
        }
        let rds = (rdc * 32 + (bps - 1)) / bps;
        let fat_count = self.bpb.fat_count as u128;
        let spf = self.sectors_per_fat as u128;
        proof {
            assert(fat_count * spf <= 255 * 0xFFFF_FFFF_FFFF_FFFFu128) by (nonlinear_arith)
                requires fat_count <= 255, spf <= 0xFFFF_FFFF_FFFF_FFFFu128;
            assert(rds <= 0xFFFF) by (nonlinear_arith)
                requires rds as int == (rdc * 32 + (bps - 1)) as int / (bps as int), bps >= 1, rdc * 32 + (bps - 1) <= 0xFFFF;
        }
        let first_data = self.bpb.reserved_sectors as u128 + fat_count * spf + rds;
        proof {
            assert(first_data == first_data_sector(f, self.sectors_per_fat as int));
        }
        if first_data > usize::MAX as u128 || cluster < 2 {
            return None;
        }
        let spc = self.bpb.sectors_per_cluster as u128;
        let c = (cluster - 2) as u128;
        proof {
            assert(c * spc <= 0xFFFF_FFFF_FFFF_FFFFu128 * 255) by (nonlinear_arith)
                requires c <= 0xFFFF_FFFF_FFFF_FFFFu128, spc <= 255;
        }
        let offset = c * spc;
        let sector = offset + first_data;
        proof {
            assert(sector == cluster_sector(f, self.sectors_per_fat as int, cluster as int));
        }
        if c > isize::MAX as u128 || offset > isize::MAX as u128 || sector > usize::MAX as u128
            || self.partition_start as u128 + sector > u64::MAX as u128 {
            return None;
        }
        Some(self.read_cluster(cluster))
    }

    /// The cluster after `cluster` in its chain, from the FAT kept in
    /// memory: the low 28 bits of its entry.
    pub fn get_next_cluster(&self, cluster: usize) -> (r: u32)
        requires
            self.fat_type == FatType::Fat32,
            self.fat matches Some(t) && cluster < t@.len(),
        ensures
            r == self.fat.unwrap()@[cluster as int] & 0x0FFFFFFF,
    {
        match &self.fat {
            Some(t) => t[cluster] & 0x0FFFFFFF,
            None => 0,
        }
    }

    /// Where the FAT entry of `cluster` is on the disk, when the FAT is not
    /// kept in memory: the sector, and the offset in it.
    pub fn fat_entry_location(&self, cluster: usize) -> (r: (u64, usize))
        requires
            self.fat_type == FatType::Fat32,
            cluster * 4 <= usize::MAX,
            self.fat_start + cluster * 4 / 512 <= u64::MAX,
        ensures
            r == ((self.fat_start + cluster * 4 / 512) as u64, ((cluster * 4) % 512) as usize),
    {
        let entry_offset = cluster * 4;
        (self.fat_start + (entry_offset as u64) / 512, entry_offset % 512)
    }
}

/// The cluster after the one whose FAT entry is at `offset` of the FAT
/// sector `sector`: the low 28 bits of the entry.
pub fn next_cluster_in_sector(sector: &[u8], offset: usize) -> (r: u32)
    requires
        offset + 4 <= sector@.len(),
    ensures
        r == le32(sector@, offset as int) & 0x0FFFFFFF,
{
    read_u32_le(sector, offset) & 0x0FFFFFFF
}

/// The FAT kept in memory: the little-endian entries of its sectors, in
/// order.
pub fn fat_from_sectors(sectors: &[u8]) -> (r: Vec<u32>)
    requires
        sectors@.len() % 4 == 0,
    ensures
        r@.len() == sectors@.len() / 4,
        forall|i: int| 0 <= i < r@.len() ==> #[trigger] r@[i] == le32(sectors@, 4 * i),
{
    let len = sectors.len();
    let n = len / 4;
    let mut r: Vec<u32> = Vec::new();
    let mut j: usize = 0;
    while j < n
        invariant
            len == sectors@.len(),
            n == sectors@.len() / 4,
            0 <= j <= n,
            r@.len() == j,
            forall|i: int| 0 <= i < j ==> #[trigger] r@[i] == le32(sectors@, 4 * i),
        decreases n - j,
    {
        proof {
            assert(j * 4 + 4 <= len) by (nonlinear_arith)
                requires j < n, n == len / 4;
        }
        r.push(read_u32_le(sectors, j * 4));
        j = j + 1;
    }
    r
}

/// A 32-byte directory entry of a file or directory.
pub struct FileEntry {
    pub file_name: Vec<u8>,
    pub extension: Vec<u8>,
    pub attributes: u8,
    pub reserved: u8,
    pub creation_tenths: u8,
    pub creation_time: u16,
    pub creation_date: u16,
    pub accessed_date: u16,
    pub high_first_cluster_number: u16,
    pub modified_time: u16,
    pub modified_date: u16,
    pub low_first_cluster_number: u16,
    pub file_size: u32,
}

/// Whether `f` is the entry the 32 bytes `e` hold.
pub open spec fn entry_of(f: FileEntry, e: Seq<u8>) -> bool {
    &&& f.file_name@ == e.subrange(0, 8)
    &&& f.extension@ == e.subrange(8, 11)
    &&& f.attributes == e[11]
    &&& f.reserved == e[12]
    &&& f.creation_tenths == e[13]
    &&& f.creation_time == le16(e, 14)
    &&& f.creation_date == le16(e, 16)
    &&& f.accessed_date == le16(e, 18)
    &&& f.high_first_cluster_number == le16(e, 20)
    &&& f.modified_time == le16(e, 22)
    &&& f.modified_date == le16(e, 24)
    &&& f.low_first_cluster_number == le16(e, 26)
    &&& f.file_size == le32(e, 28)
}

impl FileEntry {
    /// Reads the entry in the 32 bytes `e`.
    pub fn from_bytes(e: &[u8]) -> (r: FileEntry)
        requires
            e@.len() == 32,
        ensures
            entry_of(r, e@),
    {
        FileEntry {
            file_name: copy_range(e, 0, 8),
            extension: copy_range(e, 8, 11),
            attributes: e[11],
            reserved: e[12],
            creation_tenths: e[13],
            creation_time: read_u16_le(e, 14),
            creation_date: read_u16_le(e, 16),
            accessed_date: read_u16_le(e, 18),
            high_first_cluster_number: read_u16_le(e, 20),
            modified_time: read_u16_le(e, 22),
            modified_date: read_u16_le(e, 24),
            low_first_cluster_number: read_u16_le(e, 26),
            file_size: read_u32_le(e, 28),
        }
    }

    /// The entry's first cluster: the high and low halves joined.
    pub fn first_cluster(&self) -> (r: u32)
        ensures
            r == (self.high_first_cluster_number as u32) << 16u32 | self.low_first_cluster_number as u32,
    {
        ((self.high_first_cluster_number as u32) << 16) | self.low_first_cluster_number as u32
    }

    /// Whether the entry is a directory: its attributes are exactly the
    /// directory bit.
    pub fn is_directory(&self) -> (r: bool)
        ensures
            r == (self.attributes == 0x10),
    {
        self.attributes == 0x10
    }
}

/// The thirteen UTF-16 units a long-name entry holds: five from byte 1,
/// six from byte 14, two from byte 28.
pub open spec fn lfn_units(e: Seq<u8>) -> Seq<u16> {
    seq![le16(e, 1), le16(e, 3), le16(e, 5), le16(e, 7), le16(e, 9),
        le16(e, 14), le16(e, 16), le16(e, 18), le16(e, 20), le16(e, 22), le16(e, 24),
        le16(e, 28), le16(e, 30)]
}

/// Where name unit `k` of a long-name entry starts: units 0 to 4 from byte
/// 1, units 5 to 10 from byte 14, units 11 and 12 from byte 28, two bytes
/// each.
pub open spec fn lfn_unit_offset(k: int) -> int {
    if k < 5 { 1 + 2 * k } else if k < 11 { 14 + 2 * (k - 5) } else { 28 + 2 * (k - 11) }
}

/// The bytes of a long-name entry that are not name units: its order (byte
/// 0), attributes (11), type (12), checksum (13) and zero cluster (26, 27).
pub open spec fn lfn_fixed_byte(b: int) -> bool {
    b == 0 || 11 <= b <= 13 || b == 26 || b == 27
}

/// Law: a long-name entry holds its thirteen name units, little-endian, at
/// the layout's offsets, and those units fill exactly the entry's bytes that
/// are not its order, attributes, type, checksum or cluster: every other
/// byte of the 32 belongs to one unit, and no two units share a byte.
pub proof fn law_lfn_units_fill_the_name_bytes(e: Seq<u8>)
    requires
        e.len() == 32,
    ensures
        lfn_units(e).len() == 13,
        forall|k: int| 0 <= k < 13 ==> #[trigger] lfn_units(e)[k] as int
            == e[lfn_unit_offset(k)] as int + 256 * e[lfn_unit_offset(k) + 1] as int,
        forall|b: int| 0 <= b < 32 ==> (!lfn_fixed_byte(b) <==> exists|k: int| 0 <= k < 13
            && (b == #[trigger] lfn_unit_offset(k) || b == lfn_unit_offset(k) + 1)),
        forall|k: int, j: int| 0 <= k < j < 13 ==> #[trigger] lfn_unit_offset(k) + 2 <= #[trigger] lfn_unit_offset(j),
{
    reveal_with_fuel(crate::bytes::le_value, 3);
    assert forall|k: int| 0 <= k < 13 implies #[trigger] lfn_units(e)[k] as int
        == e[lfn_unit_offset(k)] as int + 256 * e[lfn_unit_offset(k) + 1] as int by {
        let o = lfn_unit_offset(k);
        let sub = e.subrange(o, o + 2);
        assert(sub.drop_first().drop_first().len() == 0);
        assert(crate::bytes::le_value(sub) == sub[0] as nat + 256 * (sub[1] as nat));
        assert(lfn_units(e)[k] == le16(e, o)) by {
            if k == 0 {} else if k == 1 {} else if k == 2 {} else if k == 3 {} else if k == 4 {} else if k == 5 {}
            else if k == 6 {} else if k == 7 {} else if k == 8 {} else if k == 9 {} else if k == 10 {} else if k == 11 {}
            else {}
        }
    }
    assert forall|b: int| 0 <= b < 32 implies (!lfn_fixed_byte(b) <==> exists|k: int| 0 <= k < 13
        && (b == #[trigger] lfn_unit_offset(k) || b == lfn_unit_offset(k) + 1)) by {
        if !lfn_fixed_byte(b) {
            let k = if b <= 10 { (b - 1) / 2 } else if b <= 25 { 5 + (b - 14) / 2 } else { 11 + (b - 28) / 2 };
            assert(b == lfn_unit_offset(k) || b == lfn_unit_offset(k) + 1);
        }
    }
}

/// The units of `u` that are neither padding (0xFFFF) nor the terminator
/// (0), in order.
pub open spec fn kept_units(u: Seq<u16>) -> Seq<u16>
    decreases u.len(),
{
    if u.len() == 0 {
        Seq::empty()
    } else {
        kept_units(u.drop_last()) + if u.last() != 0xFFFF && u.last() != 0 { seq![u.last()] } else { Seq::empty() }
    }
}

/// The units of the long name the entries `lfns` spell: they are stored
/// last part first, so the entries are read from the last.
pub open spec fn lfn_name_units(lfns: Seq<Seq<u8>>) -> Seq<u16>
    decreases lfns.len(),
{
    if lfns.len() == 0 {
        Seq::empty()
    } else {
        kept_units(lfn_units(lfns.last())) + lfn_name_units(lfns.drop_last())
    }
}

/// The pieces of `s` between the characters `sep`, as `str::split` cuts them.
pub open spec fn split_on(s: Seq<char>, sep: char) -> Seq<Seq<char>>
    decreases s.len(),
{
    if s.len() == 0 {
        seq![Seq::<char>::empty()]
    } else {
        let r = split_on(s.drop_last(), sep);
        if s.last() == sep {
            r.push(Seq::<char>::empty())
        } else {
            r.update(r.len() - 1, r.last().push(s.last()))
        }
    }
}

/// `s` in ASCII upper case.
pub open spec fn upper(s: Seq<char>) -> Seq<char> {
    s.map_values(|c: char| ascii_upper(c))
}

/// Whether `name` is matched against the short 8.3 name: whether, less one
/// dot, it takes at most 11 bytes.
pub open spec fn short_form(name: &str) -> bool {
    name.len() - (if name@.contains('.') { 1int } else { 0int }) <= 11
}

/// Whether the entry `e`'s short name matches `name`: the name's part
/// before the first dot, in upper case, occurs in the file name, and the
/// part after it, if any, in the extension. `None` when the entry's name is
/// not valid UTF-8, which the kernel does not survive.
pub open spec fn short_name_matches(e: Seq<u8>, name: Seq<char>) -> Option<bool> {
    let parts = split_on(name, '.');
    match (utf8_decoded(e.subrange(0, 8)), utf8_decoded(e.subrange(8, 11))) {
        (Some(filename), Some(extension)) => Some(!(
            (parts.len() == 1 && !contains_seq(filename, upper(parts[0])))
            || (parts.len() > 1 && (!contains_seq(filename, upper(parts[0])) || !contains_seq(extension, upper(parts[1]))))
        )),
        _ => None,
    }
}

/// The search of a directory's entries `data` for `name`, from entry `k`,
/// with the long-name entries `lfns` pending and `lfn_name` the last long
/// name read. An entry starting with 0 ends the directory; one starting
/// with 0xE5 is free; one with attributes 0x0F is part of a long name; any
/// other is a file, which turns the pending long-name parts into the long
/// name and is matched: by its short name when `name` is short enough, else
/// by the long name. `None` where the kernel would not survive: the entries
/// run out, or a name does not decode.
pub open spec fn fat_scan(data: Seq<u8>, name: &str, k: int, lfns: Seq<Seq<u8>>, lfn_name: Option<Seq<char>>) -> Option<Result<Seq<u8>, ()>>
    decreases data.len() - 32 * k,
{
    if k < 0 || 32 * k + 32 > data.len() {
        None
    } else {
        let e = data.subrange(32 * k, 32 * k + 32);
        if e[0] == 0 {
            Some(Err(()))
        } else if e[0] == 0xE5 {
            fat_scan(data, name, k + 1, lfns, lfn_name)
        } else if e[11] == 0x0F {
            fat_scan(data, name, k + 1, lfns.push(e), lfn_name)
        } else {
            let decoded = if lfns.len() > 0 { utf16_decoded(lfn_name_units(lfns)) } else { Some(Seq::empty()) };
            match decoded {
                None => None,
                Some(t) => {
                    let lfn2 = if lfns.len() > 0 { Some(t) } else { lfn_name };
                    let lfns2 = if lfns.len() > 0 { Seq::empty() } else { lfns };
                    if short_form(name) {
                        match short_name_matches(e, name@) {
                            None => None,
                            Some(true) => Some(Ok(e)),
                            Some(false) => fat_scan(data, name, k + 1, lfns2, lfn2),
                        }
                    } else if lfn2 == Some(name@) {
                        Some(Ok(e))
                    } else {
                        fat_scan(data, name, k + 1, lfns2, lfn2)
                    }
                },
            }
        }
    }
}


pub proof fn lemma_split_on_nonempty(s: Seq<char>, sep: char)
    ensures
        split_on(s, sep).len() >= 1,
    decreases s.len(),
{
    if s.len() > 0 {
        lemma_split_on_nonempty(s.drop_last(), sep);
    }
}

/// The characters of each piece.
pub open spec fn char_views(v: Seq<Vec<char>>) -> Seq<Seq<char>> {
    v.map_values(|x: Vec<char>| x@)
}

/// The pieces of `s` between the characters `sep`.
pub fn split_chars(s: &str, sep: char) -> (r: Vec<Vec<char>>)
    ensures
        char_views(r@) == split_on(s@, sep),
{
    let n = s.unicode_len();
    let mut done: Vec<Vec<char>> = Vec::new();
    let mut cur: Vec<char> = Vec::new();
    let mut i: usize = 0;
    proof {
        assert(s@.subrange(0, 0) =~= Seq::<char>::empty());
        assert(char_views(done@) =~= Seq::<Seq<char>>::empty());
    }
    while i < n
        invariant
            n == s@.len(),
            0 <= i <= n,
            char_views(done@) == split_on(s@.subrange(0, i as int), sep).drop_last(),
            cur@ == split_on(s@.subrange(0, i as int), sep).last(),
        decreases n - i,
    {
        let c = s.get_char(i);
        let ghost prev = s@.subrange(0, i as int);
        let ghost next = s@.subrange(0, i + 1);
        proof {
            assert(next.drop_last() =~= prev);
            lemma_split_on_nonempty(prev, sep);
        }
        let ghost before = char_views(done@);
        if c == sep {
            let piece = cur;
            done.push(piece);
            cur = Vec::new();
            proof {
                assert(char_views(done@) =~= before.push(piece@));
                assert(split_on(next, sep).drop_last() =~= split_on(prev, sep));
                assert(split_on(prev, sep).drop_last().push(split_on(prev, sep).last()) =~= split_on(prev, sep));
            }
        } else {
            cur.push(c);
            proof {
                assert(split_on(next, sep).drop_last() =~= split_on(prev, sep).drop_last());
            }
        }
        i = i + 1;
    }
    proof {
        assert(s@.subrange(0, n as int) =~= s@);
        lemma_split_on_nonempty(s@, sep);
    }
    let ghost before = char_views(done@);
    let last = cur;
    done.push(last);
    proof {
        assert(char_views(done@) =~= before.push(last@));
        assert(split_on(s@, sep).drop_last().push(split_on(s@, sep).last()) =~= split_on(s@, sep));
    }
    done
}

/// `v` in ASCII upper case.
pub fn upper_chars(v: &Vec<char>) -> (r: Vec<char>)
    ensures
        r@ == upper(v@),
{
    let mut r: Vec<char> = Vec::new();
    let mut i: usize = 0;
    while i < v.len()
        invariant
            0 <= i <= v@.len(),
            r@ == upper(v@.subrange(0, i as int)),
        decreases v@.len() - i,
    {
        r.push(to_ascii_uppercase(v[i]));
        proof {
            assert(r@ =~= upper(v@.subrange(0, i + 1)));
        }
        i = i + 1;
    }
    proof {
        assert(v@.subrange(0, v@.len() as int) =~= v@);
    }
    r
}

/// Whether `s` holds the character `c`.
pub fn has_char(s: &str, c: char) -> (r: bool)
    ensures
        r == s@.contains(c),
{
    let n = s.unicode_len();
    let mut i: usize = 0;
    while i < n
        invariant
            n == s@.len(),
            0 <= i <= n,
            forall|k: int| 0 <= k < i ==> s@[k] != c,
        decreases n - i,
    {
        if s.get_char(i) == c {
            proof {
                assert(s@[i as int] == c);
            }
            return true;
        }
        i = i + 1;
    }
    false
}

/// Whether the entry `e`'s short name matches `name`, as
/// `short_name_matches` says.
fn short_name_match(e: &[u8], name: &str) -> (r: Option<bool>)
    requires
        e@.len() == 32,
    ensures
        r == short_name_matches(e@, name@),
{
    let parts = split_chars(name, '.');
    let ghost p = split_on(name@, '.');
    proof {
        lemma_split_on_nonempty(name@, '.');
        assert(char_views(parts@)[0] == parts@[0]@);
    }
    let file_name = copy_range(e, 0, 8);
    let extension = copy_range(e, 8, 11);
    let filename = match str_from_utf8(file_name.as_slice()) {
        Some(f) => f,
        None => {
            return None;
        },
    };
    let ext = match str_from_utf8(extension.as_slice()) {
        Some(x) => x,
        None => {
            return None;
        },
    };
    let first = upper_chars(&parts[0]);
    let in_name = str_contains(filename, &first);
    if parts.len() == 1 {
        return Some(in_name);
    }
    proof {
        assert(char_views(parts@)[1] == parts@[1]@);
    }
    let second = upper_chars(&parts[1]);
    let in_ext = str_contains(ext, &second);
    Some(in_name && in_ext)
}

/// The thirteen name units of the long-name entry `e`.
fn lfn_units_of(e: &[u8]) -> (r: Vec<u16>)
    requires
        e@.len() == 32,
    ensures
        r@ == lfn_units(e@),
{
    let offsets: [usize; 13] = [1, 3, 5, 7, 9, 14, 16, 18, 20, 22, 24, 28, 30];
    let mut r: Vec<u16> = Vec::new();
    let mut i: usize = 0;
    while i < 13
        invariant
            0 <= i <= 13,
            e@.len() == 32,
            offsets@ == seq![1usize, 3, 5, 7, 9, 14, 16, 18, 20, 22, 24, 28, 30],
            r@ == lfn_units(e@).subrange(0, i as int),
        decreases 13 - i,
    {
        r.push(read_u16_le(e, offsets[i]));
        proof {
            assert(r@ =~= lfn_units(e@).subrange(0, i + 1));
        }
        i = i + 1;
    }
    proof {
        assert(lfn_units(e@).subrange(0, 13) =~= lfn_units(e@));
    }
    r
}

/// Appends the units of `u` that are neither padding nor the terminator.
fn keep_units(u: &Vec<u16>, out: &mut Vec<u16>)
    ensures
        final(out)@ == old(out)@ + kept_units(u@),
{
    let mut i: usize = 0;
    proof {
        assert(u@.subrange(0, 0) =~= Seq::<u16>::empty());
        assert(old(out)@ + kept_units(Seq::<u16>::empty()) =~= old(out)@);
    }
    while i < u.len()
        invariant
            0 <= i <= u@.len(),
            out@ == old(out)@ + kept_units(u@.subrange(0, i as int)),
        decreases u@.len() - i,
    {
        let x = u[i];
        proof {
            assert(u@.subrange(0, i + 1).drop_last() =~= u@.subrange(0, i as int));
        }
        if x != 0xFFFF && x != 0 {
            out.push(x);
        }
        proof {
            assert(out@ =~= old(out)@ + kept_units(u@.subrange(0, i + 1)));
        }
        i = i + 1;
    }
    proof {
        assert(u@.subrange(0, u@.len() as int) =~= u@);
    }
}

/// The raw bytes of each pending long-name entry.
pub open spec fn byte_views(v: Seq<Vec<u8>>) -> Seq<Seq<u8>> {
    v.map_values(|x: Vec<u8>| x@)
}

/// The units of the long name the entries `lfns` spell.
fn long_name_units(lfns: &Vec<Vec<u8>>) -> (r: Vec<u16>)
    requires
        forall|i: int| 0 <= i < lfns@.len() ==> #[trigger] lfns@[i]@.len() == 32,
    ensures
        r@ == lfn_name_units(byte_views(lfns@)),
{
    let ghost all = byte_views(lfns@);
    let mut r: Vec<u16> = Vec::new();
    let mut j: usize = lfns.len();
    proof {
        assert(all.subrange(0, j as int) =~= all);
        assert(r@ + lfn_name_units(all) =~= lfn_name_units(all));
    }
    while j > 0
        invariant
            0 <= j <= lfns@.len(),
            all == byte_views(lfns@),
            forall|i: int| 0 <= i < lfns@.len() ==> #[trigger] lfns@[i]@.len() == 32,
            r@ + lfn_name_units(all.subrange(0, j as int)) == lfn_name_units(all),
        decreases j,
    {
        let units = lfn_units_of(lfns[j - 1].as_slice());
        let ghost before = r@;
        keep_units(&units, &mut r);
        proof {
            let sub = all.subrange(0, j as int);
            assert(sub.last() == lfns@[j - 1]@);
            assert(sub.drop_last() =~= all.subrange(0, j - 1));
            assert(r@ + lfn_name_units(all.subrange(0, j - 1)) =~= before + lfn_name_units(sub));
        }
        j = j - 1;
    }
    proof {
        assert(all.subrange(0, 0) =~= Seq::<Seq<u8>>::empty());
        assert(r@ + Seq::<u16>::empty() =~= r@);
    }
    r
}

/// The long name read so far, as characters.
pub open spec fn name_view(s: Option<String>) -> Option<Seq<char>> {
    match s {
        Some(t) => Some(t@),
        None => None,
    }
}

impl FatFs {
    /// Searches the directory whose cluster holds the entries `data` for
    /// `name`, as `fat_scan` says.
    pub fn find_entry_in_directory(data: &[u8], name: &str) -> (r: Result<FileEntry, ()>)
        requires
            fat_scan(data@, name, 0, Seq::empty(), None) is Some,
        ensures
            match fat_scan(data@, name, 0, Seq::empty(), None).unwrap() {
                Ok(e) => r matches Ok(f) && entry_of(f, e),
                Err(()) => r is Err,
            },
    {
        match Self::scan_directory(data, name) {
            Some(r) => r,
            None => Err(()),
        }
    }

    /// Searches the directory whose cluster holds the entries `data` for
    /// `name`, unless the kernel would not survive the search: `None` then.
    pub fn find_entry_checked(data: &[u8], name: &str) -> (r: Option<Result<FileEntry, ()>>)
        ensures
            match fat_scan(data@, name, 0, Seq::empty(), None) {
                Some(Ok(e)) => r matches Some(Ok(f)) && entry_of(f, e),
                Some(Err(())) => r matches Some(Err(())),
                None => r is None,
            },
    {
        if Self::scan_directory(data, name).is_some() {
            Some(Self::find_entry_in_directory(data, name))
        } else {
            None
        }
    }

    /// The search of `fat_scan`, giving `None` where it does.
    pub fn scan_directory(data: &[u8], name: &str) -> (r: Option<Result<FileEntry, ()>>)
        ensures
            match fat_scan(data@, name, 0, Seq::empty(), None) {
                Some(Ok(e)) => r matches Some(Ok(f)) && entry_of(f, e),
                Some(Err(())) => r matches Some(Err(())),
                None => r is None,
            },
    {
        let mut i: usize = 0;
        let mut long_filename: Vec<Vec<u8>> = Vec::new();
        let mut long_filename_string: Option<String> = None;
        let short = if has_char(name, '.') { name.len() <= 12 } else { name.len() <= 11 };
        proof {
            assert(byte_views(long_filename@) =~= Seq::<Seq<u8>>::empty());
        }
        let len = data.len();
        loop
            invariant_except_break
                fat_scan(data@, name, 0, Seq::empty(), None)
                    == fat_scan(data@, name, i as int, byte_views(long_filename@), name_view(long_filename_string)),
            invariant
                len == data@.len(),
                forall|k: int| 0 <= k < long_filename@.len() ==> #[trigger] long_filename@[k]@.len() == 32,
                short == short_form(name),
            ensures
                fat_scan(data@, name, 0, Seq::empty(), None) == Some(Err::<Seq<u8>, ()>(())),
            decreases data@.len() - 32 * i,
        {
            if i >= len / 32 {
                return None;
            }
            let start = i * 32;
            let bytes = copy_range(data, start, start + 32);
            let ghost lf = byte_views(long_filename@);
            let first_byte = bytes[0];
            i = i + 1;
            if first_byte == 0x00 {
                break;
            }
            if first_byte == 0xE5 {
                continue;
            }
            if bytes[11] == 0x0F {
                let part = bytes;
                long_filename.push(part);
                proof {
                    assert(byte_views(long_filename@) =~= lf.push(part@));
                }
                continue;
            }
            if long_filename.len() > 0 {
                let units = long_name_units(&long_filename);
                match string_from_utf16(units.as_slice()) {
                    Some(t) => {
                        long_filename_string = Some(t);
                    },
                    None => {
                        return None;
                    },
                }
                long_filename = Vec::new();
                proof {
                    assert(byte_views(long_filename@) =~= Seq::<Seq<u8>>::empty());
                }
            }
            if short {
                match short_name_match(bytes.as_slice(), name) {
                    Some(true) => {
                        return Some(Ok(FileEntry::from_bytes(bytes.as_slice())));
                    },
                    Some(false) => {
                        continue;
                    },
                    None => {
                        return None;
                    },
                }
            } else {
                let matches = match &long_filename_string {
                    Some(s) => str_eq_string(s, name),
                    None => false,
                };
                if matches {
                    return Some(Ok(FileEntry::from_bytes(bytes.as_slice())));
                }
            }
        }
        Some(Err(()))
    }
}

/// Whether the string `s` holds the characters of `name`.
fn str_eq_string(s: &String, name: &str) -> (r: bool)
    ensures
        r == (s@ == name@),
{
    crate::usr::text::str_eq(s.as_str(), name)
}


impl FatFs {
    /// Mounts the volume as `new` does, unless its layout cannot be
    /// computed: `None` then.
    pub fn try_new(partition_start: u64, bpb_bytes: &[u8], fsinfo_bytes: &[u8], fat: Option<Vec<u32>>) -> (r: Option<Result<FatFs, ()>>)
        requires
            bpb_bytes@.len() >= 512,
            fsinfo_bytes@.len() == 512,
        ensures
            r is None <==> (says_fat32(bpb_bytes@.subrange(82, 90)) && !({
                let bpb = bpb_of(bpb_bytes@);
                &&& layout_computable(bpb)
                &&& partition_start + le16(bpb_bytes@, 14) <= u64::MAX
            })),
            r matches Some(x) ==> (x is Ok <==> says_fat32(bpb_bytes@.subrange(82, 90))),
    {
        let bpb = BIOSParameterBlock::from_bytes(bpb_bytes);
        if !Self::is_fat32(&bpb) {
            return Some(Self::new(partition_start, bpb_bytes, fsinfo_bytes, fat));
        }
        let bps = bpb.bytes_per_sector as u64;
        let rdc = bpb.root_directory_count as u64;
        let (total, fat_size) = if bpb.total_sectors == 0 {
            (bpb.large_sector_count as u64, bpb.sectors_per_fat_ext as u64)
        } else {
            (bpb.total_sectors as u64, bpb.sectors_per_fat as u64)
        };
        if bps == 0 || rdc * 32 + (bps - 1) > 0xFFFF || bpb.sectors_per_cluster == 0 {
            return None;
        }
        proof {
            assert(bpb.fat_count as u64 * fat_size <= 255 * 0xFFFF_FFFFu64) by (nonlinear_arith)
                requires bpb.fat_count <= 255, fat_size <= 0xFFFF_FFFFu64;
        }
        let fats = bpb.fat_count as u64 * fat_size;
        if fats > 0xFFFF_FFFF {
            return None;
        }
        let rds = (rdc * 32 + (bps - 1)) / bps;
        if bpb.reserved_sectors as u64 + fats + rds > total {
            return None;
        }
        if partition_start > u64::MAX - bpb.reserved_sectors as u64 {
            return None;
        }
        Some(Self::new(partition_start, bpb_bytes, fsinfo_bytes, fat))
    }

    /// The steps of a path: its leading slashes dropped, then the pieces
    /// between slashes.
    pub fn path_components(path: &str) -> (r: Vec<Vec<char>>)
        ensures
            char_views(r@) == split_on(drop_leading(path@, '/'), '/'),
    {
        let n = path.unicode_len();
        let mut start: usize = 0;
        while start < n && path.get_char(start) == '/'
            invariant
                n == path@.len(),
                0 <= start <= n,
                forall|k: int| 0 <= k < start ==> path@[k] == '/',
            decreases n - start,
        {
            start = start + 1;
        }
        let mut rest: Vec<char> = Vec::new();
        let mut i = start;
        while i < n
            invariant
                n == path@.len(),
                start <= i <= n,
                rest@ == path@.subrange(start as int, i as int),
            decreases n - i,
        {
            rest.push(path.get_char(i));
            proof {
                assert(rest@ =~= path@.subrange(start as int, i + 1));
            }
            i = i + 1;
        }
        proof {
            lemma_drop_leading(path@, '/', start as int);
        }
        split_char_vec(&rest, '/')
    }

    /// What an entry found on a path leads to: a directory's entry gives
    /// the cluster to search next, a file's entry ends the walk.
    pub fn open_step(entry: &FileEntry) -> (r: Option<usize>)
        ensures
            entry.attributes == 0x10 ==> r == Some(((entry.high_first_cluster_number as u32) << 16u32 | entry.low_first_cluster_number as u32) as usize),
            entry.attributes != 0x10 ==> r is None,
    {
        if entry.is_directory() {
            Some(entry.first_cluster() as usize)
        } else {
            None
        }
    }
}

/// `s` without its leading characters `c`.
pub open spec fn drop_leading(s: Seq<char>, c: char) -> Seq<char>
    decreases s.len(),
{
    if s.len() > 0 && s[0] == c { drop_leading(s.drop_first(), c) } else { s }
}

proof fn lemma_drop_leading(s: Seq<char>, c: char, k: int)
    requires
        0 <= k <= s.len(),
        forall|j: int| 0 <= j < k ==> s[j] == c,
        k == s.len() || s[k] != c,
    ensures
        drop_leading(s, c) == s.subrange(k, s.len() as int),
    decreases k,
{
    if k > 0 {
        lemma_drop_leading(s.drop_first(), c, k - 1);
        assert(s.drop_first().subrange(k - 1, s.len() - 1) =~= s.subrange(k, s.len() as int));
    } else {
        assert(s.subrange(0, s.len() as int) =~= s);
    }
}

/// The pieces of `s` between the characters `sep`.
fn split_char_vec(s: &Vec<char>, sep: char) -> (r: Vec<Vec<char>>)
    ensures
        char_views(r@) == split_on(s@, sep),
{
    let n = s.len();
    let mut done: Vec<Vec<char>> = Vec::new();
    let mut cur: Vec<char> = Vec::new();
    let mut i: usize = 0;
    proof {
        assert(s@.subrange(0, 0) =~= Seq::<char>::empty());
        assert(char_views(done@) =~= Seq::<Seq<char>>::empty());
    }
    while i < n
        invariant
            n == s@.len(),
            0 <= i <= n,
            char_views(done@) == split_on(s@.subrange(0, i as int), sep).drop_last(),
            cur@ == split_on(s@.subrange(0, i as int), sep).last(),
        decreases n - i,
    {
        let c = s[i];
        let ghost prev = s@.subrange(0, i as int);
        let ghost next = s@.subrange(0, i + 1);
        proof {
            assert(next.drop_last() =~= prev);
            lemma_split_on_nonempty(prev, sep);
        }
        let ghost before = char_views(done@);
        if c == sep {
            let piece = cur;
            done.push(piece);
            cur = Vec::new();
            proof {
                assert(char_views(done@) =~= before.push(piece@));
                assert(split_on(next, sep).drop_last() =~= split_on(prev, sep));
                assert(split_on(prev, sep).drop_last().push(split_on(prev, sep).last()) =~= split_on(prev, sep));
            }
        } else {
            cur.push(c);
            proof {
                assert(split_on(next, sep).drop_last() =~= split_on(prev, sep).drop_last());
            }
        }
        i = i + 1;
    }
    proof {
        assert(s@.subrange(0, n as int) =~= s@);
        lemma_split_on_nonempty(s@, sep);
    }
    let ghost before = char_views(done@);
    let last = cur;
    done.push(last);
    proof {
        assert(char_views(done@) =~= before.push(last@));
        assert(split_on(s@, sep).drop_last().push(split_on(s@, sep).last()) =~= split_on(s@, sep));
    }
    done
}

/// How many bytes of a file of `file_size` bytes the next cluster gives,
/// `copied` being read: a whole cluster, or what remains.
pub fn bytes_to_copy(file_size: u32, copied: usize, cluster_size: usize) -> (r: usize)
    requires
        copied <= file_size,
    ensures
        r == (if file_size - copied > cluster_size { cluster_size as int } else { file_size - copied }),
{
    let remaining = file_size as usize - copied;
    if remaining > cluster_size { cluster_size } else { remaining }
}

/// Whether a cluster number ends its chain.
pub fn is_end_of_chain(cluster: u32) -> (r: bool)
    ensures
        r == (cluster >= EOC),
{
    cluster >= EOC
}

/// How many bytes the next cluster adds to a file of `file_size` bytes of
/// which `copied` are read: a whole cluster, or what remains.
pub open spec fn copy_len(file_size: nat, copied: nat, cluster_size: nat) -> nat {
    if file_size - copied > cluster_size { cluster_size } else { (file_size - copied) as nat }
}

/// Where reading a file stands: its size, the cluster to read next, and
/// the bytes read so far.
pub struct FileRead {
    pub file_size: u32,
    pub cluster: u32,
    pub contents: Vec<u8>,
}

/// What reading a file does next: read a cluster and step with its bytes
/// and its FAT entry, or stop with the contents.
#[derive(Clone, Copy, Debug, PartialEq, Eq, Structural)]
pub enum ReadAction {
    ReadCluster(u32),
    Done,
}

/// Starts reading the file of `entry`: nothing read, its first cluster
/// read first.
pub fn read_start(entry: &FileEntry) -> (r: (FileRead, ReadAction))
    ensures
        r.0.file_size == entry.file_size,
        r.0.cluster == (entry.high_first_cluster_number as u32) << 16u32 | entry.low_first_cluster_number as u32,
        r.0.contents@ == Seq::<u8>::empty(),
        r.1 == ReadAction::ReadCluster(r.0.cluster),
{
    let cluster = entry.first_cluster();
    (FileRead { file_size: entry.file_size, cluster, contents: Vec::new() }, ReadAction::ReadCluster(cluster))
}

/// One step of reading a file: `data` holds the current cluster and `next`
/// is its FAT entry. The cluster's first `copy_len` bytes are added; the read
/// goes on with `next`, unless `next` ends the chain.
pub fn read_step(st: FileRead, cluster_size: usize, data: &[u8], next: u32) -> (r: (FileRead, ReadAction))
    requires
        st.contents@.len() <= st.file_size,
        copy_len(st.file_size as nat, st.contents@.len(), cluster_size as nat) <= data@.len(),
    ensures
        r.0.file_size == st.file_size,
        r.0.cluster == next,
        r.0.contents@ == st.contents@ + data@.subrange(0, copy_len(st.file_size as nat, st.contents@.len(), cluster_size as nat) as int),
        r.1 == (if next >= EOC { ReadAction::Done } else { ReadAction::ReadCluster(next) }),
{
    let FileRead { file_size, cluster: _, mut contents } = st;
    let n = bytes_to_copy(file_size, contents.len(), cluster_size);
    let ghost before = contents@;
    let mut i: usize = 0;
    while i < n
        invariant
            0 <= i <= n,
            n <= data@.len(),
            contents@ == before + data@.subrange(0, i as int),
        decreases n - i,
    {
        contents.push(data[i]);
        proof {
            assert(contents@ =~= before + data@.subrange(0, i + 1));
        }
        i = i + 1;
    }
    let action = if is_end_of_chain(next) { ReadAction::Done } else { ReadAction::ReadCluster(next) };
    (FileRead { file_size, cluster: next, contents }, action)
}

/// The clusters `d` one after the other.
pub open spec fn concat_clusters(d: Seq<Seq<u8>>) -> Seq<u8>
    decreases d.len(),
{
    if d.len() == 0 { Seq::empty() } else { d[0] + concat_clusters(d.drop_first()) }
}

/// The contents after `read_step` takes the clusters `d` in turn, starting
/// from `contents`.
pub open spec fn read_run(file_size: nat, cluster_size: nat, contents: Seq<u8>, d: Seq<Seq<u8>>) -> Seq<u8>
    decreases d.len(),
{
    if d.len() == 0 {
        contents
    } else {
        read_run(file_size, cluster_size,
            contents + d[0].subrange(0, copy_len(file_size, contents.len(), cluster_size) as int), d.drop_first())
    }
}

proof fn lemma_concat_len(d: Seq<Seq<u8>>, cs: nat)
    requires
        forall|i: int| 0 <= i < d.len() ==> (#[trigger] d[i]).len() == cs,
    ensures
        concat_clusters(d).len() == d.len() * cs,
    decreases d.len(),
{
    if d.len() > 0 {
        lemma_concat_len(d.drop_first(), cs);
        assert(d.len() * cs == cs + (d.len() - 1) * cs) by (nonlinear_arith);
    }
}

proof fn lemma_read_run(file_size: nat, cs: nat, c: Seq<u8>, d: Seq<Seq<u8>>)
    requires
        c.len() <= file_size,
        forall|i: int| 0 <= i < d.len() ==> (#[trigger] d[i]).len() == cs,
    ensures
        read_run(file_size, cs, c, d) == c + concat_clusters(d).subrange(0,
            if file_size - c.len() < d.len() * cs { file_size - c.len() } else { (d.len() * cs) as int }),
    decreases d.len(),
{
    lemma_concat_len(d, cs);
    if d.len() == 0 {
        assert(c + concat_clusters(d).subrange(0, 0) =~= c);
    } else {
        let n = copy_len(file_size, c.len(), cs);
        let c2 = c + d[0].subrange(0, n as int);
        let rest = d.drop_first();
        assert forall|i: int| 0 <= i < rest.len() implies (#[trigger] rest[i]).len() == cs by {
            assert(rest[i] == d[i + 1]);
        }
        lemma_read_run(file_size, cs, c2, rest);
        lemma_concat_len(rest, cs);
        let k = d.len();
        assert(k * cs == cs + (k - 1) * cs) by (nonlinear_arith);
        let m2: int = if file_size - c2.len() < rest.len() * cs { file_size - c2.len() } else { (rest.len() * cs) as int };
        let m: int = if file_size - c.len() < k * cs { file_size - c.len() } else { (k * cs) as int };
        assert(concat_clusters(d) == d[0] + concat_clusters(rest));
        if n < cs {
            assert(m2 == 0);
            assert(m == n);
            assert(c2 + concat_clusters(rest).subrange(0, m2) =~= c + concat_clusters(d).subrange(0, m));
        } else {
            assert(m == cs + m2);
            assert(d[0].subrange(0, n as int) =~= d[0]);
            assert(c2 + concat_clusters(rest).subrange(0, m2) =~= c + concat_clusters(d).subrange(0, m));
        }
    }
}

/// Law: reading a file cluster by cluster along its chain gives the first
/// `file_size` bytes of its clusters, one after the other (all of them, if
/// the chain holds fewer).
pub proof fn law_read_gives_file_prefix(file_size: u32, cluster_size: usize, d: Seq<Seq<u8>>)
    requires
        forall|i: int| 0 <= i < d.len() ==> (#[trigger] d[i]).len() == cluster_size,
    ensures
        read_run(file_size as nat, cluster_size as nat, Seq::empty(), d)
            == concat_clusters(d).subrange(0, if file_size < d.len() * cluster_size { file_size as int } else { d.len() * cluster_size }),
{
    lemma_read_run(file_size as nat, cluster_size as nat, Seq::empty(), d);
    let m: int = if file_size < d.len() * cluster_size { file_size as int } else { d.len() * cluster_size };
    assert(Seq::<u8>::empty() + concat_clusters(d).subrange(0, m) =~= concat_clusters(d).subrange(0, m));
}

} // verus!
