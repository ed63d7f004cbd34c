use cappuccinos::drivers::fs::fat::{
    bytes_to_copy, has_char, read_start, read_step, ReadAction, is_end_of_chain, split_chars,
    str_contains, upper_chars, BIOSParameterBlock, FatFs, FatType, FileEntry,
};
use cappuccinos::drivers::fs::initramfs::compressors::gzip::{zlib_header, ZlibCompressionLevel, ZlibError, ZlibHeader};
use cappuccinos::drivers::fs::initramfs::{bytes_equal, initramfs_module, Inode, Squashfs, SquashfsCompressionType, SquashfsSuperblock};

fn bpb_sector(id: &[u8; 8]) -> Vec<u8> {
    let mut b = vec![0u8; 512];
    b[..3].copy_from_slice(&[0xEB, 0x58, 0x90]);
    b[11..13].copy_from_slice(&512u16.to_le_bytes());
    b[13] = 8;
    b[14..16].copy_from_slice(&32u16.to_le_bytes());
    b[16] = 2;
    b[32..36].copy_from_slice(&1_000_000u32.to_le_bytes());
    b[36..40].copy_from_slice(&1000u32.to_le_bytes());
    b[44..48].copy_from_slice(&2u32.to_le_bytes());
    b[48..50].copy_from_slice(&1u16.to_le_bytes());
    b[82..90].copy_from_slice(id);
    b[510] = 0x55;
    b[511] = 0xAA;
    b
}

fn fsinfo() -> Vec<u8> {
    let mut f = vec![0u8; 512];
    f[..4].copy_from_slice(&0x41615252u32.to_le_bytes());
    f[488..492].copy_from_slice(&1234u32.to_le_bytes());
    f
}

#[test]
fn boot_sector_fields() {
    let b = bpb_sector(b"FAT32   ");
    let bpb = BIOSParameterBlock::from_bytes(&b);
    assert_eq!(bpb.bytes_per_sector, 512);
    assert_eq!(bpb.sectors_per_cluster, 8);
    assert_eq!(bpb.reserved_sectors, 32);
    assert_eq!(bpb.large_sector_count, 1_000_000);
    assert_eq!(bpb.root_dir_cluster, 2);
    assert_eq!(bpb.bootable_signature, 0xAA55);
    assert!(FatFs::is_fat32(&bpb));
    assert!(!FatFs::is_fat32(&BIOSParameterBlock::from_bytes(&bpb_sector(b"FAT16   "))));
}

#[test]
fn fat32_volume_layout() {
    let fat: Vec<u32> = vec![0x0FFFFFF8, 0x0FFFFFFF, 0x0FFFFFFF, 4, 0xF000_0005, 0x0FFFFFFF];
    let fs = FatFs::new(2048, &bpb_sector(b"FAT32   "), &fsinfo(), Some(fat)).unwrap();
    assert_eq!(fs.fat_type, FatType::Fat32);
    assert_eq!(fs.fat_start, 2048 + 32);
    assert_eq!(fs.sectors_per_fat, 1000);
    assert_eq!(fs.cluster_size, 4096);
    assert_eq!(fs.fs_info.last_known_free_cluster, 1234);
    assert_eq!(fs.cluster_to_sector(2), 32 + 2 * 1000);
    assert_eq!(fs.read_cluster(3), (2048 + 32 + 2000 + 8, 8));
    // the top four bits of an entry are not part of it
    assert_eq!(fs.get_next_cluster(3), 4);
    assert_eq!(fs.get_next_cluster(4), 5);
    assert_eq!(fs.fat_entry_location(130), (2048 + 32 + 1, 8));
    assert!(FatFs::new(0, &bpb_sector(b"FAT12   "), &fsinfo(), None).is_err());
    assert!(matches!(FatFs::try_new(0, &bpb_sector(b"FAT12   "), &fsinfo(), None), Some(Err(()))));
}

fn entry(name: &[u8; 11], attributes: u8, cluster: u32, size: u32) -> Vec<u8> {
    let mut e = vec![0u8; 32];
    e[..11].copy_from_slice(name);
    e[11] = attributes;
    e[20..22].copy_from_slice(&((cluster >> 16) as u16).to_le_bytes());
    e[26..28].copy_from_slice(&(cluster as u16).to_le_bytes());
    e[28..32].copy_from_slice(&size.to_le_bytes());
    e
}

#[test]
fn directory_entries() {
    let e = FileEntry::from_bytes(&entry(b"BOOT       ", 0x10, 0x0001_0002, 0));
    assert!(e.is_directory());
    assert_eq!(e.first_cluster(), 0x0001_0002);
    assert_eq!(FatFs::open_step(&e), Some(0x0001_0002));
    let f = FileEntry::from_bytes(&entry(b"KERNEL  ELF", 0x20, 7, 4096));
    assert!(!f.is_directory());
    assert_eq!(FatFs::open_step(&f), None);
    assert_eq!(f.file_size, 4096);
    assert_eq!(f.extension, b"ELF".to_vec());
}

#[test]
fn directory_search_by_short_name() {
    let mut data = Vec::new();
    data.extend(entry(b"KERNEL  ELF", 0x20, 7, 4096));
    let mut deleted = entry(b"OLD     TXT", 0x20, 9, 1);
    deleted[0] = 0xE5;
    data.extend(deleted);
    data.extend(entry(b"README  TXT", 0x20, 5, 100));
    data.extend(vec![0u8; 32]);
    match FatFs::find_entry_checked(&data, "readme.txt") {
        Some(Ok(e)) => {
            assert_eq!(e.first_cluster(), 5);
            assert_eq!(e.file_size, 100);
        },
        _ => panic!("readme.txt not found"),
    }
    match FatFs::find_entry_checked(&data, "kernel.elf") {
        Some(Ok(e)) => assert_eq!(e.first_cluster(), 7),
        _ => panic!("kernel.elf not found"),
    }
    assert!(matches!(FatFs::find_entry_checked(&data, "missing.txt"), Some(Err(()))));
    // the entries run out before the end marker
    assert!(FatFs::find_entry_checked(&data[..64], "missing.txt").is_none());
}

#[test]
fn path_and_name_helpers() {
    assert_eq!(FatFs::path_components("/boot/kernel.elf"), vec![vec!['b', 'o', 'o', 't'], "kernel.elf".chars().collect::<Vec<char>>()]);
    assert_eq!(FatFs::path_components("///a"), vec![vec!['a']]);
    assert_eq!(split_chars("a.b.", '.'), vec![vec!['a'], vec!['b'], vec![]]);
    assert_eq!(upper_chars(&vec!['a', 'B', '1', 'z']), vec!['A', 'B', '1', 'Z']);
    assert!(has_char("a.b", '.'));
    assert!(!has_char("ab", '.'));
    assert!(str_contains("README  ", &vec!['R', 'E', 'A']));
    assert!(!str_contains("README  ", &vec!['X']));
    assert!(str_contains("abc", &vec![]));
    assert_eq!(bytes_to_copy(10000, 8192, 4096), 1808);
    assert_eq!(bytes_to_copy(10000, 0, 4096), 4096);
    assert!(is_end_of_chain(0x0FFFFFF8));
    assert!(is_end_of_chain(0x0FFFFFFF));
    assert!(!is_end_of_chain(0x0FFFFFF7));
}

fn superblock(block_log: u16, block_size: u32, major: u16) -> Vec<u8> {
    let mut b = vec![0u8; 96];
    b[..4].copy_from_slice(&0x73717368u32.to_le_bytes());
    b[4..8].copy_from_slice(&3u32.to_le_bytes());
    b[12..16].copy_from_slice(&block_size.to_le_bytes());
    b[20..22].copy_from_slice(&1u16.to_le_bytes());
    b[22..24].copy_from_slice(&block_log.to_le_bytes());
    b[24..26].copy_from_slice(&0x0003u16.to_le_bytes());
    b[28..30].copy_from_slice(&major.to_le_bytes());
    b[40..48].copy_from_slice(&96u64.to_le_bytes());
    b
}

#[test]
fn squashfs_superblock_checks() {
    let s = SquashfsSuperblock::new(&superblock(17, 131072, 4)).unwrap();
    assert_eq!(s.inode_count, 3);
    assert_eq!(s.compressor, SquashfsCompressionType::Gzip);
    assert_eq!(s.bytes_used, 96);
    let f = s.features();
    assert!(f.uncompressed_inodes);
    assert!(f.uncompressed_data_blocks);
    assert!(!f.uncompressed_fragments);
    // a block size that is not 2^block_log
    assert!(SquashfsSuperblock::new(&superblock(17, 4096, 4)).is_err());
    // version 3
    assert!(SquashfsSuperblock::new(&superblock(17, 131072, 3)).is_err());
    // more than 1 MiB
    assert!(SquashfsSuperblock::new(&superblock(21, 1 << 21, 4)).is_err());
    let mut bad = superblock(17, 131072, 4);
    bad[0] = 0;
    assert!(SquashfsSuperblock::new(&bad).is_err());
    assert!(bytes_equal(b"abc", b"abc"));
    assert!(!bytes_equal(b"abc", b"abd"));
    assert!(!bytes_equal(b"abc", b"ab"));
}

fn put16(b: &mut Vec<u8>, at: usize, v: u16) {
    b[at..at + 2].copy_from_slice(&v.to_le_bytes());
}

fn put32(b: &mut Vec<u8>, at: usize, v: u32) {
    b[at..at + 4].copy_from_slice(&v.to_le_bytes());
}

fn put64(b: &mut Vec<u8>, at: usize, v: u64) {
    b[at..at + 8].copy_from_slice(&v.to_le_bytes());
}

/// A small image: "hello world" in the data table, a root directory listing
/// one file, "hello.txt", and uncompressed metadata.
fn image() -> Vec<u8> {
    let (data, inodes, dirs, ids, end) = (96usize, 107usize, 173usize, 215usize, 223usize);
    let mut b = superblock(17, 131072, 4);
    put16(&mut b, 24, 0x0003);
    put64(&mut b, 32, 0);
    put64(&mut b, 40, end as u64);
    put64(&mut b, 48, ids as u64);
    put64(&mut b, 56, u64::MAX);
    put64(&mut b, 64, inodes as u64);
    put64(&mut b, 72, dirs as u64);
    put64(&mut b, 80, u64::MAX);
    put64(&mut b, 88, u64::MAX);
    b.resize(end, 0);
    b[data..data + 11].copy_from_slice(b"hello world");
    // the inode table: one uncompressed chunk with the root directory, then the file
    put16(&mut b, inodes, 0x8000 | 64);
    let root = inodes + 2;
    put16(&mut b, root, 1);
    put32(&mut b, root + 12, 1);
    put32(&mut b, root + 16, 0);
    put32(&mut b, root + 20, 2);
    put16(&mut b, root + 24, 29);
    put16(&mut b, root + 26, 0);
    let file = root + 32;
    put16(&mut b, file, 2);
    put32(&mut b, file + 12, 2);
    put32(&mut b, file + 16, data as u32);
    put32(&mut b, file + 20, u32::MAX);
    put32(&mut b, file + 24, 0);
    put32(&mut b, file + 28, 11);
    // the directory table: one uncompressed chunk, a header and one entry
    put16(&mut b, dirs, 0x8000 | 40);
    let listing = dirs + 2;
    put32(&mut b, listing, 0);
    put32(&mut b, listing + 4, 0);
    put32(&mut b, listing + 8, 1);
    put16(&mut b, listing + 12, 32);
    put16(&mut b, listing + 14, 1);
    put16(&mut b, listing + 16, 2);
    put16(&mut b, listing + 18, 8);
    b[listing + 20..listing + 29].copy_from_slice(b"hello.txt");
    b
}

#[test]
fn squashfs_image_opens_and_reads_a_file() {
    let fs = Squashfs::new(&image()).unwrap();
    let root = fs.read_root_dir();
    assert!(matches!(root, Inode::BasicDirectory(d) if d.file_size == 29 && d.header.inode_num == 1));
    let file = fs.find_entry_in_directory(root, "hello.txt").unwrap();
    match file {
        Inode::BasicFile(f) => {
            assert_eq!(f.file_size, 11);
            assert_eq!(f.header.inode_num, 2);
        },
        _ => panic!("expected a file"),
    }
    assert_eq!(fs.read_inode(32), file);
    assert_eq!(fs.open(file).unwrap(), b"hello world".to_vec());
    assert!(fs.find_entry_in_directory(root, "missing").is_err());
    // a file is no directory to search
    assert!(fs.find_entry_in_directory(file, "hello.txt").is_err());
    // inode numbers: the block in the high bits, the offset in the low 16
    assert_eq!(fs.get_inode_block_offset(0x0002_0010), (2, 16));
    assert_eq!(fs.get_inode_block_offset((5u64 << 16) | 7), (5, 7));
}

#[test]
fn squashfs_image_of_another_version_is_refused() {
    let mut b = image();
    put16(&mut b, 28, 3);
    assert!(Squashfs::new(&b).is_err());
}

#[test]
fn the_initramfs_module_is_the_last_that_names_it() {
    let paths = vec![
        Some(String::from("/boot/kernel")),
        Some(String::from("/boot/initramfs.img")),
        None,
        Some(String::from("/boot/old-initramfs.img.bak")),
        Some(String::from("/boot/font.psf")),
    ];
    assert_eq!(initramfs_module(&paths), Some(3));
    assert_eq!(initramfs_module(&paths[..3].to_vec()), Some(1));
    assert_eq!(initramfs_module(&vec![None, Some(String::from("initramfs.im"))]), None);
}

#[test]
fn cluster_reads_are_checked() {
    let fs = FatFs::new(2048, &bpb_sector(b"FAT32   "), &fsinfo(), None).unwrap();
    assert_eq!(fs.read_cluster_checked(3), Some((2048 + 32 + 2000 + 8, 8)));
    // clusters 0 and 1 are not data clusters
    assert_eq!(fs.read_cluster_checked(1), None);
    assert_eq!(fs.read_cluster_checked(usize::MAX), None);
}

#[test]
fn file_reads_follow_the_chain() {
    let mut raw = entry(b"README  TXT", 0x20, 5, 10);
    let e = FileEntry::from_bytes(&raw);
    let (st, action) = read_start(&e);
    assert_eq!(action, ReadAction::ReadCluster(5));
    // clusters of four bytes: the file's ten bytes take three of them
    let (st, action) = read_step(st, 4, &[1, 2, 3, 4], 7);
    assert_eq!(action, ReadAction::ReadCluster(7));
    let (st, action) = read_step(st, 4, &[5, 6, 7, 8], 9);
    assert_eq!(action, ReadAction::ReadCluster(9));
    let (st, action) = read_step(st, 4, &[9, 10, 11, 12], 0x0FFF_FFFF);
    assert_eq!(action, ReadAction::Done);
    assert_eq!(st.contents, vec![1, 2, 3, 4, 5, 6, 7, 8, 9, 10]);
    // a chain longer than the file adds nothing more
    raw[28..32].copy_from_slice(&2u32.to_le_bytes());
    let (st, _) = read_start(&FileEntry::from_bytes(&raw));
    let (st, _) = read_step(st, 4, &[1, 2, 3, 4], 6);
    let (st, action) = read_step(st, 4, &[5, 6, 7, 8], 0x0FFF_FFF8);
    assert_eq!(action, ReadAction::Done);
    assert_eq!(st.contents, vec![1, 2]);
}

#[test]
fn zlib_headers() {
    assert_eq!(zlib_header(&[0x78, 0x9C]), Err(ZlibError::TooShort));
    assert_eq!(zlib_header(&[0x79, 0x9C, 0]), Err(ZlibError::NotDeflate));
    assert_eq!(zlib_header(&[0x88, 0x9C, 0]), Err(ZlibError::UnsupportedWindow));
    assert_eq!(
        zlib_header(&[0x78, 0x9C, 0]),
        Ok(ZlibHeader { window_log2: 7, present_dictionary: false, compression_level: ZlibCompressionLevel::Default })
    );
    assert_eq!(
        zlib_header(&[0x08, 0xE0, 0]),
        Ok(ZlibHeader { window_log2: 0, present_dictionary: true, compression_level: ZlibCompressionLevel::Best })
    );
}
