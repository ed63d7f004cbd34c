use cappuccinos::bit_manipulator::BitManipulator;
use cappuccinos::bytes::{copy_range, read_le, read_u16_le, read_u32_be, read_u32_le, read_u64_le};
use cappuccinos::features::{apply_kernel_arguments, parse_kernel_cmdline, KernelFeatures};
use cappuccinos::libs::elf::load_elf;
use cappuccinos::libs::rand::Random;
use cappuccinos::mem::allocator::{is_power_of_two, log2, next_power_of_two, BuddyAllocator};
use cappuccinos::mem::memmap::{memory_section_is_usable, MemmapEntry, MemoryMapEntryType};
use cappuccinos::mem::pmm::PhysicalMemoryManager;
use cappuccinos::mem::{decimal_string, LabelBytes};
use cappuccinos::sys::mem::{find_largest_memory_regions, label_units};

#[test]
fn little_and_big_endian_reads() {
    let b = [0x01u8, 0x02, 0x03, 0x04, 0x05, 0x06, 0x07, 0x08];
    assert_eq!(read_u16_le(&b, 0), 0x0201);
    assert_eq!(read_u32_le(&b, 1), 0x05040302);
    assert_eq!(read_u64_le(&b, 0), 0x0807060504030201);
    assert_eq!(read_u32_be(&b, 0), 0x01020304);
    assert_eq!(read_le(&b, 2, 3), 0x050403);
    assert_eq!(read_le(&b, 0, 0), 0);
    assert_eq!(copy_range(&b, 2, 5), vec![3u8, 4, 5]);
    assert_eq!(copy_range(&b, 4, 4), Vec::<u8>::new());
}

#[test]
fn bit_manipulator_sets_and_clears_single_bits() {
    let mut m = BitManipulator::new();
    assert_eq!(m.get(), 0);
    m.set_bit(3);
    assert_eq!(m.get(), 0b1000);
    assert!(m.extract_bit(3));
    assert!(!m.extract_bit(2));
    m.set_bit(7);
    m.unset_bit(3);
    assert_eq!(m.get(), 0x80);
    m.bitor_assign(0x0F);
    assert_eq!(m.get(), 0x8F);
    m.bitxor_assign(0x81);
    assert_eq!(m.get(), 0x0E);
    m.set(0x55);
    assert_eq!(BitManipulator::new_from(0x55).get(), m.get());
}

#[test]
fn kernel_command_line_sets_fat_in_mem() {
    assert_eq!(parse_kernel_cmdline(None), KernelFeatures { fat_in_mem: true });
    assert_eq!(parse_kernel_cmdline(Some("fat_in_mem=false")), KernelFeatures { fat_in_mem: false });
    assert_eq!(parse_kernel_cmdline(Some("  quiet fat_in_mem=false\tother=1 ")), KernelFeatures { fat_in_mem: false });
    assert_eq!(parse_kernel_cmdline(Some("fat_in_mem=false fat_in_mem=true")), KernelFeatures { fat_in_mem: true });
    // a value other than "true" turns the feature off, and two '=' are ignored
    assert_eq!(parse_kernel_cmdline(Some("fat_in_mem=yes")), KernelFeatures { fat_in_mem: false });
    assert_eq!(parse_kernel_cmdline(Some("fat_in_mem=false=x")), KernelFeatures { fat_in_mem: true });
    let args = vec![String::from("unknown=false"), String::from("fat_in_mem=false")];
    assert_eq!(apply_kernel_arguments(&args), KernelFeatures { fat_in_mem: false });
    let mut f = KernelFeatures { fat_in_mem: false };
    f.update_option("fat_in_mem", "true");
    assert!(f.fat_in_mem);
    f.update_option("other", "false");
    assert!(f.fat_in_mem);
}

#[test]
fn random_is_a_linear_congruential_generator() {
    let mut r = Random::new();
    assert_eq!(r.a, 25214903917);
    assert_eq!(r.c, 11);
    assert_eq!(r.previous, 0);
    assert_eq!(r.rand(), 11);
    assert_eq!(r.rand(), 25214903917 * 11 + 11);
    r.rseed(2);
    assert_eq!(r.rand(), 25214903917 * 2 + 11);
}

#[test]
fn elf_magic_and_class() {
    // the magic this kernel checks starts with 0x74
    let ok = [0x74u8, b'E', b'L', b'F', 2, 2];
    assert!(load_elf(&ok).is_ok());
    let standard = [0x7Fu8, b'E', b'L', b'F', 2, 2];
    assert!(load_elf(&standard).is_err());
    let wrong_class = [0x74u8, b'E', b'L', b'F', 2, 1];
    assert!(load_elf(&wrong_class).is_err());
    let not_elf = [0u8, 1, 2, 3];
    assert!(load_elf(&not_elf).is_err());
}

#[test]
fn byte_counts_are_labelled_rounding_down() {
    let l = 3usize.label_bytes();
    assert_eq!((l.size, l.text_label), (3, "Bytes"));
    let l = 2047usize.label_bytes();
    assert_eq!((l.size, l.text_label), (1, "KiB"));
    let l = (5usize << 20).label_bytes();
    assert_eq!((l.size, l.text_label), (5, "MiB"));
    let l = (3usize << 30).label_bytes();
    assert_eq!((l.size, l.text_label), (3, "GiB"));
    assert_eq!(l.to_string(), "3GiB");
    assert_eq!(label_units(1536), (1, "KiB"));
    assert_eq!(label_units(0), (0, "Bytes"));
    assert_eq!(decimal_string(0), "0");
    assert_eq!(decimal_string(1234567), "1234567");
}

#[test]
fn allocator_arithmetic() {
    assert_eq!(log2(1), 0);
    assert_eq!(log2(2), 1);
    assert_eq!(log2(1024), 10);
    assert_eq!(log2(1025), 10);
    assert_eq!(log2(0), 0);
    assert_eq!(next_power_of_two(0), 1);
    assert_eq!(next_power_of_two(5), 8);
    assert_eq!(next_power_of_two(64), 64);
    assert!(is_power_of_two(4096));
    assert!(!is_power_of_two(0));
    assert!(!is_power_of_two(12));
}

#[test]
fn buddy_allocator_allocate_then_dealloc_restores_free_memory() {
    let heap_size = 1usize << 20;
    let mut a = BuddyAllocator::new_unchecked(0x1000_0000, heap_size);
    assert_eq!(a.get_total_mem(), heap_size);
    assert_eq!(a.get_free_mem(), heap_size);
    assert_eq!(a.get_used_mem(), 0);
    let p = a.allocate(64, 8).unwrap();
    assert_eq!(p, 0x1000_0000);
    assert_eq!(a.get_free_mem(), heap_size - 64);
    assert_eq!(a.get_used_mem(), 64);
    let q = a.allocate(64, 8).unwrap();
    assert_eq!(q, 0x1000_0040);
    a.dealloc(q, 64, 8);
    a.dealloc(p, 64, 8);
    assert_eq!(a.get_free_mem(), heap_size);
}

#[test]
fn buddy_allocator_refuses_bad_requests() {
    let mut a = BuddyAllocator::new_unchecked(0x2000_0000, 1 << 20);
    // an alignment that is not a power of two, or above a page
    assert_eq!(a.allocate(64, 3), None);
    assert_eq!(a.allocate(64, 8192), None);
    // more than the heap
    assert_eq!(a.allocate((1 << 20) + 1, 8), None);
    assert_eq!(a.get_free_mem(), 1 << 20);
    // the whole heap, then nothing is left
    assert_eq!(a.allocate(1 << 20, 8), Some(0x2000_0000));
    assert_eq!(a.get_free_mem(), 0);
    assert_eq!(a.allocate(32, 8), None);
}

fn usable(base: usize, len: usize) -> MemmapEntry {
    MemmapEntry { base, len, typ: MemoryMapEntryType::Usable }
}

#[test]
fn memory_map_entry_usability() {
    assert!(memory_section_is_usable(&usable(0, 4096)));
    let r = MemmapEntry { base: 0, len: 4096, typ: MemoryMapEntryType::Reserved };
    assert!(!memory_section_is_usable(&r));
}

#[test]
fn physical_memory_manager_hands_out_free_pages() {
    let mut memmap = vec![
        MemmapEntry { base: 0, len: 0x1000, typ: MemoryMapEntryType::Reserved },
        usable(0x100000, 0x100000),
    ];
    let mut pmm = PhysicalMemoryManager::new(&mut memmap, 0xffff_8000_0000_0000);
    // the bitmap took the region's first page
    assert_eq!(memmap[1], usable(0x101000, 0xFF000));
    assert_eq!(pmm.total_memory(), 0x100000);
    assert_eq!(pmm.used_memory(), 0);
    let a = pmm.alloc_nozero(1).unwrap();
    assert_eq!(a, 0x101000);
    let b = pmm.alloc_nozero(2).unwrap();
    assert_eq!(b, 0x102000);
    assert_eq!(pmm.used_memory(), 3 * 4096);
    assert_eq!(pmm.usable_memory(), 0x100000 - 3 * 4096);
    pmm.dealloc(a, 1);
    assert_eq!(pmm.used_memory(), 2 * 4096);
    // more pages than there are
    assert!(pmm.alloc_nozero(1000).is_err());
}

#[test]
fn physical_memory_manager_dealloc_undoes_alloc() {
    let mut memmap = vec![usable(0x200000, 0x10000)];
    let mut pmm = PhysicalMemoryManager::new(&mut memmap, 0);
    let before = pmm.used_memory();
    let a = pmm.alloc_nozero(4).unwrap();
    pmm.dealloc(a, 4);
    assert_eq!(pmm.used_memory(), before);
}

#[test]
fn largest_regions_for_heap_and_framebuffer() {
    let mut memmap = vec![
        usable(0x1000, 0x1000),
        usable(0x100000, 0x800000),
        MemmapEntry { base: 0xfd000000, len: 0x300000, typ: MemoryMapEntryType::Framebuffer },
        usable(0x2000000, 0x400000),
    ];
    // the second largest is big enough for the framebuffer
    assert_eq!(find_largest_memory_regions(&mut memmap, 0x100000), (Some(1), Some(3)));

    let mut small = vec![
        usable(0x1000, 0x2000),
        usable(0x100000, 0x800000),
        MemmapEntry { base: 0xfd000000, len: 0x300000, typ: MemoryMapEntryType::Framebuffer },
    ];
    // the second is too small: the framebuffer's size comes off the largest
    assert_eq!(find_largest_memory_regions(&mut small, 0x100000), (Some(1), Some(0)));
    assert_eq!(small[1].len, 0x500000);
    assert_eq!(small[0].base, 0x600000);

    let mut no_fb = vec![usable(0x1000, 0x2000)];
    assert_eq!(find_largest_memory_regions(&mut no_fb, 0x100000), (Some(0), None));
}

#[test]
fn buddy_allocator_checks_before_giving_back() {
    let mut a = BuddyAllocator::new_unchecked(0x3000_0000, 1 << 20);
    assert_eq!(a.free_mem_checked(), Some(1 << 20));
    let p = a.allocate(100, 8).unwrap();
    assert_eq!(a.free_mem_checked(), Some((1 << 20) - 128));
    assert!(a.may_dealloc(p, 100, 8));
    // below the heap, past its end, or an alignment that names no order
    assert!(!a.may_dealloc(0x2FFF_FFC0, 100, 8));
    assert!(!a.may_dealloc(0x3010_0000, 100, 8));
    assert!(!a.may_dealloc(p, 100, 3));
    a.dealloc(p, 100, 8);
    // a block that is free already
    assert!(!a.may_dealloc(p, 100, 8));
    // a heap that is not a power of two keeps only its top block free
    let b = BuddyAllocator::new_unchecked(0x4000_0000, 3 << 15);
    assert_eq!(b.get_free_mem(), 1 << 16);
}

#[test]
fn buddy_allocator_top_list_on_an_uneven_heap() {
    // on a heap of 3 * 2^15 bytes the top block is 2^16 bytes, so two of
    // them fit, and freeing both puts two blocks on the top list; taking
    // one then empties the whole list
    let h = 0x5000_0000usize;
    let mut a = BuddyAllocator::new_unchecked(h, 3 << 15);
    assert_eq!(a.allocate(1 << 16, 16), Some(h));
    a.dealloc(h, 1 << 16, 16);
    assert!(a.may_dealloc(h + 0x8000, 1 << 16, 16));
    a.dealloc(h + 0x8000, 1 << 16, 16);
    assert_eq!(a.free_mem_checked(), Some(1 << 17));
    assert_eq!(a.allocate(1 << 16, 16), Some(h + 0x8000));
    assert_eq!(a.free_mem_checked(), Some(0));
}
