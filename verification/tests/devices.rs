use cappuccinos::arch::port::PortWrite;
use cappuccinos::drivers::acpi::{check_rsdt_checksum, resolve_acpi, rsdp_is_valid, wrapping_sum, xsdp_is_valid, AcpiRootTable};
use cappuccinos::drivers::ide::Drive;
use cappuccinos::drivers::pci::{check_device, check_function, enumerate_pci_bus, get_pci_bar_addresses, pci_config_address, pci_config_value, PciDevice};
use cappuccinos::drivers::serial::{init_serial, is_transmit_empty, serial_recieved, serial_setup, write_serial};
use cappuccinos::drivers::storage::drive::GPTBlock;
use cappuccinos::drivers::storage::ide::{
    entries_fit, gpt_signature_ok, mbr_signature_ok, parse_gpt_entries, probe_start, probe_step, ProbeAction, ProbeError, ProbeState, partition_table_sectors, wait_for_drive_ready, ATABus, ATADrive,
    ATADriveType, IDEDriveType,
};
use cappuccinos::drivers::storage::{all_zero, GPTHeader, GPTPartitionEntry, MBRPartition, Partition, Uuid, MBR};
use cappuccinos::drivers::video::font::PSFFont;
use cappuccinos::drivers::vga::{init_vga, put_pixel, set_plane, write_regs, VgaOp};
use cappuccinos::drivers::video::{fill_screen, put_char, scroll_buffer, Framebuffer};
use cappuccinos::libs::util::memset32;

fn rsdp(revision: u8, rsdt: u32) -> Vec<u8> {
    let mut b = vec![0u8; 36];
    b[..8].copy_from_slice(b"RSD PTR ");
    b[15] = revision;
    b[16..20].copy_from_slice(&rsdt.to_le_bytes());
    let sum = b[..20].iter().fold(0u8, |s, x| s.wrapping_add(*x));
    b[8] = 0u8.wrapping_sub(sum);
    b
}

#[test]
fn acpi_root_pointer() {
    let b = rsdp(0, 0x7FE1_0000);
    assert_eq!(wrapping_sum(&b, 20), 0);
    assert!(rsdp_is_valid(&b));
    assert!(xsdp_is_valid(&b));
    assert_eq!(AcpiRootTable::get_from_bootloader(Some(&b)), Ok(AcpiRootTable::Rsdp(0x7FE1_0000)));
    assert_eq!(AcpiRootTable::get_from_bootloader(None), Err(()));
    let mut bad = b.clone();
    bad[9] ^= 1;
    assert!(!rsdp_is_valid(&bad));
    assert_eq!(AcpiRootTable::get_from_bootloader(Some(&bad)), Err(()));
    let mut sig = b.clone();
    sig[0] = b'X';
    assert_eq!(AcpiRootTable::get_from_bootloader(Some(&sig)), Err(()));
    // revision 2 reads the 64-bit address at byte 4 of the pointer
    let v2 = rsdp(2, 0x1234);
    let expected = u64::from_le_bytes(v2[4..12].try_into().unwrap());
    assert_eq!(AcpiRootTable::get_from_bootloader(Some(&v2)), Ok(AcpiRootTable::Xsdp(expected)));
}

#[test]
fn acpi_root_table_entries() {
    let a = resolve_acpi(AcpiRootTable::Rsdp(0x1000), "RSDT", 36 + 3 * 4).unwrap();
    assert_eq!(a.entries, 3);
    assert!(!a.v2);
    assert_eq!(a.tables, vec![0x1024, 0x1028, 0x102C]);
    assert!(resolve_acpi(AcpiRootTable::Rsdp(0x1000), "XSDT", 48).is_err());
    let x = resolve_acpi(AcpiRootTable::Xsdp(0x2000), "XSDT", 36 + 2 * 8).unwrap();
    assert!(x.v2);
    assert_eq!(x.tables, vec![0x2024, 0x202C]);
    // at most 48 tables are kept
    let many = resolve_acpi(AcpiRootTable::Rsdp(0), "RSDT", 36 + 100 * 4).unwrap();
    assert_eq!(many.entries, 48);
    let sigs = vec![b"APIC".to_vec(), b"FACP".to_vec(), b"FACP".to_vec()];
    assert_eq!(a.get_table("FACP", &sigs), Some(0x1028));
    assert_eq!(a.get_table("HPET", &sigs), None);
}

#[test]
fn pci_configuration_space() {
    assert_eq!(pci_config_address(0, 1, 0, 0), 0x8000_0800);
    assert_eq!(pci_config_address(1, 2, 3, 0x13), 0x8001_1310);
    assert_eq!(pci_config_value(0xAAAA_BBBB, 2), 0xAAAA);
    assert_eq!(pci_config_value(0xAAAA_BBBB, 0), 0xAAAA_BBBB);
    assert_eq!(get_pci_bar_addresses(0, 1, 0)[0], 0x8000_0810);
    assert_eq!(get_pci_bar_addresses(0, 1, 0)[5], 0x8000_0824);
    let d = PciDevice::new(0, 3, 0, 0x100E_8086, 0x0200_0003);
    assert_eq!(d.vendor_id, 0x8086);
    assert_eq!(d.device_id, 0x100E);
    assert_eq!(d.class_code, 2);
    assert_eq!(d.subclass_code, 0);
    assert_eq!(d.revision_id, 3);
}

#[test]
fn serial_port() {
    assert_eq!(serial_setup()[0], PortWrite::Byte(0x3f9, 0x00));
    let mut poisoned = false;
    assert_eq!(init_serial(0xAE, &mut poisoned), (0, vec![PortWrite::Byte(0x3fc, 0x0F)]));
    assert!(!poisoned);
    assert_eq!(init_serial(0x00, &mut poisoned), (1, vec![]));
    assert!(poisoned);
    assert_eq!(init_serial(0xAE, &mut poisoned).0, 0);
    assert!(poisoned);
    assert_eq!(write_serial(b'a'), vec![PortWrite::Byte(0x3f8, b'a')]);
    assert_eq!(write_serial(b'\n'), vec![PortWrite::Byte(0x3f8, 13), PortWrite::Byte(0x3f8, 10)]);
    assert!(is_transmit_empty(0));
    assert!(!is_transmit_empty(0x20));
    assert!(serial_recieved(0x60));
    assert!(!serial_recieved(0x61));
}

#[test]
fn legacy_ide_drive_commands() {
    let d = Drive::new(0x1F0, 0x3F6);
    assert_eq!(d.select(0xA0), PortWrite::Byte(0x1F6, 0xA0));
    assert_eq!(d.send_command(0xEC), PortWrite::Byte(0x1F7, 0xEC));
    assert_eq!(d.status(), 0x1F7);
    assert!(Drive::await_busy(0x80));
    assert!(!Drive::await_busy(0x40));
    assert_eq!(d.identify(0xB0).len(), 5);
    assert_eq!(d.identify(0xB0)[4], PortWrite::Byte(0x1F7, 0xEC));
    assert!(Drive::is_present(0x50));
    assert!(!Drive::is_present(0xFF));
}

#[test]
fn ata_bus_reads() {
    let bus = ATABus::new(0x1F0, 0x3F6);
    assert_eq!((bus.io_bar, bus.control_bar), (0x1F0, 0x3F4));
    assert_eq!(ATADriveType::Child.bits(), 0x10);
    assert_eq!(bus.status(), (0x3F6, 0x1F7));
    assert_eq!(
        bus.read(ATADriveType::Parent, 0x0123_4567, 2),
        vec![
            PortWrite::Byte(0x1F6, 0xE1),
            PortWrite::Byte(0x1F2, 2),
            PortWrite::Byte(0x1F3, 0x67),
            PortWrite::Byte(0x1F4, 0x45),
            PortWrite::Byte(0x1F5, 0x23),
            PortWrite::Byte(0x1F7, 0x20),
        ]
    );
    let ext = bus.read(ATADriveType::Child, 0x1_0000_0000, 1);
    assert_eq!(ext.len(), 10);
    assert_eq!(ext[0], PortWrite::Byte(0x1F6, 0x50));
    assert_eq!(ext[3], PortWrite::Byte(0x1F4, 1));
    assert_eq!(ext[9], PortWrite::Byte(0x1F7, 0x24));
    assert_eq!(bus.software_reset(), (PortWrite::Byte(0x1F2, 4), PortWrite::Byte(0x1F2, 0)));
    assert_eq!(IDEDriveType::from_lba(0x3C, 0xC3), Some(IDEDriveType::Sata));
    assert_eq!(IDEDriveType::from_lba(0x00, 0x00), Some(IDEDriveType::Pata));
    assert_eq!(IDEDriveType::from_lba(0x01, 0x00), None);
    assert_eq!(wait_for_drive_ready(0x08), Some(Ok(())));
    assert_eq!(wait_for_drive_ready(0x01), Some(Err(())));
    assert_eq!(wait_for_drive_ready(0x88), None);
    assert_eq!(wait_for_drive_ready(0x00), None);
}

#[test]
fn ata_drive_checks_bounds() {
    let bus = ATABus::new(0x170, 0x376);
    let mut identify = vec![0u8; 512];
    assert!(ATADrive::new(bus, ATADriveType::Parent, identify.clone()).is_err());
    identify[99] = 0x02;
    identify[120..124].copy_from_slice(&1000u32.to_le_bytes());
    let drive = ATADrive::new(bus, ATADriveType::Parent, identify).unwrap();
    assert_eq!(drive.sector_count(), 1000);
    assert!(drive.read(999, 2).is_err());
    let (reset, command) = drive.read(998, 2).unwrap();
    assert_eq!(reset, bus.software_reset());
    assert_eq!(command, bus.read(ATADriveType::Parent, 998, 2));
}

#[test]
fn disk_signatures() {
    let mut s = vec![0u8; 512];
    assert!(!mbr_signature_ok(&s));
    s[510] = 0x55;
    s[511] = 0xAA;
    assert!(mbr_signature_ok(&s));
    assert!(!gpt_signature_ok(&s));
    s[..8].copy_from_slice(b"EFI PART");
    assert!(gpt_signature_ok(&s));
    assert_eq!(partition_table_sectors(128, 128), 32);
}

const ESP_GUID: [u8; 16] = [0x28, 0x73, 0x2A, 0xC1, 0x1F, 0xF8, 0xD2, 0x11, 0xBA, 0x4B, 0x00, 0xA0, 0xC9, 0x3E, 0xC9, 0x3B];

#[test]
fn uuids_compare_with_their_text() {
    let u = Uuid::from_bytes(&ESP_GUID, 0);
    assert_eq!((u.a, u.b, u.c), (0xC12A7328, 0xF81F, 0x11D2));
    assert!(u.eq_str("C12A7328-F81F-11D2-BA4B-00A0C93EC93B"));
    assert!(u.eq_str("c12a7328-f81f-11d2-ba4b-00a0c93ec93b"));
    assert!(!u.eq_str("C12A7328-F81F-11D2-BA4B-00A0C93EC93C"));
    assert!(!u.eq_str("not a uuid"));
    assert!(u.same(&Uuid::from_bytes(&ESP_GUID, 0)));
    assert!(!u.same(&Uuid::from_bytes(&[0u8; 16], 0)));
}

#[test]
fn gpt_entries_and_partitions() {
    let mut table = vec![0u8; 256];
    table[..16].copy_from_slice(&ESP_GUID);
    table[32..40].copy_from_slice(&2048u64.to_le_bytes());
    table[40..48].copy_from_slice(&4095u64.to_le_bytes());
    table[128..128 + 16].copy_from_slice(&ESP_GUID);
    table[128 + 32..128 + 40].copy_from_slice(&4096u64.to_le_bytes());
    table[128 + 40..128 + 48].copy_from_slice(&8191u64.to_le_bytes());
    let entries = parse_gpt_entries(&table, 2, 128);
    assert_eq!(entries.len(), 2);
    assert_eq!(entries[0].partition_type_guid, ESP_GUID.to_vec());
    assert_eq!((entries[0].start_sector, entries[0].end_sector), (2048, 4095));
    assert_eq!((entries[1].start_sector, entries[1].end_sector), (4096, 8191));
    // an entry with no type is unused
    table[128..128 + 16].copy_from_slice(&[0u8; 16]);
    assert_eq!(parse_gpt_entries(&table, 2, 128).len(), 1);
    let p = Partition::GPTPartition(GPTPartitionEntry {
        partition_type_guid: Uuid::from_bytes(&ESP_GUID, 0),
        unique_partition_guid: Uuid::from_bytes(&[0u8; 16], 0),
        start_sector: 2048,
        end_sector: 4095,
        attributes: 0,
        partition_name: vec![],
    });
    assert_eq!(p.read(0, 1), Ok(2048));
    assert_eq!(p.read(2047, 0), Ok(4095));
    assert_eq!(p.read(2047, 1), Err(()));
}

#[test]
fn mbr_partitions() {
    let mut sector = vec![0u8; 512];
    let e = 446;
    sector[e] = 0x80;
    sector[e + 4] = 0x0C;
    sector[e + 8..e + 12].copy_from_slice(&2048u32.to_le_bytes());
    sector[e + 12..e + 16].copy_from_slice(&1000u32.to_le_bytes());
    sector[510] = 0x55;
    sector[511] = 0xAA;
    let mbr = MBR::from_bytes(&sector);
    assert_eq!(mbr.signature, vec![0x55, 0xAA]);
    let parts = mbr.partitions();
    assert_eq!(MBR::from_bytes(&sector[440..]).partitions().len(), 1);
    assert_eq!(parts.len(), 1);
    assert_eq!(parts[0].boot_indicator, 0x80);
    assert_eq!(parts[0].partition_type, 0x0C);
    assert_eq!(parts[0].partition_start_lba, 2048);
    let p = Partition::MBRPartition(MBRPartition::from_entry(&sector[e..e + 16]));
    assert_eq!(p.read(10, 5), Ok(2058));
    assert_eq!(p.read(999, 2), Err(()));
    assert!(all_zero(&[0, 0, 0]));
    assert!(!all_zero(&[0, 1]));
}

#[test]
fn gpt_headers() {
    let mut s = vec![0u8; 512];
    s[..8].copy_from_slice(b"EFI PART");
    s[0x48..0x50].copy_from_slice(&2u64.to_le_bytes());
    s[0x50..0x54].copy_from_slice(&128u32.to_le_bytes());
    s[0x54..0x58].copy_from_slice(&128u32.to_le_bytes());
    let h = GPTHeader::new(&s);
    assert_eq!(h.guid_lba, 2);
    assert_eq!(h.partition_entry_count, 128);
    assert_eq!(h.partition_entry_size, 128);
    let b = GPTBlock::new(&s);
    assert_eq!(b.header, b"EFI PART".to_vec());
    assert_eq!(b.partition_entry_count, 128);
}

#[test]
fn framebuffer_cells() {
    let fb = Framebuffer::new(32, 4096, 0xFD00_0000, 1024, 768);
    assert_eq!(fb.width, 1024);
    let mut screen = vec![7u32; 1024 * 768 + 5];
    fill_screen(0xAA, fb, &mut screen);
    assert!(screen[..1024 * 768].iter().all(|p| *p == 0xAA));
    assert_eq!(&screen[1024 * 768..], &[7u32; 5]);
    let mut font: Vec<Vec<u8>> = vec![vec![0u8; 16]; 256];
    font[b'A' as usize][0] = 0b1000_0001;
    let rows = put_char('A', 2, 1, 0xFFFFFF, 0x000000, 4096, 32, &font);
    assert_eq!(rows.len(), 16);
    assert_eq!(rows[0].offset, 16 * 4096 + 2 * 8 * 4);
    assert_eq!(rows[0].pixels, vec![0xFFFFFF, 0, 0, 0, 0, 0, 0, 0xFFFFFF]);
    assert_eq!(rows[1].pixels, vec![0u32; 8]);
    // a character past the font is drawn as a red question mark
    font[b'?' as usize][3] = 0xFF;
    let rows = put_char('Ω', 0, 0, 0xFFFFFF, 0, 4096, 32, &font);
    assert_eq!(rows[3].pixels, vec![0xFF0000u32; 8]);
    assert_eq!(rows[3].offset, 3 * 4096);
}

#[test]
fn psf_fonts() {
    let mut data = vec![0u8; 32 + 2 * 16];
    data[..4].copy_from_slice(&0x72B54A86u32.to_be_bytes());
    data[16..20].copy_from_slice(&2u32.to_le_bytes());
    data[20..24].copy_from_slice(&16u32.to_le_bytes());
    data[24..28].copy_from_slice(&16u32.to_le_bytes());
    data[28..32].copy_from_slice(&8u32.to_le_bytes());
    data[32 + 16] = 0xAA;
    let f = PSFFont::from_file_data(data).unwrap();
    assert_eq!(f.header.length, 2);
    assert_eq!(f.header.width, 8);
    assert_eq!(f.data.len(), 2);
    assert_eq!(f.data[1][0], 0xAA);
    assert!(PSFFont::from_file_data(vec![0u8; 32]).is_err());
}

#[test]
fn vga_mode_program() {
    let mut regs = vec![0u8; 61];
    regs[0] = 0xE7;
    regs[6 + 3] = 0x02;
    regs[6 + 0x11] = 0xFF;
    let ops = write_regs(&mut regs);
    // the CRT controller stays unlocked
    assert_eq!(regs[9], 0x82);
    assert_eq!(regs[23], 0x7F);
    assert_eq!(ops.len(), 1 + 2 * 5 + 4 + 2 * 25 + 2 * 9 + 2 * 21 + 2);
    assert_eq!(ops[0], VgaOp::Out(0x3C2, 0xE7));
    assert_eq!(ops[1], VgaOp::Out(0x3C4, 0));
    assert_eq!(&ops[11..15], &[VgaOp::Out(0x3D4, 3), VgaOp::ReadOr(0x3D5, 0x80), VgaOp::Out(0x3D4, 0x11), VgaOp::ReadAnd(0x3D5, 0x7F)]);
    assert_eq!(ops[15 + 2 * 3 + 1], VgaOp::Out(0x3D5, 0x82));
    assert_eq!(&ops[ops.len() - 2..], &[VgaOp::Read(0x3DA), VgaOp::Out(0x3C0, 0x20)]);
    assert_eq!(set_plane(6), vec![VgaOp::Out(0x3CE, 4), VgaOp::Out(0x3CF, 2), VgaOp::Out(0x3C4, 2), VgaOp::Out(0x3C5, 4)]);
    let px = put_pixel(9, 1, 5);
    assert_eq!(px.len(), 20);
    assert_eq!(px[4], VgaOp::MemOr(91, 0x40));
    assert_eq!(px[9], VgaOp::MemAnd(91, !0x40));
    assert_eq!(px[14], VgaOp::MemOr(91, 0x40));
    assert_eq!(px[19], VgaOp::MemAnd(91, !0x40));
    let all = init_vga();
    assert_eq!(all.len(), 127 + 40);
    assert_eq!(all[127 + 4], VgaOp::MemOr(0, 0x80));
    assert_eq!(all[127 + 24], VgaOp::MemOr(0, 0x40));
}

#[test]
fn scrolling_moves_the_screen_up_a_line() {
    let mut buf: Vec<u32> = (0..90).collect();
    scroll_buffer(&mut buf, 4, 20);
    let expected: Vec<u32> = (64..80).chain(std::iter::repeat(0).take(64)).chain(80..90).collect();
    assert_eq!(buf, expected);
    let mut words = vec![1u32; 6];
    memset32(&mut words, 2, 9, 3);
    assert_eq!(words, vec![1, 1, 9, 9, 9, 1]);
}

#[test]
fn legacy_ide_reads() {
    let d = Drive::new(0x1F0, 0x3F6);
    let (select, rest) = d.read(0xA0, 0x0123_4567, 2);
    assert_eq!(select, PortWrite::Byte(0x1F6, 0xC1));
    assert_eq!(
        rest,
        vec![
            PortWrite::Word(0x1F2, 2),
            PortWrite::Byte(0x1F3, 0x67),
            PortWrite::Byte(0x1F4, 0x45),
            PortWrite::Byte(0x1F5, 0x23),
            PortWrite::Byte(0x1F9, 0),
            PortWrite::Byte(0x1FA, 0),
            PortWrite::Byte(0x1FB, 0),
            PortWrite::Byte(0x1F7, 0x20),
        ]
    );
    let (select, rest) = d.read(0xB0, 0x1234_5678, 1);
    assert_eq!(select, PortWrite::Byte(0x1F6, 0xD2));
    assert_eq!(rest[4], PortWrite::Byte(0x1F9, 0x12));
    assert_eq!(rest[7], PortWrite::Byte(0x1F7, 0x24));
    let mut identify = vec![0u16; 256];
    identify[100] = 0x5678;
    identify[101] = 0x1234;
    identify[103] = 0x0001;
    assert_eq!(Drive::sectors(&identify), 0x0001_0000_1234_5678);
}

#[test]
fn serial_strings_go_out_as_they_are() {
    let w = cappuccinos::drivers::serial::write_string("a\nb");
    assert_eq!(w, vec![PortWrite::Byte(0x3f8, b'a'), PortWrite::Byte(0x3f8, b'\n'), PortWrite::Byte(0x3f8, b'b')]);
    assert!(cappuccinos::drivers::serial::write_string("").is_empty());
}

#[test]
fn uuid_text_form() {
    let u = Uuid::from_bytes(&ESP_GUID, 0);
    assert_eq!(u.to_string(), "C12A7328-F81F-11D2-BA4B00A0C93EC93B");
    let z = Uuid::from_bytes(&[0u8; 16], 0);
    assert_eq!(z.to_string(), "0-0-0-0000000000000000");
}

#[test]
fn legacy_ide_status_bytes() {
    use_status(0x08, cappuccinos::drivers::ide::ATADriveStatus::DataReqReady);
    use_status(0x80, cappuccinos::drivers::ide::ATADriveStatus::Busy);
    use_status(0x88, cappuccinos::drivers::ide::ATADriveStatus::NotPresent);
}

fn use_status(b: u8, s: cappuccinos::drivers::ide::ATADriveStatus) {
    assert_eq!(cappuccinos::drivers::ide::ATADriveStatus::from_raw(b), s);
}

#[test]
fn pci_bus_walk_decisions() {
    let absent = [0xFFFFu16; 8];
    assert!(check_device(&absent, 0x80).is_empty());
    let mut ids = [0xFFFFu16; 8];
    ids[0] = 0x8086;
    ids[3] = 0x8086;
    assert_eq!(check_device(&ids, 0x00), vec![0]);
    assert_eq!(check_device(&ids, 0x80), vec![0, 3]);
    assert!(check_function(0x06, 0x04));
    assert!(!check_function(0x06, 0x00));
    assert_eq!(enumerate_pci_bus(0x00, &ids), vec![0]);
    // with several host controllers, the buses before the first present function
    let mut later = [0xFFFFu16; 8];
    later[2] = 0x1234;
    assert_eq!(enumerate_pci_bus(0x80, &later), vec![0, 1]);
    assert_eq!(enumerate_pci_bus(0x80, &absent), vec![0, 1, 2, 3, 4, 5, 6, 7]);
}

#[test]
fn table_checksums_and_pixels() {
    let mut t = vec![0u8; 40];
    t[..4].copy_from_slice(b"APIC");
    t[4..8].copy_from_slice(&36u32.to_le_bytes());
    let sum = t[..36].iter().fold(0u8, |s, x| s.wrapping_add(*x));
    t[9] = 0u8.wrapping_sub(sum);
    t[39] = 0x55;
    // only the bytes the length counts are summed
    assert!(check_rsdt_checksum(&t));
    t[10] = 1;
    assert!(!check_rsdt_checksum(&t));
    let fb = Framebuffer::new(32, 40, 0, 10, 4);
    let mut screen = vec![0u32; 40];
    cappuccinos::drivers::video::put_pixel(3, 2, 0xABCDEF, fb, &mut screen);
    assert_eq!(screen[2 * 10 + 3], 0xABCDEF);
    assert_eq!(screen.iter().filter(|p| **p != 0).count(), 1);
}

#[test]
fn probing_a_gpt_disk() {
    let (state, action) = probe_start();
    assert_eq!(state, ProbeState::ReadMbr);
    assert!(matches!(action, ProbeAction::Read { sector: 0, count: 1 }));
    let mut mbr = vec![0u8; 512];
    let (state, action) = probe_step(state, &mbr);
    assert_eq!(state, ProbeState::Done);
    assert!(matches!(action, ProbeAction::Halt(ProbeError::NotMbr)));
    mbr[510] = 0x55;
    mbr[511] = 0xAA;
    let (state, action) = probe_step(ProbeState::ReadMbr, &mbr);
    assert_eq!(state, ProbeState::ReadGpt);
    assert!(matches!(action, ProbeAction::Read { sector: 1, count: 1 }));
    let mut gpt = vec![0u8; 512];
    assert!(matches!(probe_step(state, &gpt).1, ProbeAction::Halt(ProbeError::MbrUnsupported)));
    gpt[..8].copy_from_slice(b"EFI PART");
    gpt[0x50..0x54].copy_from_slice(&4u32.to_le_bytes());
    gpt[0x54..0x58].copy_from_slice(&128u32.to_le_bytes());
    let (state, action) = probe_step(ProbeState::ReadGpt, &gpt);
    assert_eq!(state, ProbeState::ReadTable { entry_count: 4, entry_size: 128 });
    assert!(matches!(action, ProbeAction::Read { sector: 2, count: 1 }));
    let mut table = vec![0u8; 512];
    table[..16].copy_from_slice(&ESP_GUID);
    table[32..40].copy_from_slice(&2048u64.to_le_bytes());
    table[40..48].copy_from_slice(&4095u64.to_le_bytes());
    match probe_step(state, &table) {
        (ProbeState::Done, ProbeAction::Found(v)) => {
            assert_eq!(v.len(), 1);
            assert_eq!((v[0].start_sector, v[0].end_sector), (2048, 4095));
        }
        _ => panic!("the table holds one partition"),
    }
    // a table shorter than its entries
    assert!(matches!(probe_step(state, &table[..300]).1, ProbeAction::Halt(ProbeError::TableTooShort)));
    // an entry count and size whose product does not fit in 32 bits
    gpt[0x50..0x54].copy_from_slice(&0x10000u32.to_le_bytes());
    gpt[0x54..0x58].copy_from_slice(&0x10000u32.to_le_bytes());
    assert!(matches!(probe_step(ProbeState::ReadGpt, &gpt).1, ProbeAction::Halt(ProbeError::TableTooLarge)));
}

#[test]
fn table_entries_must_fit() {
    let mut table = vec![0u8; 144];
    assert!(entries_fit(&table, 2, 128));
    table[128] = 1;
    assert!(!entries_fit(&table, 2, 128));
    assert!(!entries_fit(&table, 3, 128));
}

#[test]
fn identify_answers_are_kept_per_drive() {
    let mut ids = vec![vec![0u16; 256], vec![0u16; 256]];
    let words: Vec<u16> = (0..256).map(|i| i as u16).collect();
    // no drive: a status of zero
    assert!(Drive::identify_answer(&mut ids, 0xA0, 0, Ok(()), words.clone()).is_err());
    assert_eq!(ids, vec![vec![0u16; 256], vec![0u16; 256]]);
    // an error while waiting
    assert!(Drive::identify_answer(&mut ids, 0xA0, 0x50, Err(()), words.clone()).is_err());
    assert_eq!(ids, vec![vec![0u16; 256], vec![0u16; 256]]);
    assert!(Drive::identify_answer(&mut ids, 0xA1, 0x58, Ok(()), words.clone()).is_ok());
    assert_eq!(ids[1], words);
    assert_eq!(ids[0], vec![0u16; 256]);
}
