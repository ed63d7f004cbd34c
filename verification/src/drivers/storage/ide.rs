//! The ATA disks on the IDE bus: the port writes that command them, the
//! tests of their status bytes, and the reading of their partition tables.
use vstd::prelude::*;
use crate::arch::port::PortWrite;
use crate::bytes::{le16, le32, le64, read_u16_le, read_u32_le, read_u64_le, copy_range};
use super::drive::GPTPartitionEntry;
use super::zero_bytes;

verus! {

/// The bytes of a sector.
pub const ATA_SECTOR_SIZE: usize = 512;

/// Status bit: the last command failed.
pub const STATUS_ERROR: u8 = 0x01;
/// Status bit: the drive wants to move data.
pub const STATUS_DATA_REQUEST: u8 = 0x08;
/// Status bit: a write fault.
pub const STATUS_WRITE_FAULT: u8 = 0x20;
/// Status bit: the drive is busy.
pub const STATUS_BUSY: u8 = 0x80;

/// The command that reads sectors by 28-bit address.
pub const CMD_READ_PIO: u8 = 0x20;
/// The command that reads sectors by 48-bit address.
pub const CMD_READ_PIO_EXT: u8 = 0x24;
/// The command that asks a drive to identify itself.
pub const CMD_IDENTIFY: u8 = 0xEC;

/// The two drives of a bus.
#[derive(Clone, Copy, Debug, PartialEq, Eq, Structural)]
pub enum ATADriveType {
    Parent,
    Child,
}

/// The drive-select bit of a drive: clear for the first, bit 4 for the
/// second.
pub open spec fn drive_bit(d: ATADriveType) -> u8 {
    match d {
        ATADriveType::Parent => 0x00,
        ATADriveType::Child => 0x10,
    }
}

impl ATADriveType {
    /// The drive-select bit.
    pub fn bits(self) -> (r: u8)
        ensures
            r == drive_bit(self),
    {
        match self {
            ATADriveType::Parent => 0x00,
            ATADriveType::Child => 0x10,
        }
    }
}

/// The kinds of device that answer on the bus.
#[derive(Clone, Copy, Debug, PartialEq, Eq, Structural)]
pub enum IDEDriveType {
    Pata,
    PataPi,
    Sata,
    SataPi,
}

impl IDEDriveType {
    /// The kind of device the LBA mid and high ports name after an
    /// identify command, before its answer is read.
    pub fn from_lba(lba_mid: u8, lba_high: u8) -> (r: Option<IDEDriveType>)
        ensures
            r == (if lba_mid == 0x00 && lba_high == 0x00 {
                Some(IDEDriveType::Pata)
            } else if lba_mid == 0x14 && lba_high == 0xEB {
                Some(IDEDriveType::PataPi)
            } else if lba_mid == 0x3C && lba_high == 0xC3 {
                Some(IDEDriveType::Sata)
            } else if lba_mid == 0x69 && lba_high == 0x96 {
                Some(IDEDriveType::SataPi)
            } else {
                None
            }),
    {
        match (lba_mid, lba_high) {
            (0x00, 0x00) => Some(IDEDriveType::Pata),
            (0x14, 0xEB) => Some(IDEDriveType::PataPi),
            (0x3C, 0xC3) => Some(IDEDriveType::Sata),
            (0x69, 0x96) => Some(IDEDriveType::SataPi),
            _ => None,
        }
    }
}

/// What one status byte says while waiting for a drive to be ready for
/// data: `Some(Err)` on an error or write fault, `Some(Ok)` when it asks
/// for data and is not busy, `None` to keep waiting.
pub open spec fn ready_step(status: u8) -> Option<Result<(), ()>> {
    if status & STATUS_ERROR != 0 || status & STATUS_WRITE_FAULT != 0 {
        Some(Err(()))
    } else if status & STATUS_BUSY != 0 {
        None
    } else if status & STATUS_DATA_REQUEST != 0 {
        Some(Ok(()))
    } else {
        None
    }
}

/// One step of waiting for a drive to be ready for data.
pub fn wait_for_drive_ready(status: u8) -> (r: Option<Result<(), ()>>)
    ensures
        r == ready_step(status),
{
    if status & STATUS_ERROR != 0 || status & STATUS_WRITE_FAULT != 0 {
        return Some(Err(()));
    }
    if status & STATUS_BUSY != 0 {
        return None;
    }
    if status & STATUS_DATA_REQUEST != 0 {
        return Some(Ok(()));
    }
    None
}

/// An IDE bus: its command block and control ports.
#[derive(Clone, Copy, Debug, PartialEq, Eq, Structural)]
pub struct ATABus {
    pub io_bar: u16,
    pub control_bar: u16,
}

/// The register `reg` of the bus's command block.
pub open spec fn reg(bus: ATABus, r: u16) -> u16 {
    (bus.io_bar + r) as u16
}

/// The writes that program a read of `sector_count` sectors from `sector`
/// on drive `drive`: by 48-bit address from sector 2^28 - 1 on, high bytes
/// first, else by 28-bit address with the top four bits in the select byte.
/// The 48-bit form writes the address's low three bytes in the order the
/// kernel has them: bits 16, 8 and 0 to LBA0, LBA1 and LBA2.
pub open spec fn read_command(bus: ATABus, drive: ATADriveType, sector: u64, sector_count: usize) -> Seq<PortWrite> {
    if sector >= 0x0FFF_FFFF {
        seq![
            PortWrite::Byte(reg(bus, 6), 0x40 | drive_bit(drive)),
            PortWrite::Byte(reg(bus, 2), (sector_count >> 8usize) as u8),
            PortWrite::Byte(reg(bus, 3), (sector >> 24u64) as u8),
            PortWrite::Byte(reg(bus, 4), (sector >> 32u64) as u8),
            PortWrite::Byte(reg(bus, 5), (sector >> 40u64) as u8),
            PortWrite::Byte(reg(bus, 2), sector_count as u8),
            PortWrite::Byte(reg(bus, 3), (sector >> 16u64) as u8),
            PortWrite::Byte(reg(bus, 4), (sector >> 8u64) as u8),
            PortWrite::Byte(reg(bus, 5), sector as u8),
            PortWrite::Byte(reg(bus, 7), CMD_READ_PIO_EXT),
        ]
    } else {
        seq![
            PortWrite::Byte(reg(bus, 6), 0xE0 | drive_bit(drive) | ((sector >> 24u64) as u8 & 0x0F)),
            PortWrite::Byte(reg(bus, 2), sector_count as u8),
            PortWrite::Byte(reg(bus, 3), sector as u8),
            PortWrite::Byte(reg(bus, 4), (sector >> 8u64) as u8),
            PortWrite::Byte(reg(bus, 5), (sector >> 16u64) as u8),
            PortWrite::Byte(reg(bus, 7), CMD_READ_PIO),
        ]
    }
}

impl ATABus {
    /// The bus with the given ports, their low two bits cleared.
    pub fn new(io_bar: u16, control_bar: u16) -> (r: ATABus)
        ensures
            r.io_bar == io_bar & 0xFFFC,
            r.control_bar == control_bar & 0xFFFC,
    {
        ATABus { io_bar: io_bar & 0xFFFC, control_bar: control_bar & 0xFFFC }
    }

    /// Whether every register this driver uses has a port number.
    pub open spec fn wf(&self) -> bool {
        self.io_bar + 7 <= 0xFFFF && self.control_bar + 2 <= 0xFFFF
    }

    /// Selects drive `drive` (the whole select byte).
    pub fn select(&self, drive: u8) -> (r: PortWrite)
        requires
            self.wf(),
        ensures
            r == PortWrite::Byte(reg(*self, 6), drive),
    {
        PortWrite::Byte(self.io_bar + 6, drive)
    }

    /// Sends `command` to the selected drive.
    pub fn send_command(&self, command: u8) -> (r: PortWrite)
        requires
            self.wf(),
        ensures
            r == PortWrite::Byte(reg(*self, 7), command),
    {
        PortWrite::Byte(self.io_bar + 7, command)
    }

    /// The ports a status read goes through: the alternate status port,
    /// read four times to let 400ns pass, then the status port, whose byte
    /// is the status.
    pub fn status(&self) -> (r: (u16, u16))
        requires
            self.wf(),
        ensures
            r == ((self.control_bar + 2) as u16, reg(*self, 7)),
    {
        (self.control_bar + 2, self.io_bar + 7)
    }

    /// Whether the status byte `status` says the bus is busy: the caller
    /// waits while this holds.
    pub fn await_busy(status: u8) -> (r: bool)
        ensures
            r == (status & STATUS_BUSY != 0),
    {
        status & STATUS_BUSY != 0
    }

    /// The writes that ask drive `drive` to identify itself: select it,
    /// clear the sector count and address, send the command. A status of
    /// zero afterwards means no drive.
    pub fn identify(&self, drive: ATADriveType) -> (r: Vec<PortWrite>)
        requires
            self.wf(),
        ensures
            r@ == seq![
                PortWrite::Byte(reg(*self, 6), 0xA0 | drive_bit(drive)),
                PortWrite::Byte(reg(*self, 2), 0),
                PortWrite::Byte(reg(*self, 3), 0),
                PortWrite::Byte(reg(*self, 4), 0),
                PortWrite::Byte(reg(*self, 5), 0),
                PortWrite::Byte(reg(*self, 7), CMD_IDENTIFY),
            ],
    {
        let mut r: Vec<PortWrite> = Vec::new();
        r.push(self.select(0xA0 | drive.bits()));
        r.push(PortWrite::Byte(self.io_bar + 2, 0));
        r.push(PortWrite::Byte(self.io_bar + 3, 0));
        r.push(PortWrite::Byte(self.io_bar + 4, 0));
        r.push(PortWrite::Byte(self.io_bar + 5, 0));
        r.push(self.send_command(CMD_IDENTIFY));
        r
    }

    /// The writes that start reading `sector_count` sectors from `sector`
    /// of drive `drive`, once the bus is not busy; each sector is then read
    /// from the data port once the drive is ready.
    pub fn read(&self, drive: ATADriveType, sector: u64, sector_count: usize) -> (r: Vec<PortWrite>)
        requires
            self.wf(),
        ensures
            r@ == read_command(*self, drive, sector, sector_count),
    {
        let mut r: Vec<PortWrite> = Vec::new();
        let d = drive.bits();
        if sector >= 0x0FFF_FFFF {
            r.push(self.select(0x40 | d));
            r.push(PortWrite::Byte(self.io_bar + 2, (sector_count >> 8) as u8));
            r.push(PortWrite::Byte(self.io_bar + 3, (sector >> 24) as u8));
            r.push(PortWrite::Byte(self.io_bar + 4, (sector >> 32) as u8));
            r.push(PortWrite::Byte(self.io_bar + 5, (sector >> 40) as u8));
            r.push(PortWrite::Byte(self.io_bar + 2, sector_count as u8));
            r.push(PortWrite::Byte(self.io_bar + 3, (sector >> 16) as u8));
            r.push(PortWrite::Byte(self.io_bar + 4, (sector >> 8) as u8));
            r.push(PortWrite::Byte(self.io_bar + 5, sector as u8));
            r.push(self.send_command(CMD_READ_PIO_EXT));
        } else {
            r.push(self.select(0xE0 | d | ((sector >> 24) as u8 & 0x0F)));
            r.push(PortWrite::Byte(self.io_bar + 2, sector_count as u8));
            r.push(PortWrite::Byte(self.io_bar + 3, sector as u8));
            r.push(PortWrite::Byte(self.io_bar + 4, (sector >> 8) as u8));
            r.push(PortWrite::Byte(self.io_bar + 5, (sector >> 16) as u8));
            r.push(self.send_command(CMD_READ_PIO));
        }
        r
    }

    /// The writes that reset the bus's drives: set the reset bit, then,
    /// after ten status reads, clear it. They go to the command block's
    /// register 2, where this kernel sends them.
    pub fn software_reset(&self) -> (r: (PortWrite, PortWrite))
        requires
            self.wf(),
        ensures
            r == (PortWrite::Byte(reg(*self, 2), 0x04), PortWrite::Byte(reg(*self, 2), 0x00)),
    {
        (PortWrite::Byte(self.io_bar + 2, 0x04), PortWrite::Byte(self.io_bar + 2, 0x00))
    }
}

/// A drive that identified itself: its bus, its 512-byte identify answer
/// and which of the bus's two it is.
pub struct ATADrive {
    pub bus: ATABus,
    pub identify_data: Vec<u8>,
    pub drive_type: ATADriveType,
}

/// Whether an identify answer says the drive addresses sectors by LBA: bit
/// 9 of its capabilities word at byte 98.
pub open spec fn supports_lba(identify: Seq<u8>) -> bool {
    le16(identify, 98) & 0x200 != 0
}

impl ATADrive {
    /// Takes drive `drive` of `bus`, which answered identify with
    /// `identify_data`: refused unless it addresses sectors by LBA.
    pub fn new(bus: ATABus, drive: ATADriveType, identify_data: Vec<u8>) -> (r: Result<ATADrive, ()>)
        requires
            identify_data@.len() == ATA_SECTOR_SIZE,
        ensures
            r is Ok <==> supports_lba(identify_data@),
            r matches Ok(d) ==> d.bus == bus && d.drive_type == drive && d.identify_data@ == identify_data@,
    {
        let capabilities = read_u16_le(identify_data.as_slice(), 98);
        if capabilities & 0x200 == 0 {
            return Err(());
        }
        Ok(ATADrive { bus, identify_data, drive_type: drive })
    }

    /// The drive's sectors: the 32-bit count at byte 120 of its identify
    /// answer.
    pub fn sector_count(&self) -> (r: u64)
        requires
            self.identify_data@.len() == ATA_SECTOR_SIZE,
        ensures
            r == le32(self.identify_data@, 120),
    {
        read_u32_le(self.identify_data.as_slice(), 120) as u64
    }

    /// Starts reading `sector_count` sectors from `sector`: refused past
    /// the drive's end; else the bus reset, then the read command.
    pub fn read(&self, sector: u64, sector_count: usize) -> (r: Result<((PortWrite, PortWrite), Vec<PortWrite>), ()>)
        requires
            self.identify_data@.len() == ATA_SECTOR_SIZE,
            self.bus.wf(),
            sector + sector_count <= u64::MAX,
        ensures
            r is Err <==> sector + sector_count > le32(self.identify_data@, 120),
            r matches Ok((reset, command)) ==> reset == (PortWrite::Byte(reg(self.bus, 2), 0x04), PortWrite::Byte(reg(self.bus, 2), 0x00))
                && command@ == read_command(self.bus, self.drive_type, sector, sector_count),
    {
        if sector + sector_count as u64 > self.sector_count() {
            return Err(());
        }
        let reset = self.bus.software_reset();
        Ok((reset, self.bus.read(self.drive_type, sector, sector_count)))
    }
}

/// Whether the first sector ends with the boot signature 0xAA55.
pub fn mbr_signature_ok(sector: &[u8]) -> (r: bool)
    requires
        sector@.len() == ATA_SECTOR_SIZE,
    ensures
        r == (le16(sector@, 510) == 0xAA55),
{
    read_u16_le(sector, 510) == 0xAA55
}

/// The signature a GPT header starts with.
pub open spec fn efi_part() -> Seq<u8> {
    seq![0x45u8, 0x46, 0x49, 0x20, 0x50, 0x41, 0x52, 0x54]
}

/// Whether the second sector starts with "EFI PART".
pub fn gpt_signature_ok(sector: &[u8]) -> (r: bool)
    requires
        sector@.len() == ATA_SECTOR_SIZE,
    ensures
        r == (sector@.subrange(0, 8) == efi_part()),
{
    let sig: [u8; 8] = [0x45, 0x46, 0x49, 0x20, 0x50, 0x41, 0x52, 0x54];
    let mut i: usize = 0;
    while i < 8
        invariant
            0 <= i <= 8,
            sector@.len() == ATA_SECTOR_SIZE,
            sig@ == efi_part(),
            forall|k: int| 0 <= k < i ==> sector@[k] == efi_part()[k],
        decreases 8 - i,
    {
        if sector[i] != sig[i] {
            proof {
                assert(sector@.subrange(0, 8)[i as int] != efi_part()[i as int]);
            }
            return false;
        }
        i = i + 1;
    }
    proof {
        assert(sector@.subrange(0, 8) =~= efi_part());
    }
    true
}

/// The sectors the partition table is read from: the entries' bytes,
/// divided into whole sectors.
pub fn partition_table_sectors(entry_count: u32, entry_size: u32) -> (r: usize)
    requires
        entry_count * entry_size <= u32::MAX,
    ensures
        r == (entry_count * entry_size) / 512,
{
    ((entry_count * entry_size) as usize) / ATA_SECTOR_SIZE
}

/// The entry at `off` of a partition table.
pub open spec fn gpt_entry_at(table: Seq<u8>, off: int) -> (Seq<u8>, u64, u64) {
    (table.subrange(off, off + 16), le64(table, off + 32), le64(table, off + 40))
}

/// The partitions the first `n` entries of a table hold, in order: the
/// entries whose type is all zeros are unused.
pub open spec fn gpt_entries(table: Seq<u8>, entry_size: nat, n: nat) -> Seq<(Seq<u8>, u64, u64)>
    decreases n,
{
    if n == 0 {
        Seq::empty()
    } else {
        let prev = gpt_entries(table, entry_size, (n - 1) as nat);
        let off = (n - 1) * entry_size;
        if zero_bytes(table.subrange(off, off + 16)) { prev } else { prev.push(gpt_entry_at(table, off)) }
    }
}

/// An entry's fields as plain values.
pub open spec fn entry_view(e: GPTPartitionEntry) -> (Seq<u8>, u64, u64) {
    (e.partition_type_guid@, e.start_sector, e.end_sector)
}

/// Whether each of the first `n` entries of a table lies inside it: its
/// type always, its sectors where the type is not all zeros.
pub open spec fn entries_in_bounds(table: Seq<u8>, entry_size: nat, n: nat) -> bool {
    forall|i: int| #![trigger (i * entry_size)] 0 <= i < n ==> {
        &&& i * entry_size + 16 <= table.len()
        &&& !zero_bytes(table.subrange(i * entry_size, i * entry_size + 16)) ==> i * entry_size + 48 <= table.len()
    }
}

/// Reads the partitions in use from the partition table `table`, which
/// holds `entry_count` entries of `entry_size` bytes.
pub fn parse_gpt_entries(table: &[u8], entry_count: u32, entry_size: u32) -> (r: Vec<GPTPartitionEntry>)
    requires
        entry_count * entry_size <= u32::MAX,
        entries_in_bounds(table@, entry_size as nat, entry_count as nat),
    ensures
        r@.map_values(|e: GPTPartitionEntry| entry_view(e)) == gpt_entries(table@, entry_size as nat, entry_count as nat),
{
    let mut partitions: Vec<GPTPartitionEntry> = Vec::new();
    let mut i: u32 = 0;
    let n = table.len();
    while i < entry_count
        invariant
            0 <= i <= entry_count,
            n == table@.len(),
            entry_count * entry_size <= u32::MAX,
            entries_in_bounds(table@, entry_size as nat, entry_count as nat),
            partitions@.map_values(|e: GPTPartitionEntry| entry_view(e)) == gpt_entries(table@, entry_size as nat, i as nat),
        decreases entry_count - i,
    {
        proof {
            assert(i * entry_size <= (entry_count - 1) * entry_size && (entry_count - 1) * entry_size <= entry_count * entry_size) by (nonlinear_arith)
                requires i <= entry_count - 1, entry_count >= 1;
        }
        let entry_offset = (i * entry_size) as usize;
        assert(i * entry_size + 16 <= table@.len());
        let guid = copy_range(table, entry_offset, entry_offset + 16);
        let ghost before = partitions@.map_values(|e: GPTPartitionEntry| entry_view(e));
        if !super::all_zero(guid.as_slice()) {
            let start_sector = read_u64_le(table, entry_offset + 32);
            let end_sector = read_u64_le(table, entry_offset + 40);
            let e = GPTPartitionEntry { partition_type_guid: guid, start_sector, end_sector };
            partitions.push(e);
            proof {
                assert(partitions@.map_values(|e: GPTPartitionEntry| entry_view(e)) =~= before.push(entry_view(e)));
            }
        }
        proof {
            assert((i + 1 - 1) * entry_size == i * entry_size);
        }
        i = i + 1;
    }
    partitions
}

/// Whether each of the first `entry_count` entries of `table` lies inside
/// it, as reading them needs.
pub fn entries_fit(table: &[u8], entry_count: u32, entry_size: u32) -> (r: bool)
    requires
        entry_count * entry_size <= u32::MAX,
    ensures
        r == entries_in_bounds(table@, entry_size as nat, entry_count as nat),
{
    let n = table.len();
    let mut i: u32 = 0;
    while i < entry_count
        invariant
            0 <= i <= entry_count,
            n == table@.len(),
            entry_count * entry_size <= u32::MAX,
            entries_in_bounds(table@, entry_size as nat, i as nat),
        decreases entry_count - i,
    {
        proof {
            assert(i * entry_size <= (entry_count - 1) * entry_size && (entry_count - 1) * entry_size <= entry_count * entry_size) by (nonlinear_arith)
                requires i <= entry_count - 1, entry_count >= 1;
        }
        let off = (i * entry_size) as usize;
        if off as u64 + 16 > n as u64 {
            proof {
                assert(!(i * entry_size + 16 <= table@.len()));
            }
            return false;
        }
        let guid = copy_range(table, off, off + 16);
        if !super::all_zero(guid.as_slice()) && off as u64 + 48 > n as u64 {
            return false;
        }
        proof {
            assert forall|k: int| #![trigger (k * entry_size)] 0 <= k < i + 1 implies {
                &&& k * entry_size + 16 <= table@.len()
                &&& !zero_bytes(table@.subrange(k * entry_size, k * entry_size + 16)) ==> k * entry_size + 48 <= table@.len()
            } by {
                if k < i {
                    assert(entries_in_bounds(table@, entry_size as nat, i as nat));
                } else {
                    assert(k == i);
                }
            }
        }
        i = i + 1;
    }
    true
}

/// Where reading a drive's partitions stands: its first sector, its GPT
/// header, its partition table, or finished.
#[derive(Clone, Copy, Debug, PartialEq, Eq, Structural)]
pub enum ProbeState {
    ReadMbr,
    ReadGpt,
    ReadTable { entry_count: u32, entry_size: u32 },
    Done,
}

/// Why reading a drive's partitions stopped: no boot signature, no GPT
/// header, a table too large to count, or one shorter than its entries.
#[derive(Clone, Copy, Debug, PartialEq, Eq, Structural)]
pub enum ProbeError {
    NotMbr,
    MbrUnsupported,
    TableTooLarge,
    TableTooShort,
}

/// What to do next: read sectors and hand them back, or stop, with the
/// partitions found or the reason.
#[derive(Debug)]
pub enum ProbeAction {
    Read { sector: u64, count: usize },
    Found(Vec<GPTPartitionEntry>),
    Halt(ProbeError),
}

/// Whether a state can go on: a table's size fits in 32 bits.
pub open spec fn probe_state_ok(state: ProbeState) -> bool {
    match state {
        ProbeState::ReadTable { entry_count, entry_size } => entry_count * entry_size <= u32::MAX,
        ProbeState::Done => false,
        _ => true,
    }
}

/// Whether `a` reads `count` sectors from `sector`.
pub open spec fn reads(a: ProbeAction, sector: u64, count: usize) -> bool {
    a matches ProbeAction::Read { sector: s, count: c } && s == sector && c == count
}

/// Whether `a` stops for `e`.
pub open spec fn halts(a: ProbeAction, e: ProbeError) -> bool {
    a matches ProbeAction::Halt(x) && x == e
}

/// What one step does with the sectors `data` read in `state`: the first
/// sector must end with the boot signature, the second start with "EFI
/// PART"; its entry count and size give the table, read from sector 2; the
/// table gives the partitions in use.
pub open spec fn probe_next(state: ProbeState, data: Seq<u8>, next: ProbeState, a: ProbeAction) -> bool {
    match state {
        ProbeState::ReadMbr => if le16(data, 510) == 0xAA55 {
            next == ProbeState::ReadGpt && reads(a, 1, 1)
        } else {
            next == ProbeState::Done && halts(a, ProbeError::NotMbr)
        },
        ProbeState::ReadGpt => {
            let count = le32(data, 0x50);
            let size = le32(data, 0x54);
            if data.subrange(0, 8) != efi_part() {
                next == ProbeState::Done && halts(a, ProbeError::MbrUnsupported)
            } else if count * size > u32::MAX {
                next == ProbeState::Done && halts(a, ProbeError::TableTooLarge)
            } else {
                next == (ProbeState::ReadTable { entry_count: count as u32, entry_size: size as u32 })
                    && reads(a, 2, ((count * size) / 512) as usize)
            }
        },
        ProbeState::ReadTable { entry_count, entry_size } => {
            &&& next == ProbeState::Done
            &&& if entries_in_bounds(data, entry_size as nat, entry_count as nat) {
                a matches ProbeAction::Found(v)
                    && v@.map_values(|e: GPTPartitionEntry| entry_view(e)) == gpt_entries(data, entry_size as nat, entry_count as nat)
            } else {
                halts(a, ProbeError::TableTooShort)
            }
        },
        ProbeState::Done => false,
    }
}

/// Reading a drive's partitions starts with its first sector.
pub fn probe_start() -> (r: (ProbeState, ProbeAction))
    ensures
        r.0 == ProbeState::ReadMbr,
        reads(r.1, 0, 1),
{
    (ProbeState::ReadMbr, ProbeAction::Read { sector: 0, count: 1 })
}

/// One step of reading a drive's partitions: `data` is what the last read
/// gave back.
pub fn probe_step(state: ProbeState, data: &[u8]) -> (r: (ProbeState, ProbeAction))
    requires
        probe_state_ok(state),
        (state is ReadMbr || state is ReadGpt) ==> data@.len() == ATA_SECTOR_SIZE,
    ensures
        probe_next(state, data@, r.0, r.1),
        r.0 is Done || probe_state_ok(r.0),
{
    match state {
        ProbeState::ReadMbr => {
            if mbr_signature_ok(data) {
                (ProbeState::ReadGpt, ProbeAction::Read { sector: 1, count: 1 })
            } else {
                (ProbeState::Done, ProbeAction::Halt(ProbeError::NotMbr))
            }
        },
        ProbeState::ReadGpt => {
            if !gpt_signature_ok(data) {
                return (ProbeState::Done, ProbeAction::Halt(ProbeError::MbrUnsupported));
            }
            let count = read_u32_le(data, 0x50);
            let size = read_u32_le(data, 0x54);
            match count.checked_mul(size) {
                None => (ProbeState::Done, ProbeAction::Halt(ProbeError::TableTooLarge)),
                Some(_) => {
                    let sectors = partition_table_sectors(count, size);
                    (ProbeState::ReadTable { entry_count: count, entry_size: size }, ProbeAction::Read { sector: 2, count: sectors })
                },
            }
        },
        ProbeState::ReadTable { entry_count, entry_size } => {
            if entries_fit(data, entry_count, entry_size) {
                (ProbeState::Done, ProbeAction::Found(parse_gpt_entries(data, entry_count, entry_size)))
            } else {
                (ProbeState::Done, ProbeAction::Halt(ProbeError::TableTooShort))
            }
        },
        ProbeState::Done => (ProbeState::Done, ProbeAction::Halt(ProbeError::NotMbr)),
    }
}

} // verus!
