//! The first IDE driver: a drive reached through its command block ports.
use vstd::prelude::*;
use crate::arch::port::PortWrite;

verus! {

/// The command that asks a drive to identify itself.
pub const IDENTIFY: u8 = 0xEC;

/// What a status byte reads as, when it is exactly one of the status
/// bits; any other byte reads as no drive.
#[derive(Clone, Copy, Debug, PartialEq, Eq, Structural)]
pub enum ATADriveStatus {
    Error,
    Index,
    Corrupt,
    DataReqReady,
    DriveSeekDone,
    WriteFault,
    Ready,
    Busy,
    NotPresent,
}

/// The status the byte `value` reads as.
pub open spec fn status_of(value: u8) -> ATADriveStatus {
    if value == 0x01 { ATADriveStatus::Error }
    else if value == 0x02 { ATADriveStatus::Index }
    else if value == 0x04 { ATADriveStatus::Corrupt }
    else if value == 0x08 { ATADriveStatus::DataReqReady }
    else if value == 0x10 { ATADriveStatus::DriveSeekDone }
    else if value == 0x20 { ATADriveStatus::WriteFault }
    else if value == 0x40 { ATADriveStatus::Ready }
    else if value == 0x80 { ATADriveStatus::Busy }
    else { ATADriveStatus::NotPresent }
}

impl ATADriveStatus {
    /// Reads the status byte `value`.
    pub fn from_raw(value: u8) -> (r: ATADriveStatus)
        ensures
            r == status_of(value),
    {
        match value {
            0x01 => ATADriveStatus::Error,
            0x02 => ATADriveStatus::Index,
            0x04 => ATADriveStatus::Corrupt,
            0x08 => ATADriveStatus::DataReqReady,
            0x10 => ATADriveStatus::DriveSeekDone,
            0x20 => ATADriveStatus::WriteFault,
            0x40 => ATADriveStatus::Ready,
            0x80 => ATADriveStatus::Busy,
            _ => ATADriveStatus::NotPresent,
        }
    }
}

/// A drive's command block.
#[derive(Clone, Copy, Debug, PartialEq, Eq, Structural)]
pub struct Drive {
    pub io_port: u16,
    pub control_port: u16,
}

impl Drive {
    /// The drive behind the given ports.
    pub fn new(io_port: u16, control_port: u16) -> (r: Drive)
        ensures
            r == (Drive { io_port, control_port }),
    {
        Drive { io_port, control_port }
    }

    /// Whether every register this driver uses has a port number.
    pub open spec fn wf(&self) -> bool {
        self.io_port + 7 <= 0xFFFF
    }

    /// Selects drive `drive` (the whole select byte).
    pub fn select(&self, drive: u8) -> (r: PortWrite)
        requires
            self.wf(),
        ensures
            r == PortWrite::Byte((self.io_port + 6) as u16, drive),
    {
        PortWrite::Byte(self.io_port + 6, drive)
    }

    /// Sends `command`.
    pub fn send_command(&self, command: u8) -> (r: PortWrite)
        requires
            self.wf(),
        ensures
            r == PortWrite::Byte((self.io_port + 7) as u16, command),
    {
        PortWrite::Byte(self.io_port + 7, command)
    }

    /// The port whose byte is the drive's status.
    pub fn status(&self) -> (r: u16)
        requires
            self.wf(),
        ensures
            r == self.io_port + 7,
    {
        self.io_port + 7
    }

    /// Whether the status `status` says the drive is busy: the caller waits
    /// while this holds.
    pub fn await_busy(status: u16) -> (r: bool)
        ensures
            r == (status & 0x80 != 0),
    {
        status & 0x80 != 0
    }

    /// The writes that ask drive `drive` to identify itself: select it,
    /// clear the sector count and the two address bytes after it, send the
    /// command. A status of zero afterwards means no drive.
    pub fn identify(&self, drive: u8) -> (r: Vec<PortWrite>)
        requires
            self.wf(),
        ensures
            r@ == seq![
                PortWrite::Byte((self.io_port + 6) as u16, drive),
                PortWrite::Byte((self.io_port + 2) as u16, 0),
                PortWrite::Byte((self.io_port + 3) as u16, 0),
                PortWrite::Byte((self.io_port + 4) as u16, 0),
                PortWrite::Byte((self.io_port + 7) as u16, IDENTIFY),
            ],
    {
        let mut r: Vec<PortWrite> = Vec::new();
        r.push(self.select(drive));
        let mut i: u16 = 0;
        while i < 3
            invariant
                0 <= i <= 3,
                self.wf(),
                r@ == seq![PortWrite::Byte((self.io_port + 6) as u16, drive)]
                    + Seq::new(i as nat, |k: int| PortWrite::Byte((self.io_port + 2 + k) as u16, 0)),
            decreases 3 - i,
        {
            r.push(PortWrite::Byte((self.io_port + 2) + i, 0));
            proof {
                assert(r@ =~= seq![PortWrite::Byte((self.io_port + 6) as u16, drive)]
                    + Seq::new((i + 1) as nat, |k: int| PortWrite::Byte((self.io_port + 2 + k) as u16, 0)));
            }
            i = i + 1;
        }
        r.push(self.send_command(IDENTIFY));
        proof {
            assert(r@ =~= seq![
                PortWrite::Byte((self.io_port + 6) as u16, drive),
                PortWrite::Byte((self.io_port + 2) as u16, 0),
                PortWrite::Byte((self.io_port + 3) as u16, 0),
                PortWrite::Byte((self.io_port + 4) as u16, 0),
                PortWrite::Byte((self.io_port + 7) as u16, IDENTIFY),
            ]);
        }
        r
    }

    /// Whether a drive answered being selected: a status of 0xFF means the
    /// bus floats and nothing is there; otherwise the caller identifies it.
    pub fn is_present(status: u16) -> (r: bool)
        ensures
            r == (status != 0xFF),
    {
        status != 0xFF
    }

    /// The drive's sector count from the 256 words of its identify answer:
    /// the 64-bit value at word 100, low word first.
    pub fn sectors(identify: &[u16]) -> (r: u64)
        requires
            identify@.len() >= 104,
        ensures
            r == identify@[100] as u64 | (identify@[101] as u64) << 16u64 | (identify@[102] as u64) << 32u64
                | (identify@[103] as u64) << 48u64,
    {
        identify[100] as u64 | (identify[101] as u64) << 16u64 | (identify[102] as u64) << 32u64
            | (identify[103] as u64) << 48u64
    }

    /// Whether every register of the extended command block has a port
    /// number.
    pub open spec fn wf_ext(&self) -> bool {
        self.io_port + 0x0B <= 0xFFFF
    }

    /// The writes that read `sector_count` sectors from `sector` of drive
    /// `drive`: first the select byte (the drive's byte plus 0x20, with the
    /// address's bits 24 to 27), after which the caller waits while the drive
    /// is busy; then the sector count as a word and the address bytes, by
    /// 48-bit address from sector 2^28 - 1 on and by 28-bit address below,
    /// and the read command. The caller then waits for each sector to be
    /// ready and reads its 256 words from the data port.
    pub fn read(&self, drive: u8, sector: u64, sector_count: u16) -> (r: (PortWrite, Vec<PortWrite>))
        requires
            self.wf_ext(),
            drive <= 0xDF,
        ensures
            r.0 == PortWrite::Byte((self.io_port + 6) as u16, ((drive + 0x20) as u8) | (((sector >> 24u64) & 0x0F) as u8)),
            r.1@ == seq![
                PortWrite::Word((self.io_port + 2) as u16, sector_count),
                PortWrite::Byte((self.io_port + 3) as u16, sector as u8),
                PortWrite::Byte((self.io_port + 4) as u16, (sector >> 8u64) as u8),
                PortWrite::Byte((self.io_port + 5) as u16, (sector >> 16u64) as u8),
                PortWrite::Byte((self.io_port + 9) as u16, if sector >= 0x0FFF_FFFF { (sector >> 24u64) as u8 } else { 0 }),
                PortWrite::Byte((self.io_port + 10) as u16, 0),
                PortWrite::Byte((self.io_port + 11) as u16, 0),
                PortWrite::Byte((self.io_port + 7) as u16, if sector >= 0x0FFF_FFFF { 0x24u8 } else { 0x20u8 }),
            ],
    {
        let selector = (drive + 0x20) | ((sector >> 24) & 0x0F) as u8;
        let select = self.select(selector);
        let lba48 = sector >= 0x0FFF_FFFF;
        let mut w: Vec<PortWrite> = Vec::new();
        w.push(PortWrite::Word(self.io_port + 2, sector_count));
        w.push(PortWrite::Byte(self.io_port + 3, sector as u8));
        w.push(PortWrite::Byte(self.io_port + 4, (sector >> 8) as u8));
        w.push(PortWrite::Byte(self.io_port + 5, (sector >> 16) as u8));
        if lba48 {
            w.push(PortWrite::Byte(self.io_port + 9, (sector >> 24) as u8));
        } else {
            w.push(PortWrite::Byte(self.io_port + 9, 0));
        }
        w.push(PortWrite::Byte(self.io_port + 10, 0));
        w.push(PortWrite::Byte(self.io_port + 11, 0));
        if lba48 {
            w.push(self.send_command(0x24));
        } else {
            w.push(self.send_command(0x20));
        }
        (select, w)
    }
}

/// The identify answers kept, one row of 256 words for each of the two
/// drives of the bus.
pub open spec fn drive_ids_wf(ids: Seq<Vec<u16>>) -> bool {
    ids.len() == 2 && forall|k: int| 0 <= k < 2 ==> #[trigger] ids[k]@.len() == 256
}

impl Drive {
    /// Finishes identifying drive `drive` once its command went out: `status`
    /// is the status byte read right after it, `ready` how waiting for the
    /// drive to be ready for data ended (as `wait_for_drive_ready` steps it),
    /// and `words` the 256 words then read from the data port. A status of
    /// zero means no drive, and an error while waiting fails too; both leave
    /// `drive_ids` as it was. Otherwise the words become the row of `drive`
    /// (0xA0 the first, 0xA1 the second), the other row kept.
    pub fn identify_answer(drive_ids: &mut Vec<Vec<u16>>, drive: u8, status: u8, ready: Result<(), ()>, words: Vec<u16>) -> (r: Result<(), ()>)
        requires
            drive_ids_wf(old(drive_ids)@),
            words@.len() == 256,
            status != 0 && ready is Ok ==> 0xA0 <= drive <= 0xA1,
        ensures
            r is Ok <==> (status != 0 && ready is Ok),
            drive_ids_wf(final(drive_ids)@),
            r is Err ==> final(drive_ids)@ == old(drive_ids)@,
            r is Ok ==> final(drive_ids)@ == old(drive_ids)@.update(drive - 0xA0, words),
    {
        if status == 0 {
            return Err(());
        }
        if ready.is_err() {
            return Err(());
        }
        let row = (drive - 0xA0) as usize;
        let ghost before = drive_ids@;
        drive_ids.set(row, words);
        proof {
            assert forall|k: int| 0 <= k < 2 implies #[trigger] drive_ids@[k]@.len() == 256 by {
                if k != row as int {
                    assert(drive_ids@[k] == before[k]);
                }
            }
        }
        Ok(())
    }
}

} // verus!
