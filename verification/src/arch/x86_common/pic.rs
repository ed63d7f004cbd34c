//! The pair of chained 8259 interrupt controllers.
use vstd::prelude::*;
use crate::arch::port::PortWrite;
use crate::arch::x86_64::io::io_wait;

verus! {

/// Begins a controller's initialisation.
pub const CMD_INIT: u8 = 0x11;

/// Acknowledges an interrupt.
pub const CMD_END_OF_INTERRUPT: u8 = 0x20;

/// Runs a controller in 8086 mode.
pub const MODE_8086: u8 = 0x01;

/// One controller: the first of the eight vectors it raises, and the ports
/// it takes commands and data on.
#[derive(Clone, Copy, Debug, PartialEq, Eq, Structural)]
pub struct Pic {
    pub offset: u8,
    pub command: u8,
    pub data: u8,
}

impl Pic {
    /// Whether `interrupt_id` is one of this controller's eight vectors.
    pub fn handles_interrupt(&self, interrupt_id: u8) -> (r: bool)
        requires
            self.offset + 8 <= 255,
        ensures
            r == (self.offset <= interrupt_id && interrupt_id < self.offset + 8),
    {
        self.offset <= interrupt_id && interrupt_id < self.offset + 8
    }

    /// The acknowledgement of the interrupt being handled.
    pub fn end_of_interrupt(&self) -> (r: PortWrite)
        ensures
            r == PortWrite::Byte(self.command as u16, CMD_END_OF_INTERRUPT),
    {
        PortWrite::Byte(self.command as u16, CMD_END_OF_INTERRUPT)
    }

    /// Sets the interrupt mask to `mask`.
    pub fn write_mask(&self, mask: u8) -> (r: PortWrite)
        ensures
            r == PortWrite::Byte(self.data as u16, mask),
    {
        PortWrite::Byte(self.data as u16, mask)
    }
}

/// The primary controller and the secondary one chained to its line 2.
#[derive(Clone, Copy, Debug)]
pub struct ChainedPics {
    pub pics: [Pic; 2],
}

/// Writes `w`, then waits for it to settle.
pub open spec fn settled(w: PortWrite) -> Seq<PortWrite> {
    seq![w, PortWrite::Byte(0x80, 0)]
}

impl ChainedPics {
    /// The two controllers, raising vectors from `offset1` and `offset2`, on
    /// their usual ports.
    pub fn new(offset1: u8, offset2: u8) -> (r: ChainedPics)
        ensures
            r.pics[0] == (Pic { offset: offset1, command: 0x20, data: 0x21 }),
            r.pics[1] == (Pic { offset: offset2, command: 0xA0, data: 0xA1 }),
    {
        ChainedPics {
            pics: [
                Pic { offset: offset1, command: 0x20, data: 0x21 },
                Pic { offset: offset2, command: 0xA0, data: 0xA1 },
            ],
        }
    }

    /// The writes that initialise both controllers: the start command, the
    /// vector offsets, the chaining through line 2 and 8086 mode, each write
    /// followed by a wait.
    pub fn initialize(&self) -> (r: Vec<PortWrite>)
        ensures
            ({
                let p0 = self.pics[0];
                let p1 = self.pics[1];
                r@ == settled(PortWrite::Byte(p0.command as u16, CMD_INIT))
                    + settled(PortWrite::Byte(p1.command as u16, CMD_INIT))
                    + settled(PortWrite::Byte(p0.data as u16, p0.offset))
                    + settled(PortWrite::Byte(p1.data as u16, p1.offset))
                    + settled(PortWrite::Byte(p0.data as u16, 4))
                    + settled(PortWrite::Byte(p1.data as u16, 2))
                    + settled(PortWrite::Byte(p0.data as u16, MODE_8086))
                    + settled(PortWrite::Byte(p1.data as u16, MODE_8086))
            }),
    {
        let p0 = self.pics[0];
        let p1 = self.pics[1];
        let mut r: Vec<PortWrite> = Vec::new();
        r.push(PortWrite::Byte(p0.command as u16, CMD_INIT));
        r.push(io_wait());
        r.push(PortWrite::Byte(p1.command as u16, CMD_INIT));
        r.push(io_wait());
        r.push(PortWrite::Byte(p0.data as u16, p0.offset));
        r.push(io_wait());
        r.push(PortWrite::Byte(p1.data as u16, p1.offset));
        r.push(io_wait());
        r.push(PortWrite::Byte(p0.data as u16, 4));
        r.push(io_wait());
        r.push(PortWrite::Byte(p1.data as u16, 2));
        r.push(io_wait());
        r.push(PortWrite::Byte(p0.data as u16, MODE_8086));
        r.push(io_wait());
        r.push(PortWrite::Byte(p1.data as u16, MODE_8086));
        r.push(io_wait());
        r
    }

    /// Sets the primary controller's mask to `mask1` and the secondary's to
    /// `mask2`.
    pub fn write_masks(&self, mask1: u8, mask2: u8) -> (r: Vec<PortWrite>)
        ensures
            r@ == seq![self.pics[0].write_mask_spec(mask1), self.pics[1].write_mask_spec(mask2)],
    {
        let mut r: Vec<PortWrite> = Vec::new();
        r.push(self.pics[0].write_mask(mask1));
        r.push(self.pics[1].write_mask(mask2));
        r
    }

    /// Masks every line of both controllers.
    pub fn disable(&self) -> (r: Vec<PortWrite>)
        ensures
            r@ == seq![self.pics[0].write_mask_spec(0xFF), self.pics[1].write_mask_spec(0xFF)],
    {
        self.write_masks(0xFF, 0xFF)
    }

    /// Whether either controller raises vector `interrupt_id`.
    pub fn handles_interrupt(&self, interrupt_id: u8) -> (r: bool)
        requires
            self.pics[0].offset + 8 <= 255,
            self.pics[1].offset + 8 <= 255,
        ensures
            r == (self.pics[0].raises(interrupt_id) || self.pics[1].raises(interrupt_id)),
    {
        let p0 = self.pics[0];
        let p1 = self.pics[1];
        p0.handles_interrupt(interrupt_id) || p1.handles_interrupt(interrupt_id)
    }

    /// The acknowledgements once vector `interrupt_id` is handled: the
    /// secondary controller's when it raised the vector, then always the
    /// primary's.
    pub fn notify_end_of_interrupt(&self, interrupt_id: u8) -> (r: Vec<PortWrite>)
        requires
            self.pics[0].offset + 8 <= 255,
            self.pics[1].offset + 8 <= 255,
        ensures
            r@ == (if self.pics[1].raises(interrupt_id) {
                seq![self.pics[1].eoi_spec(), self.pics[0].eoi_spec()]
            } else {
                seq![self.pics[0].eoi_spec()]
            }),
    {
        let p0 = self.pics[0];
        let p1 = self.pics[1];
        let mut r: Vec<PortWrite> = Vec::new();
        if self.handles_interrupt(interrupt_id) {
            if p1.handles_interrupt(interrupt_id) {
                r.push(p1.end_of_interrupt());
            }
        }
        r.push(p0.end_of_interrupt());
        r
    }
}

impl Pic {
    /// Whether this controller raises vector `v`.
    pub open spec fn raises(&self, v: u8) -> bool {
        self.offset <= v && v < self.offset + 8
    }

    /// The acknowledgement this controller takes.
    pub open spec fn eoi_spec(&self) -> PortWrite {
        PortWrite::Byte(self.command as u16, CMD_END_OF_INTERRUPT)
    }

    /// The write that sets this controller's mask to `mask`.
    pub open spec fn write_mask_spec(&self, mask: u8) -> PortWrite {
        PortWrite::Byte(self.data as u16, mask)
    }
}

} // verus!
