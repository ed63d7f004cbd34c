//! The VGA driver: the register program that sets the 720x480, 16-colour
//! mode, and the plane selections and buffer updates that draw a pixel.
use vstd::prelude::*;

verus! {

pub const VGA_AC_INDEX: u16 = 0x3C0;
pub const VGA_AC_WRITE: u16 = 0x3C0;
pub const VGA_MISC_WRITE: u16 = 0x3C2;
pub const VGA_SEQ_INDEX: u16 = 0x3C4;
pub const VGA_SEQ_DATA: u16 = 0x3C5;
pub const VGA_GC_INDEX: u16 = 0x3CE;
pub const VGA_GC_DATA: u16 = 0x3CF;
pub const VGA_CRTC_INDEX: u16 = 0x3D4;
pub const VGA_CRTC_DATA: u16 = 0x3D5;
pub const VGA_INSTAT_READ: u16 = 0x3DA;

pub const VGA_NUM_SEQ_REGS: usize = 5;
pub const VGA_NUM_CRTC_REGS: usize = 25;
pub const VGA_NUM_GC_REGS: usize = 9;
pub const VGA_NUM_AC_REGS: usize = 21;

/// All the registers a mode sets: the miscellaneous one, then the
/// sequencer's, the CRT controller's, the graphics controller's and the
/// attribute controller's.
pub const VGA_NUM_REGS: usize = 61;

/// Where the CRT controller's values start among a mode's registers.
pub const CRTC_START: usize = 6;

/// One step of talking to the VGA: a byte out to a port, a read of a port
/// whose value goes back out with bits set or kept, a read whose value is
/// dropped, or a byte of the video memory at an offset updated with bits
/// set or kept.
#[derive(Clone, Copy, Debug, PartialEq, Eq, Structural)]
pub enum VgaOp {
    Out(u16, u8),
    ReadOr(u16, u8),
    ReadAnd(u16, u8),
    Read(u16),
    MemOr(usize, u8),
    MemAnd(usize, u8),
}

/// Writing `vals` through an index port and a data port: each value's
/// index, then the value.
pub open spec fn indexed_writes(index_port: u16, data_port: u16, vals: Seq<u8>) -> Seq<VgaOp>
    decreases vals.len(),
{
    if vals.len() == 0 {
        Seq::empty()
    } else {
        indexed_writes(index_port, data_port, vals.drop_last())
            + seq![VgaOp::Out(index_port, (vals.len() - 1) as u8), VgaOp::Out(data_port, vals.last())]
    }
}

/// A mode's registers with the CRT controller unlocked: bit 7 of its
/// register 3 set and of its register 0x11 cleared.
pub open spec fn unlocked(regs: Seq<u8>) -> Seq<u8> {
    regs.update(CRTC_START + 3, regs[CRTC_START + 3] | 0x80).update(CRTC_START + 0x11, regs[CRTC_START + 0x11] & 0x7F)
}

/// The program that writes the mode `regs` (already unlocked): the
/// miscellaneous register, the sequencer, the unlocking of the CRT
/// controller, the CRT controller, the graphics and attribute controllers,
/// and finally the read of the input status that resets the attribute
/// controller's flip-flop and the write that unblanks the display.
pub open spec fn mode_program(regs: Seq<u8>) -> Seq<VgaOp> {
    seq![VgaOp::Out(VGA_MISC_WRITE, regs[0])]
        + indexed_writes(VGA_SEQ_INDEX, VGA_SEQ_DATA, regs.subrange(1, 6))
        + seq![
            VgaOp::Out(VGA_CRTC_INDEX, 0x03), VgaOp::ReadOr(VGA_CRTC_DATA, 0x80),
            VgaOp::Out(VGA_CRTC_INDEX, 0x11), VgaOp::ReadAnd(VGA_CRTC_DATA, 0x7F),
        ]
        + indexed_writes(VGA_CRTC_INDEX, VGA_CRTC_DATA, regs.subrange(6, 31))
        + indexed_writes(VGA_GC_INDEX, VGA_GC_DATA, regs.subrange(31, 40))
        + indexed_writes(VGA_AC_INDEX, VGA_AC_WRITE, regs.subrange(40, 61))
        + seq![VgaOp::Read(VGA_INSTAT_READ), VgaOp::Out(VGA_AC_INDEX, 0x20)]
}

/// Appends the writes of `regs[start..end]` through the two ports.
fn push_indexed(ops: &mut Vec<VgaOp>, index_port: u16, data_port: u16, regs: &Vec<u8>, start: usize, end: usize)
    requires
        start <= end <= regs@.len(),
        end - start <= 256,
    ensures
        final(ops)@ == old(ops)@ + indexed_writes(index_port, data_port, regs@.subrange(start as int, end as int)),
{
    let ghost before = ops@;
    let mut i: usize = start;
    proof {
        assert(regs@.subrange(start as int, start as int) =~= Seq::<u8>::empty());
        assert(before + Seq::<VgaOp>::empty() =~= before);
    }
    while i < end
        invariant
            start <= i <= end <= regs@.len(),
            end - start <= 256,
            ops@ == before + indexed_writes(index_port, data_port, regs@.subrange(start as int, i as int)),
        decreases end - i,
    {
        let ghost done = regs@.subrange(start as int, i as int);
        ops.push(VgaOp::Out(index_port, (i - start) as u8));
        ops.push(VgaOp::Out(data_port, regs[i]));
        proof {
            let next = regs@.subrange(start as int, i + 1);
            assert(next.drop_last() =~= done);
            assert(next.last() == regs@[i as int]);
            assert(ops@ =~= before + indexed_writes(index_port, data_port, next));
        }
        i = i + 1;
    }
}

/// Writes the mode `regs`: unlocks the CRT controller's registers in `regs`
/// (so that writing them leaves the controller unlocked), and gives the
/// program that sets the mode.
pub fn write_regs(regs: &mut Vec<u8>) -> (r: Vec<VgaOp>)
    requires
        old(regs)@.len() == VGA_NUM_REGS,
    ensures
        final(regs)@ == unlocked(old(regs)@),
        r@ == mode_program(unlocked(old(regs)@)),
{
    let r3 = regs[CRTC_START + 3] | 0x80;
    regs.set(CRTC_START + 3, r3);
    let r11 = regs[CRTC_START + 0x11] & 0x7F;
    regs.set(CRTC_START + 0x11, r11);
    let mut ops: Vec<VgaOp> = Vec::new();
    ops.push(VgaOp::Out(VGA_MISC_WRITE, regs[0]));
    push_indexed(&mut ops, VGA_SEQ_INDEX, VGA_SEQ_DATA, regs, 1, 6);
    ops.push(VgaOp::Out(VGA_CRTC_INDEX, 0x03));
    ops.push(VgaOp::ReadOr(VGA_CRTC_DATA, 0x80));
    ops.push(VgaOp::Out(VGA_CRTC_INDEX, 0x11));
    ops.push(VgaOp::ReadAnd(VGA_CRTC_DATA, 0x7F));
    push_indexed(&mut ops, VGA_CRTC_INDEX, VGA_CRTC_DATA, regs, 6, 31);
    push_indexed(&mut ops, VGA_GC_INDEX, VGA_GC_DATA, regs, 31, 40);
    push_indexed(&mut ops, VGA_AC_INDEX, VGA_AC_WRITE, regs, 40, 61);
    ops.push(VgaOp::Read(VGA_INSTAT_READ));
    ops.push(VgaOp::Out(VGA_AC_INDEX, 0x20));
    proof {
        assert(ops@ =~= mode_program(unlocked(old(regs)@)));
    }
    ops
}

/// Selects plane `plane` (its low two bits) for reading, and it alone for
/// writing.
pub fn set_plane(plane: u8) -> (r: Vec<VgaOp>)
    ensures
        r@ == seq![
            VgaOp::Out(VGA_GC_INDEX, 4), VgaOp::Out(VGA_GC_DATA, plane & 3),
            VgaOp::Out(VGA_SEQ_INDEX, 2), VgaOp::Out(VGA_SEQ_DATA, (1u8 << (plane & 3))),
        ],
{
    let p = plane & 3;
    proof {
        assert(p < 4) by (bit_vector)
            requires p == plane & 3;
    }
    let pmask: u8 = 1u8 << p;
    let mut r: Vec<VgaOp> = Vec::new();
    r.push(VgaOp::Out(VGA_GC_INDEX, 4));
    r.push(VgaOp::Out(VGA_GC_DATA, p));
    r.push(VgaOp::Out(VGA_SEQ_INDEX, 2));
    r.push(VgaOp::Out(VGA_SEQ_DATA, pmask));
    r
}

/// The steps for plane `plane` of a pixel: the plane's selection, then its
/// bit of the pixel, in the byte at `offset` under `mask`, set when the
/// colour has that plane's bit and cleared when not.
pub open spec fn plane_steps(plane: u8, offset: usize, mask: u8, color: u8) -> Seq<VgaOp> {
    seq![
        VgaOp::Out(VGA_GC_INDEX, 4), VgaOp::Out(VGA_GC_DATA, plane),
        VgaOp::Out(VGA_SEQ_INDEX, 2), VgaOp::Out(VGA_SEQ_DATA, (1u8 << plane)),
        if (1u8 << plane) & color != 0 { VgaOp::MemOr(offset, mask) } else { VgaOp::MemAnd(offset, !mask) },
    ]
}

/// The steps of the first `n` planes.
pub open spec fn pixel_steps(n: nat, offset: usize, mask: u8, color: u8) -> Seq<VgaOp>
    decreases n,
{
    if n == 0 {
        Seq::empty()
    } else {
        pixel_steps((n - 1) as nat, offset, mask, color) + plane_steps((n - 1) as u8, offset, mask, color)
    }
}

/// Gives the pixel at `pos_x`, `pos_y` of the 720-pixel-wide screen colour
/// `color`: for each of the four planes in turn, the pixel's bit in the
/// byte that holds it (90 bytes to a row, the leftmost pixel in the top
/// bit).
pub fn put_pixel(pos_x: usize, pos_y: usize, color: u8) -> (r: Vec<VgaOp>)
    requires
        90 * pos_y + pos_x / 8 <= usize::MAX,
    ensures
        r@ == pixel_steps(4, (90 * pos_y + pos_x / 8) as usize, 0x80u8 >> ((pos_x % 8) as u8), color),
{
    let offset = 90 * pos_y + pos_x / 8;
    let bit = (pos_x & 7) as u8;
    proof {
        assert(pos_x & 7 == pos_x % 8) by (bit_vector);
    }
    let mask: u8 = 0x80u8 >> bit;
    let mut r: Vec<VgaOp> = Vec::new();
    let mut plane: u8 = 0;
    while plane < 4
        invariant
            plane <= 4,
            r@ == pixel_steps(plane as nat, offset, mask, color),
        decreases 4 - plane,
    {
        let mut sel = set_plane(plane);
        proof {
            assert(plane & 3 == plane) by (bit_vector)
                requires plane < 4;
        }
        r.append(&mut sel);
        let pmask: u8 = 1u8 << plane;
        if pmask & color != 0 {
            r.push(VgaOp::MemOr(offset, mask));
        } else {
            r.push(VgaOp::MemAnd(offset, !mask));
        }
        proof {
            assert(r@ =~= pixel_steps((plane + 1) as nat, offset, mask, color));
        }
        plane = plane + 1;
    }
    r
}

/// The registers of the 720x480, 16-colour mode.
pub open spec fn mode_720x480x16() -> Seq<u8> {
    seq![
        0xE7u8,
        0x03, 0x01, 0x08, 0x00, 0x06,
        0x6B, 0x59, 0x5A, 0x82, 0x60, 0x8D, 0x0B, 0x3E,
        0x00, 0x40, 0x06, 0x07, 0x00, 0x00, 0x00, 0x00,
        0xEA, 0x0C, 0xDF, 0x2D, 0x08, 0xE8, 0x05, 0xE3,
        0xFF,
        0x00, 0x00, 0x00, 0x00, 0x03, 0x00, 0x05, 0x0F,
        0xFF,
        0x00, 0x01, 0x02, 0x03, 0x04, 0x05, 0x06, 0x07,
        0x08, 0x09, 0x0A, 0x0B, 0x0C, 0x0D, 0x0E, 0x0F,
        0x01, 0x00, 0x0F, 0x00, 0x00,
    ]
}

/// Sets the 720x480, 16-colour mode, then draws the first two pixels of the
/// top row in colour 9.
pub fn init_vga() -> (r: Vec<VgaOp>)
    ensures
        r@ == mode_program(unlocked(mode_720x480x16())) + pixel_steps(4, 0, 0x80, 9) + pixel_steps(4, 0, 0x40, 9),
{
    let mut regs: Vec<u8> = vec![
        0xE7,
        0x03, 0x01, 0x08, 0x00, 0x06,
        0x6B, 0x59, 0x5A, 0x82, 0x60, 0x8D, 0x0B, 0x3E,
        0x00, 0x40, 0x06, 0x07, 0x00, 0x00, 0x00, 0x00,
        0xEA, 0x0C, 0xDF, 0x2D, 0x08, 0xE8, 0x05, 0xE3,
        0xFF,
        0x00, 0x00, 0x00, 0x00, 0x03, 0x00, 0x05, 0x0F,
        0xFF,
        0x00, 0x01, 0x02, 0x03, 0x04, 0x05, 0x06, 0x07,
        0x08, 0x09, 0x0A, 0x0B, 0x0C, 0x0D, 0x0E, 0x0F,
        0x01, 0x00, 0x0F, 0x00, 0x00,
    ];
    proof {
        assert(regs@ =~= mode_720x480x16());
    }
    let mut ops = write_regs(&mut regs);
    let mut x: usize = 0;
    let ghost start = ops@;
    while x < 2
        invariant
            x <= 2,
            start == mode_program(unlocked(mode_720x480x16())),
            x == 0 ==> ops@ == start,
            x == 1 ==> ops@ == start + pixel_steps(4, 0, 0x80, 9),
            x == 2 ==> ops@ == start + pixel_steps(4, 0, 0x80, 9) + pixel_steps(4, 0, 0x40, 9),
        decreases 2 - x,
    {
        let mut p = put_pixel(x, 0, 9);
        proof {
            assert(0x80u8 >> 0u8 == 0x80u8 && 0x80u8 >> 1u8 == 0x40u8) by (bit_vector);
        }
        ops.append(&mut p);
        x = x + 1;
    }
    ops
}

} // verus!
