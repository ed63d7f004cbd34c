//! The interrupt descriptor table and the vectors the kernel uses.
pub mod apic;
pub mod exceptions;

use vstd::prelude::*;
use crate::arch::port::PortWrite;
use crate::arch::x86_common::pic::ChainedPics;
use exceptions::{ExceptionHandlers, exception_handler_for, exception_gate_order, eoi_writes_all, set_exceptions};

verus! {

/// The first vector the primary interrupt controller raises.
pub const PIC_1_OFFSET: u8 = 32;

/// The first vector the secondary interrupt controller raises.
pub const PIC_2_OFFSET: u8 = 40;

/// The number of gates in the table.
pub const IDT_ENTRIES: usize = 256;

/// The hardware interrupts the kernel handles.
#[derive(Clone, Copy, Debug, PartialEq, Eq, Structural)]
pub enum InterruptIndex {
    Timer,
    Keyboard,
    Ide,
}

/// The vector of each interrupt: the timer's is the primary controller's
/// first, the keyboard's the next, the disk's the fifteenth.
pub open spec fn vector_of(i: InterruptIndex) -> u8 {
    match i {
        InterruptIndex::Timer => 32,
        InterruptIndex::Keyboard => 33,
        InterruptIndex::Ide => 46,
    }
}

impl InterruptIndex {
    /// The vector this interrupt arrives on.
    pub fn as_u8(self) -> (r: u8)
        ensures
            r == vector_of(self),
    {
        match self {
            InterruptIndex::Timer => PIC_1_OFFSET,
            InterruptIndex::Keyboard => PIC_1_OFFSET + 1,
            InterruptIndex::Ide => PIC_1_OFFSET + 14,
        }
    }
}

/// One gate of the interrupt descriptor table.
#[derive(Clone, Copy, Debug, PartialEq, Eq, Structural)]
pub struct IdtEntry {
    pub base_lo: u16,
    pub sel: u16,
    pub ist: u8,
    pub flags: u8,
    pub base_mid: u16,
    pub base_hi: u32,
    pub always0: u32,
}

/// The interrupt descriptor that sends an interrupt to the handler at `base`: the address
/// split in three, the kernel code segment, and a present ring-3 gate.
pub open spec fn gate_for(base: u64) -> IdtEntry {
    IdtEntry {
        base_lo: (base & 0xFFFF) as u16,
        base_mid: ((base >> 16) & 0xFFFF) as u16,
        base_hi: ((base >> 32) & 0xFFFFFFFF) as u32,
        sel: 0x28,
        ist: 0,
        always0: 0,
        flags: 0xEE,
    }
}

impl IdtEntry {
    /// An empty gate.
    pub fn new() -> (r: IdtEntry)
        ensures
            r == (IdtEntry { base_lo: 0, sel: 0, ist: 0, flags: 0, base_mid: 0, base_hi: 0, always0: 0 }),
    {
        IdtEntry { base_lo: 0, sel: 0, ist: 0, always0: 0, flags: 0, base_hi: 0, base_mid: 0 }
    }
}

/// The acknowledgements `pics` take once vector `v` is handled.
pub open spec fn eoi_writes(pics: ChainedPics, v: u8) -> Seq<PortWrite> {
    if pics.pics[1].raises(v) {
        seq![pics.pics[1].eoi_spec(), pics.pics[0].eoi_spec()]
    } else {
        seq![pics.pics[0].eoi_spec()]
    }
}

/// Whether the controllers' vectors fit in a byte.
pub open spec fn pics_fit(pics: ChainedPics) -> bool {
    pics.pics[0].offset + 8 <= 255 && pics.pics[1].offset + 8 <= 255
}

/// Points gate `num` at the handler at `function_ptr`, and gives the
/// acknowledgement of vector `num`, so that an interrupt that arrived before
/// its handler did not block the ones after it.
pub fn idt_set_gate(idt: &mut Vec<IdtEntry>, pics: &ChainedPics, num: u8, function_ptr: u64) -> (r: Vec<PortWrite>)
    requires
        old(idt)@.len() == IDT_ENTRIES,
        pics_fit(*pics),
    ensures
        final(idt)@ == old(idt)@.update(num as int, gate_for(function_ptr)),
        r@ == eoi_writes(*pics, num),
{
    let base = function_ptr;
    let entry = IdtEntry {
        base_lo: (base & 0xFFFF) as u16,
        base_mid: ((base >> 16) & 0xFFFF) as u16,
        base_hi: ((base >> 32) & 0xFFFFFFFF) as u32,
        sel: 0x28,
        ist: 0,
        always0: 0,
        flags: 0xEE,
    };
    idt.set(num as usize, entry);
    pics.notify_end_of_interrupt(num)
}


/// The handlers the table starts with.
#[derive(Clone, Copy, Debug, PartialEq, Eq, Structural)]
pub struct InterruptHandlers {
    /// The handler of every vector nothing else claims.
    pub null: u64,
    pub exceptions: ExceptionHandlers,
    pub timer: u64,
    pub syscall: u64,
}

/// The handler vector `v` gets in a fresh table: the exceptions', the
/// timer's, the system call's at 0x80, the null handler's elsewhere.
pub open spec fn initial_handler(h: InterruptHandlers, v: int) -> u64 {
    if 0 <= v < 32 {
        exception_handler_for(h.exceptions, v)
    } else if v == 32 {
        h.timer
    } else if v == 0x80 {
        h.syscall
    } else {
        h.null
    }
}

/// Fills the table `idt`: every gate with the null handler, then the
/// exceptions, the timer and the system call; gives the acknowledgements
/// each gate's setting makes, in order. The caller then loads the table.
pub fn idt_init(idt: &mut Vec<IdtEntry>, pics: &ChainedPics, h: InterruptHandlers) -> (r: Vec<PortWrite>)
    requires
        old(idt)@.len() == IDT_ENTRIES,
        pics_fit(*pics),
    ensures
        final(idt)@.len() == IDT_ENTRIES,
        forall|v: int| 0 <= v < 256 ==> #[trigger] final(idt)@[v] == gate_for(initial_handler(h, v)),
        r@ == eoi_writes_all(*pics, Seq::new(256, |i: int| i as u8))
            + eoi_writes_all(*pics, exception_gate_order())
            + eoi_writes(*pics, 32) + eoi_writes(*pics, 0x80),
{
    let ghost all = Seq::new(256, |i: int| i as u8);
    let mut writes: Vec<PortWrite> = Vec::new();
    let mut num: usize = 0;
    while num < 256
        invariant
            0 <= num <= 256,
            idt@.len() == IDT_ENTRIES,
            pics_fit(*pics),
            all == Seq::new(256, |i: int| i as u8),
            forall|v: int| 0 <= v < num ==> #[trigger] idt@[v] == gate_for(h.null),
            writes@ == eoi_writes_all(*pics, all.subrange(0, num as int)),
        decreases 256 - num,
    {
        let mut w = idt_set_gate(idt, pics, num as u8, h.null);
        proof {
            assert(all.subrange(0, num + 1).drop_last() =~= all.subrange(0, num as int));
            assert(all.subrange(0, num + 1).last() == num as u8);
        }
        writes.append(&mut w);
        num = num + 1;
    }
    proof {
        assert(all.subrange(0, 256) =~= all);
    }
    let mut w = set_exceptions(idt, pics, h.exceptions);
    writes.append(&mut w);
    let mut w = idt_set_gate(idt, pics, InterruptIndex::Timer.as_u8(), h.timer);
    writes.append(&mut w);
    let mut w = idt_set_gate(idt, pics, 0x80, h.syscall);
    writes.append(&mut w);
    writes
}

} // verus!
