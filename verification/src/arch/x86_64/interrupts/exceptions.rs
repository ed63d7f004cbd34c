//! The gates of the processor's exceptions.
use vstd::prelude::*;
use crate::arch::port::PortWrite;
use crate::arch::x86_common::pic::ChainedPics;
use super::{idt_set_gate, gate_for, eoi_writes, pics_fit, IdtEntry, IDT_ENTRIES};

verus! {

/// The addresses of the exception handlers.
#[derive(Clone, Copy, Debug, PartialEq, Eq, Structural)]
pub struct ExceptionHandlers {
    pub generic: u64,
    pub div_error: u64,
    pub invalid_opcode: u64,
    pub double_fault: u64,
    pub general_protection_fault: u64,
    pub page_fault: u64,
}

/// The handler exception vector `v` gets: its own for division errors (0),
/// invalid opcodes (6), double faults (8), protection faults (13) and page
/// faults (14), the generic one for the other 27 of the first 32.
pub open spec fn exception_handler_for(h: ExceptionHandlers, v: int) -> u64 {
    if v == 0 {
        h.div_error
    } else if v == 6 {
        h.invalid_opcode
    } else if v == 8 {
        h.double_fault
    } else if v == 13 {
        h.general_protection_fault
    } else if v == 14 {
        h.page_fault
    } else {
        h.generic
    }
}

/// The vectors whose gates are set, in order: every exception with the
/// generic handler, then the five with their own.
pub open spec fn exception_gate_order() -> Seq<u8> {
    Seq::new(32, |i: int| i as u8) + seq![0u8, 6u8, 8u8, 13u8, 14u8]
}

/// The acknowledgements of the vectors in `vs`, one after the other.
pub open spec fn eoi_writes_all(pics: ChainedPics, vs: Seq<u8>) -> Seq<PortWrite>
    decreases vs.len(),
{
    if vs.len() == 0 {
        Seq::empty()
    } else {
        eoi_writes_all(pics, vs.drop_last()) + eoi_writes(pics, vs.last())
    }
}

/// Points the first 32 gates at the exception handlers, and gives the
/// acknowledgements each gate's setting makes.
pub fn set_exceptions(idt: &mut Vec<IdtEntry>, pics: &ChainedPics, h: ExceptionHandlers) -> (r: Vec<PortWrite>)
    requires
        old(idt)@.len() == IDT_ENTRIES,
        pics_fit(*pics),
    ensures
        final(idt)@.len() == IDT_ENTRIES,
        forall|v: int| 0 <= v < 32 ==> #[trigger] final(idt)@[v] == gate_for(exception_handler_for(h, v)),
        forall|v: int| 32 <= v < 256 ==> #[trigger] final(idt)@[v] == old(idt)@[v],
        r@ == eoi_writes_all(*pics, exception_gate_order()),
{
    let mut writes: Vec<PortWrite> = Vec::new();
    let mut i: u8 = 0;
    let ghost order = exception_gate_order();
    while i < 32
        invariant
            0 <= i <= 32,
            idt@.len() == IDT_ENTRIES,
            pics_fit(*pics),
            forall|v: int| 0 <= v < i ==> #[trigger] idt@[v] == gate_for(h.generic),
            forall|v: int| i <= v < 256 ==> #[trigger] idt@[v] == old(idt)@[v],
            writes@ == eoi_writes_all(*pics, order.subrange(0, i as int)),
            order == exception_gate_order(),
        decreases 32 - i,
    {
        let mut w = idt_set_gate(idt, pics, i, h.generic);
        proof {
            assert(order.subrange(0, i + 1).drop_last() =~= order.subrange(0, i as int));
            assert(order.subrange(0, i + 1).last() == i);
        }
        writes.append(&mut w);
        i = i + 1;
    }
    let specific: [(u8, u64); 5] = [
        (0x00, h.div_error),
        (0x06, h.invalid_opcode),
        (0x08, h.double_fault),
        (0x0D, h.general_protection_fault),
        (0x0E, h.page_fault),
    ];
    let mut k: usize = 0;
    while k < 5
        invariant
            0 <= k <= 5,
            idt@.len() == IDT_ENTRIES,
            pics_fit(*pics),
            specific@ == seq![(0u8, h.div_error), (6u8, h.invalid_opcode), (8u8, h.double_fault), (13u8, h.general_protection_fault), (14u8, h.page_fault)],
            forall|v: int| 0 <= v < 32 ==> #[trigger] idt@[v] == gate_for(
                if exists|j: int| 0 <= j < k && specific@[j].0 == v { exception_handler_for(h, v) } else { h.generic }),
            forall|v: int| 32 <= v < 256 ==> #[trigger] idt@[v] == old(idt)@[v],
            writes@ == eoi_writes_all(*pics, order.subrange(0, 32 + k)),
            order == exception_gate_order(),
        decreases 5 - k,
    {
        let (v, handler) = specific[k];
        let mut w = idt_set_gate(idt, pics, v, handler);
        proof {
            assert(order.subrange(0, 32 + k + 1).drop_last() =~= order.subrange(0, 32 + k));
            assert(order.subrange(0, 32 + k + 1).last() == v);
            assert forall|u: int| 0 <= u < 32 implies #[trigger] idt@[u] == gate_for(
                if exists|j: int| 0 <= j < k + 1 && specific@[j].0 == u { exception_handler_for(h, u) } else { h.generic }) by {
                if u == v as int {
                    assert(specific@[k as int].0 == u);
                } else if exists|j: int| 0 <= j < k + 1 && specific@[j].0 == u {
                    let j = choose|j: int| 0 <= j < k + 1 && specific@[j].0 == u;
                    assert(j != k);
                }
            }
        }
        writes.append(&mut w);
        k = k + 1;
    }
    proof {
        assert(order.subrange(0, 37) =~= order);
        assert forall|v: int| 0 <= v < 32 implies #[trigger] idt@[v] == gate_for(exception_handler_for(h, v)) by {
            if v == 0 { assert(specific@[0].0 == v); }
            else if v == 6 { assert(specific@[1].0 == v); }
            else if v == 8 { assert(specific@[2].0 == v); }
            else if v == 13 { assert(specific@[3].0 == v); }
            else if v == 14 { assert(specific@[4].0 == v); }
        }
    }
    writes
}

} // verus!
