use cappuccinos::arch::port::{PortWrite, RegisterWrite};
use cappuccinos::arch::riscv64::io as riscv_io;
use cappuccinos::arch::x86_64::interrupts::apic::{
    disable_pic, msdelay, ApicSetup, pit_delay, pit_expired, pit_readback, usdelay, IOAPIC, IOAPICSourceOverride, APIC, LAPIC,
};
use cappuccinos::arch::x86_64::interrupts::exceptions::{set_exceptions, ExceptionHandlers};
use cappuccinos::arch::x86_64::interrupts::{idt_init, idt_set_gate, IdtEntry, InterruptHandlers, InterruptIndex};
use cappuccinos::arch::x86_64::io::io_wait;
use cappuccinos::arch::x86_common::pic::{ChainedPics, Pic};
use cappuccinos::arch::x86_common::stack_trace::{get_function_name, get_function_name_checked, symbol_lookup};

fn pics() -> ChainedPics {
    ChainedPics::new(32, 40)
}

#[test]
fn pic_ports_and_vectors() {
    let p = pics();
    assert_eq!(p.pics[0], Pic { offset: 32, command: 0x20, data: 0x21 });
    assert_eq!(p.pics[1], Pic { offset: 40, command: 0xA0, data: 0xA1 });
    assert!(p.handles_interrupt(32));
    assert!(p.handles_interrupt(47));
    assert!(!p.handles_interrupt(48));
    assert!(!p.handles_interrupt(31));
    assert!(p.pics[1].handles_interrupt(40));
    assert!(!p.pics[1].handles_interrupt(39));
    assert_eq!(p.pics[0].end_of_interrupt(), PortWrite::Byte(0x20, 0x20));
    assert_eq!(p.pics[1].write_mask(0x0F), PortWrite::Byte(0xA1, 0x0F));
}

#[test]
fn end_of_interrupt_acknowledges_secondary_first() {
    let p = pics();
    assert_eq!(p.notify_end_of_interrupt(33), vec![PortWrite::Byte(0x20, 0x20)]);
    assert_eq!(p.notify_end_of_interrupt(46), vec![PortWrite::Byte(0xA0, 0x20), PortWrite::Byte(0x20, 0x20)]);
    // a vector neither raises still acknowledges the primary
    assert_eq!(p.notify_end_of_interrupt(0x80), vec![PortWrite::Byte(0x20, 0x20)]);
}

#[test]
fn pic_initialisation_sequence() {
    let p = pics();
    let w = p.initialize();
    let wait = PortWrite::Byte(0x80, 0);
    assert_eq!(
        w,
        vec![
            PortWrite::Byte(0x20, 0x11), wait,
            PortWrite::Byte(0xA0, 0x11), wait,
            PortWrite::Byte(0x21, 32), wait,
            PortWrite::Byte(0xA1, 40), wait,
            PortWrite::Byte(0x21, 4), wait,
            PortWrite::Byte(0xA1, 2), wait,
            PortWrite::Byte(0x21, 1), wait,
            PortWrite::Byte(0xA1, 1), wait,
        ]
    );
    assert_eq!(p.disable(), vec![PortWrite::Byte(0x21, 0xFF), PortWrite::Byte(0xA1, 0xFF)]);
    assert_eq!(p.write_masks(1, 2), vec![PortWrite::Byte(0x21, 1), PortWrite::Byte(0xA1, 2)]);
    assert_eq!(io_wait(), wait);
}

#[test]
fn interrupt_gates() {
    assert_eq!(InterruptIndex::Timer.as_u8(), 32);
    assert_eq!(InterruptIndex::Keyboard.as_u8(), 33);
    assert_eq!(InterruptIndex::Ide.as_u8(), 46);
    let mut idt = vec![IdtEntry::new(); 256];
    let w = idt_set_gate(&mut idt, &pics(), 33, 0x1122_3344_5566_7788);
    assert_eq!(w, vec![PortWrite::Byte(0x20, 0x20)]);
    assert_eq!(
        idt[33],
        IdtEntry { base_lo: 0x7788, sel: 0x28, ist: 0, flags: 0xEE, base_mid: 0x5566, base_hi: 0x1122_3344, always0: 0 }
    );
    assert_eq!(idt[32], IdtEntry::new());
}

#[test]
fn exception_gates() {
    let mut idt = vec![IdtEntry::new(); 256];
    let h = ExceptionHandlers {
        generic: 0x1000,
        div_error: 0x2000,
        invalid_opcode: 0x3000,
        double_fault: 0x4000,
        general_protection_fault: 0x5000,
        page_fault: 0x6000,
    };
    set_exceptions(&mut idt, &pics(), h);
    assert_eq!(idt[0].base_lo, 0x2000);
    assert_eq!(idt[1].base_lo, 0x1000);
    assert_eq!(idt[6].base_lo, 0x3000);
    assert_eq!(idt[8].base_lo, 0x4000);
    assert_eq!(idt[13].base_lo, 0x5000);
    assert_eq!(idt[14].base_lo, 0x6000);
    assert_eq!(idt[31].base_lo, 0x1000);
    assert_eq!(idt[32], IdtEntry::new());
}

fn madt() -> Vec<u8> {
    let mut b = Vec::new();
    // an enabled processor, a disabled one
    b.extend_from_slice(&[0, 8, 1, 2, 1, 0, 0, 0]);
    b.extend_from_slice(&[0, 8, 3, 4, 0, 0, 0, 0]);
    // the I/O APIC
    b.extend_from_slice(&[1, 12, 7, 0, 0x00, 0x00, 0xC0, 0xFE, 0, 0, 0, 0]);
    // a source override
    b.extend_from_slice(&[2, 10, 0, 0, 2, 0, 0, 0, 5, 0]);
    b
}

#[test]
fn madt_walk_finds_processors_and_io_apic() {
    let a = APIC::new(&madt(), 0xFEE0_0000).unwrap();
    assert_eq!(a.cpus, vec![LAPIC { acpi_processor_id: 1, apic_id: 2, flags: 1 }]);
    assert_eq!(a.io_apic, IOAPIC { ioapic_id: 7, reserved: 0, ptr: 0xFEC0_0000, global_interrupt_base: 0 });
    assert_eq!(a.local_apic, 0xFEE0_0000);
    let _ = IOAPICSourceOverride { bus_source: 0, irq_source: 0, global_system_interrupt: 2, flags: 5 };
    // a 64-bit local APIC address replaces the header's
    let mut b = madt();
    b.extend_from_slice(&[5, 12, 0, 0, 0, 0, 0, 0, 1, 0, 0, 0]);
    assert_eq!(APIC::new(&b, 0xFEE0_0000).unwrap().local_apic, 0x1_0000_0000);
    // no source override: refused
    let b = madt();
    assert!(APIC::new(&b[..28], 0xFEE0_0000).is_err());
}

#[test]
fn apic_register_writes() {
    let a = APIC::new(&madt(), 0xFEE0_0000).unwrap();
    assert_eq!(a.enable(0x0F), RegisterWrite { register: 0xF0, value: 0x10F });
    assert_eq!(
        a.lapic_send_ipi(3, 0x40),
        vec![RegisterWrite { register: 0x310, value: 3 << 24 }, RegisterWrite { register: 0x300, value: 0x40 }]
    );
    assert_eq!(APIC::redirection_register(2), 0x14);
    assert_eq!(a.end_of_interrupt(), RegisterWrite { register: 0xB0, value: 0 });
}

#[test]
fn programmable_interval_timer() {
    assert_eq!(pit_delay(0x1234), vec![PortWrite::Byte(0x43, 0x30), PortWrite::Byte(0x40, 0x34), PortWrite::Byte(0x40, 0x12)]);
    assert_eq!(pit_readback(), PortWrite::Byte(0x43, 0xE2));
    assert!(pit_expired(0x80));
    assert!(!pit_expired(0x7F));
    // 10 microseconds are 11 ticks
    assert_eq!(usdelay(10), pit_delay(11));
    // 100 ms are 119300 ticks: one full count, then the rest
    assert_eq!(msdelay(100), vec![65535u16, 53765u16]);
    assert_eq!(msdelay(0), Vec::<u16>::new());
    assert_eq!(disable_pic().len(), 10);
    assert_eq!(disable_pic()[8], PortWrite::Byte(0x21, 0xFF));
}

#[test]
fn riscv_ports_read_nothing() {
    riscv_io::outb(0x3f8, 1);
    assert_eq!(riscv_io::inb(0x3f8), 0);
    assert_eq!(riscv_io::inw(0), 0);
    assert_eq!(riscv_io::inl(0), 0);
}

const SYMBOLS: &[u8] = b"1000 start\n2000 middle\n3000 end\n";

#[test]
fn stack_trace_names_functions() {
    let r = get_function_name_checked(SYMBOLS, 0x2000).unwrap().unwrap();
    assert_eq!(r, (String::from("middle"), 0));
    // between two symbols: the earlier one, at the distance between them
    let r = symbol_lookup(SYMBOLS, 0x1500).unwrap().unwrap();
    assert_eq!(r, (String::from("start"), 0x1000));
    // past the last symbol
    let r = get_function_name(SYMBOLS, 0x3500).unwrap();
    assert_eq!(r, (String::from("end"), 0x500));
    // before the first symbol
    assert_eq!(get_function_name_checked(SYMBOLS, 0x500), Some(Err(())));
    // not UTF-8
    assert_eq!(get_function_name_checked(&[0xFF, 0xFE], 0x500), Some(Err(())));
}

#[test]
fn fresh_interrupt_table() {
    let mut idt = vec![IdtEntry::new(); 256];
    let h = InterruptHandlers {
        null: 0x100,
        exceptions: ExceptionHandlers {
            generic: 0x1000,
            div_error: 0x2000,
            invalid_opcode: 0x3000,
            double_fault: 0x4000,
            general_protection_fault: 0x5000,
            page_fault: 0x6000,
        },
        timer: 0x7000,
        syscall: 0x8000,
    };
    let w = idt_init(&mut idt, &pics(), h);
    assert_eq!(idt[0].base_lo, 0x2000);
    assert_eq!(idt[5].base_lo, 0x1000);
    assert_eq!(idt[32].base_lo, 0x7000);
    assert_eq!(idt[33].base_lo, 0x100);
    assert_eq!(idt[0x80].base_lo, 0x8000);
    assert_eq!(idt[255].base_lo, 0x100);
    // one acknowledgement per gate set, two for the secondary controller's
    assert_eq!(w.len(), 256 + 8 + 37 + 1 + 1);
}

#[test]
fn apic_setup_masks_the_pics_first() {
    let masked = disable_pic();
    let ApicSetup { pic_writes, base_write, apic } = APIC::init(false, 0xFEE0_0900, Some((&madt(), 0xFEE0_0000)));
    assert_eq!(pic_writes, masked);
    assert_eq!(pic_writes[8..], [PortWrite::Byte(0x21, 0xFF), PortWrite::Byte(0xA1, 0xFF)]);
    assert_eq!(base_write, None);
    assert!(apic.is_err());
    let setup = APIC::init(true, 0xFEE0_0900, None);
    assert_eq!(setup.pic_writes, masked);
    assert_eq!(setup.base_write, Some(0xFEE0_0800));
    assert!(setup.apic.is_err());
    let setup = APIC::init(true, 0x1234_5678, Some((&madt(), 0xFEE0_0000)));
    assert_eq!(setup.base_write, Some(0x1234_0800));
    let a = setup.apic.unwrap();
    assert_eq!(a.local_apic, 0xFEE0_0000);
    assert_eq!(a.cpus.len(), 1);
    let b = madt();
    assert!(APIC::init(true, 0, Some((&b[..28], 0xFEE0_0000))).apic.is_err());
}
