//! The local and I/O APICs, found through the ACPI MADT, and the
//! programmable interval timer used for delays.
use vstd::prelude::*;
use crate::arch::port::{PortWrite, RegisterWrite};
use crate::bytes::{le16, le32, le64, read_u16_le, read_u32_le, read_u64_le};

verus! {

/// A processor's local APIC, as the MADT lists it.
#[derive(Clone, Copy, Debug, PartialEq, Eq, Structural)]
pub struct LAPIC {
    pub acpi_processor_id: u8,
    pub apic_id: u8,
    pub flags: u32,
}

/// The I/O APIC, as the MADT lists it: `ptr` is the address of its
/// registers.
#[derive(Clone, Copy, Debug, PartialEq, Eq, Structural)]
pub struct IOAPIC {
    pub ioapic_id: u8,
    pub reserved: u8,
    pub ptr: u64,
    pub global_interrupt_base: u32,
}

/// An interrupt source override, as the MADT lists it.
#[derive(Clone, Copy, Debug, PartialEq, Eq, Structural)]
pub struct IOAPICSourceOverride {
    pub bus_source: u8,
    pub irq_source: u8,
    pub global_system_interrupt: u32,
    pub flags: u16,
}

/// The APICs of the machine: the I/O APIC, the address of the local APIC's
/// registers and the enabled processors.
pub struct APIC {
    pub io_apic: IOAPIC,
    pub local_apic: u64,
    pub cpus: Vec<LAPIC>,
}

/// What a walk of the MADT's entries has found so far: the enabled
/// processors, the I/O APIC, the source override and the local APIC's
/// address.
pub type MadtScan = (Seq<LAPIC>, Option<IOAPIC>, Option<IOAPICSourceOverride>, u64);

/// The bytes an entry of type `t` is read up to.
pub open spec fn madt_entry_reach(t: u8) -> int {
    if t == 0 {
        8
    } else if t == 1 {
        12
    } else if t == 2 {
        10
    } else if t == 5 {
        12
    } else {
        2
    }
}

/// Whether the entries of `b` from `off` chain to its end: each holds its
/// type and a nonzero length, and the fields its type has.
pub open spec fn madt_well_formed(b: Seq<u8>, off: int) -> bool
    decreases (if off < b.len() { b.len() - off } else { 0 }),
{
    if off < 0 || off >= b.len() {
        true
    } else if off + 2 <= b.len() && b[off + 1] > 0 {
        &&& off + b[off + 1] <= b.len()
        &&& off + madt_entry_reach(b[off]) <= b.len()
        &&& madt_well_formed(b, off + b[off + 1])
    } else {
        false
    }
}

/// The processor entry at `off`.
pub open spec fn lapic_at(b: Seq<u8>, off: int) -> LAPIC {
    LAPIC { acpi_processor_id: b[off + 2], apic_id: b[off + 3], flags: le32(b, off + 4) }
}

/// The I/O APIC entry at `off`.
pub open spec fn ioapic_at(b: Seq<u8>, off: int) -> IOAPIC {
    IOAPIC { ioapic_id: b[off + 2], reserved: b[off + 3], ptr: le32(b, off + 4) as u64, global_interrupt_base: le32(b, off + 8) }
}

/// The source override entry at `off`.
pub open spec fn override_at(b: Seq<u8>, off: int) -> IOAPICSourceOverride {
    IOAPICSourceOverride { bus_source: b[off + 2], irq_source: b[off + 3], global_system_interrupt: le32(b, off + 4), flags: le16(b, off + 8) }
}

/// What the entry at `off` adds: an enabled processor (type 0 with bit 0 of
/// its flags set), the I/O APIC (type 1), the source override (type 2) or the
/// local APIC's 64-bit address (type 5); a later entry of a kind replaces an
/// earlier one.
pub open spec fn madt_step(b: Seq<u8>, off: int, st: MadtScan) -> MadtScan {
    let t = b[off];
    if t == 0 {
        if b[off + 4] & 1 != 0 {
            (st.0.push(lapic_at(b, off)), st.1, st.2, st.3)
        } else {
            st
        }
    } else if t == 1 {
        (st.0, Some(ioapic_at(b, off)), st.2, st.3)
    } else if t == 2 {
        (st.0, st.1, Some(override_at(b, off)), st.3)
    } else if t == 5 {
        (st.0, st.1, st.2, le64(b, off + 4))
    } else {
        st
    }
}

/// What a walk of the entries of `b` from `off` finds, starting from `st`.
pub open spec fn madt_scan(b: Seq<u8>, off: int, st: MadtScan) -> MadtScan
    decreases (if off < b.len() { b.len() - off } else { 0 }),
{
    if off < 0 || off >= b.len() || off + 2 > b.len() || b[off + 1] == 0 {
        st
    } else {
        madt_scan(b, off + b[off + 1], madt_step(b, off, st))
    }
}

/// Where a walk of the MADT starts: nothing found, the local APIC at the
/// address the table's header gives.
pub open spec fn madt_start(local_apic_address: u32) -> MadtScan {
    (Seq::empty(), None, None, local_apic_address as u64)
}

impl APIC {
    /// Walks the MADT's entries `entries`, whose header gives the local
    /// APIC's address `local_apic_address`. Fails unless the table lists an
    /// I/O APIC and a source override.
    pub fn new(entries: &[u8], local_apic_address: u32) -> (r: Result<APIC, ()>)
        requires
            madt_well_formed(entries@, 0),
        ensures
            ({
                let s = madt_scan(entries@, 0, madt_start(local_apic_address));
                &&& r is Ok <==> (s.1 is Some && s.2 is Some)
                &&& r matches Ok(a) ==> a.io_apic == s.1.unwrap() && a.local_apic == s.3 && a.cpus@ == s.0
            }),
    {
        let len = entries.len();
        let mut cpus: Vec<LAPIC> = Vec::new();
        let mut io_apic: Option<IOAPIC> = None;
        let mut source_override: Option<IOAPICSourceOverride> = None;
        let mut lapic_ptr: u64 = local_apic_address as u64;
        let mut off: usize = 0;
        while off < len
            invariant
                len == entries@.len(),
                off <= len,
                madt_well_formed(entries@, off as int),
                madt_scan(entries@, 0, madt_start(local_apic_address))
                    == madt_scan(entries@, off as int, (cpus@, io_apic, source_override, lapic_ptr)),
            decreases len - off,
        {
            let ghost st = (cpus@, io_apic, source_override, lapic_ptr);
            let t = entries[off];
            if t == 0 {
                if entries[off + 4] & 1 != 0 {
                    let flags = read_u32_le(entries, off + 4);
                    cpus.push(LAPIC { acpi_processor_id: entries[off + 2], apic_id: entries[off + 3], flags });
                }
            } else if t == 1 {
                let address = read_u32_le(entries, off + 4);
                let base = read_u32_le(entries, off + 8);
                io_apic = Some(IOAPIC {
                    ioapic_id: entries[off + 2],
                    reserved: entries[off + 3],
                    ptr: address as u64,
                    global_interrupt_base: base,
                });
            } else if t == 2 {
                let gsi = read_u32_le(entries, off + 4);
                let flags = read_u16_le(entries, off + 8);
                source_override = Some(IOAPICSourceOverride {
                    bus_source: entries[off + 2],
                    irq_source: entries[off + 3],
                    global_system_interrupt: gsi,
                    flags,
                });
            } else if t == 5 {
                lapic_ptr = read_u64_le(entries, off + 4);
            }
            proof {
                assert((cpus@, io_apic, source_override, lapic_ptr) == madt_step(entries@, off as int, st));
            }
            off = off + entries[off + 1] as usize;
        }
        match (io_apic, source_override) {
            (Some(io), Some(_)) => Ok(APIC { io_apic: io, local_apic: lapic_ptr, cpus }),
            _ => Err(()),
        }
    }

    /// The write that enables the local APIC: bit 8 of its spurious
    /// interrupt register `current` set.
    pub fn enable(&self, current: u32) -> (r: RegisterWrite)
        ensures
            r == (RegisterWrite { register: 0xF0, value: current | 0x100 }),
    {
        RegisterWrite { register: 0xF0, value: current | 0x100 }
    }

    /// The writes that send interrupt `vec` to the processor whose APIC is
    /// `dest_id`: the destination, then the command.
    pub fn lapic_send_ipi(&self, dest_id: u32, vec: u32) -> (r: Vec<RegisterWrite>)
        ensures
            r@ == seq![RegisterWrite { register: 0x310, value: dest_id << 24u32 }, RegisterWrite { register: 0x300, value: vec }],
    {
        let mut r: Vec<RegisterWrite> = Vec::new();
        r.push(RegisterWrite { register: 0x310, value: dest_id << 24u32 });
        r.push(RegisterWrite { register: 0x300, value: vec });
        r
    }

    /// The I/O APIC register that redirects interrupt `int_num`.
    pub fn redirection_register(int_num: u8) -> (r: u32)
        ensures
            r == 0x10 + int_num * 2,
    {
        0x10 + (int_num as u32 * 2)
    }

    /// Unmasks interrupt `int_num` and sends it to vector
    /// `0x20 + redirection_num`: `current` is what its redirection register
    /// holds; the mask bit and the old vector are cleared.
    pub fn set_interrupt(&self, int_num: u8, redirection_num: u8, current: u32) -> (r: RegisterWrite)
        ensures
            r == (RegisterWrite {
                register: (0x10 + int_num * 2) as u32,
                value: ((current & 0x7FFF) & 0xFF00) | (0x20 + redirection_num) as u32,
            }),
    {
        let retbl_offset: u32 = 0x10 + (int_num as u32 * 2);
        let interrupts_vt = ((current & 0x7FFF) & 0xFF00) | (0x20 + redirection_num as u32);
        RegisterWrite { register: retbl_offset, value: interrupts_vt }
    }

    /// The write that acknowledges the interrupt being handled.
    pub fn end_of_interrupt(&self) -> (r: RegisterWrite)
        ensures
            r == (RegisterWrite { register: 0xB0, value: 0 }),
    {
        RegisterWrite { register: 0xB0, value: 0x00 }
    }
}

/// The timer's input frequency is about 1193 ticks a millisecond.
pub const PIT_TICKS_PER_MS: u32 = 1193;

/// The writes that start the timer counting `count` ticks down in mode 0:
/// the mode, then the count's low and high bytes.
pub open spec fn pit_start(count: u16) -> Seq<PortWrite> {
    seq![
        PortWrite::Byte(0x43, 0x30),
        PortWrite::Byte(0x40, (count & 0xFF) as u8),
        PortWrite::Byte(0x40, ((count & 0xFF00) >> 8u16) as u8),
    ]
}

/// Starts the timer counting `count` ticks. The caller then writes
/// `pit_readback()` and reads port 0x40 until `pit_expired` holds of the byte.
pub fn pit_delay(count: u16) -> (r: Vec<PortWrite>)
    ensures
        r@ == pit_start(count),
{
    let mut r: Vec<PortWrite> = Vec::new();
    r.push(PortWrite::Byte(0x43, 0x30));
    r.push(PortWrite::Byte(0x40, (count & 0xFF) as u8));
    r.push(PortWrite::Byte(0x40, ((count & 0xFF00) >> 8) as u8));
    r
}

/// The write that asks the timer for its status.
pub fn pit_readback() -> (r: PortWrite)
    ensures
        r == PortWrite::Byte(0x43, 0xE2),
{
    PortWrite::Byte(0x43, 0xE2)
}

/// Whether the timer's status byte says the count ran out: its top bit.
pub fn pit_expired(status: u8) -> (r: bool)
    ensures
        r == (status >= 0x80),
{
    proof {
        assert(((status >> 7u8) & 1u8 != 0) == (status >= 0x80)) by (bit_vector);
    }
    ((status >> 7) & 0x01) != 0
}

/// Waits `useconds` microseconds: the timer counts 1193 ticks a millisecond,
/// the count taken modulo 2^16.
pub fn usdelay(useconds: u16) -> (r: Vec<PortWrite>)
    ensures
        r@ == pit_start(((useconds * 1193) / 1000) as u16),
{
    let pit_count = ((useconds as u32 * 1193) / 1000) as u16;
    pit_delay(pit_count)
}

/// The counts a wait of `total` ticks is cut into: as many full counts of
/// 65535 as fit, then the rest.
pub open spec fn pit_chunks(total: nat) -> Seq<u16>
    decreases total,
{
    if total == 0 {
        Seq::empty()
    } else if total > 65535 {
        seq![65535u16] + pit_chunks((total - 65535) as nat)
    } else {
        seq![total as u16]
    }
}

/// The sum of a sequence of counts.
pub open spec fn count_sum(s: Seq<u16>) -> nat
    decreases s.len(),
{
    if s.len() == 0 {
        0
    } else {
        s[0] as nat + count_sum(s.drop_first())
    }
}

/// Waits `ms` milliseconds: the counts of the timer waits it takes, each
/// started with `pit_delay`.
pub fn msdelay(ms: u32) -> (r: Vec<u16>)
    requires
        ms * 1193 <= u32::MAX,
    ensures
        r@ == pit_chunks((ms * 1193) as nat),
{
    let mut total_count: u32 = ms * PIT_TICKS_PER_MS;
    let mut r: Vec<u16> = Vec::new();
    while total_count > 0
        invariant
            r@ + pit_chunks(total_count as nat) == pit_chunks((ms * 1193) as nat),
        decreases total_count,
    {
        let chunk_count: u16 = if total_count > 65535 { 65535 } else { total_count as u16 };
        proof {
            assert(pit_chunks(total_count as nat) =~= seq![chunk_count] + pit_chunks((total_count - chunk_count) as nat));
            assert(r@.push(chunk_count) + pit_chunks((total_count - chunk_count) as nat)
                =~= r@ + (seq![chunk_count] + pit_chunks((total_count - chunk_count) as nat)));
        }
        r.push(chunk_count);
        total_count = total_count - chunk_count as u32;
    }
    proof {
        assert(r@ + pit_chunks(0) =~= r@);
    }
    r
}

/// A wait's counts add up to the ticks asked for, and none is zero.
pub proof fn law_pit_chunks_cover(total: nat)
    ensures
        count_sum(pit_chunks(total)) == total,
        forall|i: int| 0 <= i < pit_chunks(total).len() ==> #[trigger] pit_chunks(total)[i] > 0,
    decreases total,
{
    if total > 65535 {
        law_pit_chunks_cover((total - 65535) as nat);
        let rest = pit_chunks((total - 65535) as nat);
        assert(pit_chunks(total) == seq![65535u16] + rest);
        assert((seq![65535u16] + rest).drop_first() =~= rest);
        assert(count_sum(pit_chunks(total)) == 65535 + count_sum(rest));
        assert forall|i: int| 0 <= i < pit_chunks(total).len() implies #[trigger] pit_chunks(total)[i] > 0 by {
            if i > 0 {
                assert(pit_chunks(total)[i] == rest[i - 1]);
            }
        }
    } else if total > 0 {
        assert(pit_chunks(total) == seq![total as u16]);
        assert(seq![total as u16].drop_first() =~= Seq::<u16>::empty());
        assert(count_sum(seq![total as u16]) == total as u16 + count_sum(Seq::<u16>::empty()));
    }
}

/// The port the initialisation writes go through to the interrupt
/// controllers when the APIC replaces them.
pub open spec fn pic_disable_writes() -> Seq<PortWrite> {
    seq![
        PortWrite::Byte(0x20, 0x11), PortWrite::Byte(0xA0, 0x11),
        PortWrite::Byte(0x21, 0x20), PortWrite::Byte(0xA1, 0x28),
        PortWrite::Byte(0x21, 0x04), PortWrite::Byte(0xA1, 0x02),
        PortWrite::Byte(0x21, 0x01), PortWrite::Byte(0xA1, 0x01),
        PortWrite::Byte(0x21, 0xFF), PortWrite::Byte(0xA1, 0xFF),
    ]
}

/// The writes that reinitialise both interrupt controllers and mask every
/// line, handing interrupts to the APIC.
pub fn disable_pic() -> (r: Vec<PortWrite>)
    ensures
        r@ == pic_disable_writes(),
{
    let mut r: Vec<PortWrite> = Vec::new();
    r.push(PortWrite::Byte(0x20, 0x11));
    r.push(PortWrite::Byte(0xA0, 0x11));
    r.push(PortWrite::Byte(0x21, 0x20));
    r.push(PortWrite::Byte(0xA1, 0x28));
    r.push(PortWrite::Byte(0x21, 0x04));
    r.push(PortWrite::Byte(0xA1, 0x02));
    r.push(PortWrite::Byte(0x21, 0x01));
    r.push(PortWrite::Byte(0xA1, 0x01));
    r.push(PortWrite::Byte(0x21, 0xFF));
    r.push(PortWrite::Byte(0xA1, 0xFF));
    r
}

/// The value written to the low half of the APIC base register: the base
/// read from it (its top 20 bits), masked again with 0xfffff0000, and the
/// enable bit 0x800.
pub open spec fn apic_base_value(msr_low: u32) -> u32 {
    ((((msr_low & 0xfffff000u32) as u64) & 0xfffff0000u64) | 0x800u64) as u32
}

/// What setting up the APICs does before it touches their registers: the
/// port writes that mask both interrupt controllers, the value written to
/// the APIC base register, if the processor has an APIC, and the APICs
/// found.
pub struct ApicSetup {
    pub pic_writes: Vec<PortWrite>,
    pub base_write: Option<u32>,
    pub apic: Result<APIC, ()>,
}

impl APIC {
    /// Sets up the APICs: masks both interrupt controllers; fails if the
    /// processor has no APIC (`cpu_has_apic`, bit 9 of CPUID leaf 1's EDX);
    /// else rewrites the APIC base register, whose low half reads
    /// `msr_low`, and walks the MADT `madt` (its entries and the local APIC
    /// address its header gives), failing without one. Once it succeeds, the
    /// caller enables the local APIC (`enable`) and routes the keyboard
    /// (`set_interrupt`) from the registers' current values.
    pub fn init(cpu_has_apic: bool, msr_low: u32, madt: Option<(&[u8], u32)>) -> (r: ApicSetup)
        requires
            madt matches Some((e, _)) ==> madt_well_formed(e@, 0),
        ensures
            r.pic_writes@ == pic_disable_writes(),
            r.base_write == (if cpu_has_apic { Some(apic_base_value(msr_low)) } else { None }),
            !cpu_has_apic || madt is None ==> r.apic is Err,
            cpu_has_apic && madt is Some ==> ({
                let (e, addr) = madt.unwrap();
                let s = madt_scan(e@, 0, madt_start(addr));
                &&& r.apic is Ok <==> (s.1 is Some && s.2 is Some)
                &&& r.apic matches Ok(a) ==> a.io_apic == s.1.unwrap() && a.local_apic == s.3 && a.cpus@ == s.0
            }),
    {
        let pic_writes = disable_pic();
        if !cpu_has_apic {
            return ApicSetup { pic_writes, base_write: None, apic: Err(()) };
        }
        let base = msr_low & 0xfffff000;
        let value = (((base as u64) & 0xfffff0000) | 0x800) as u32;
        match madt {
            None => ApicSetup { pic_writes, base_write: Some(value), apic: Err(()) },
            Some((entries, address)) => {
                let apic = APIC::new(entries, address);
                ApicSetup { pic_writes, base_write: Some(value), apic }
            },
        }
    }
}

} // verus!
