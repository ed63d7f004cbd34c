//! The memory map the bootloader hands over, as plain values.
use vstd::prelude::*;

verus! {

/// What a region of physical memory holds.
#[derive(Clone, Copy, Debug, PartialEq, Eq, Structural)]
pub enum MemoryMapEntryType {
    Usable,
    Reserved,
    AcpiReclaimable,
    AcpiNvs,
    BadMemory,
    BootloaderReclaimable,
    KernelAndModules,
    Framebuffer,
}

/// A region of physical memory: its first address, its length and its type.
#[derive(Clone, Copy, Debug, PartialEq, Eq, Structural)]
pub struct MemmapEntry {
    pub base: usize,
    pub len: usize,
    pub typ: MemoryMapEntryType,
}

impl MemmapEntry {
    /// Whether the region is free for the kernel to use.
    pub open spec fn usable(&self) -> bool {
        self.typ == MemoryMapEntryType::Usable
    }
}

/// Whether a region is free for the kernel to use.
pub fn memory_section_is_usable(entry: &MemmapEntry) -> (r: bool)
    ensures
        r == entry.usable(),
{
    match entry.typ {
        MemoryMapEntryType::Usable => true,
        _ => false,
    }
}

} // verus!
