//! A write to an I/O port, as the logic decides it and the platform layer
//! performs it.
use vstd::prelude::*;

verus! {

/// One write to an I/O port.
#[derive(Clone, Copy, Debug, PartialEq, Eq, Structural)]
pub enum PortWrite {
    /// `outb(port, value)`.
    Byte(u16, u8),
    /// `outw(port, value)`.
    Word(u16, u16),
    /// `outl(port, value)`.
    Long(u16, u32),
}

/// One write to a memory-mapped register: its offset and its value.
#[derive(Clone, Copy, Debug, PartialEq, Eq, Structural)]
pub struct RegisterWrite {
    pub register: u32,
    pub value: u32,
}

} // verus!
