//! Port I/O on RISC-V, which has no I/O ports: writes go nowhere and reads
//! give zero.
use vstd::prelude::*;

verus! {

/// Writes a byte to `port`: nothing happens.
pub fn outb(port: u16, value: u8) {
}

/// Reads a byte from `port`: always zero.
pub fn inb(port: u16) -> (r: u8)
    ensures
        r == 0,
{
    0
}

/// Writes a word to `port`: nothing happens.
pub fn outw(port: u16, value: u16) {
}

/// Reads a word from `port`: always zero.
pub fn inw(port: u16) -> (r: u16)
    ensures
        r == 0,
{
    0
}

/// Writes a double word to `port`: nothing happens.
pub fn outl(port: u16, value: u32) {
}

/// Reads a double word from `port`: always zero.
pub fn inl(port: u16) -> (r: u32)
    ensures
        r == 0,
{
    0
}

/// Waits for a port write to settle: nothing to wait for.
pub fn io_wait() {
}

} // verus!
