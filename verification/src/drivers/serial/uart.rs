//! The serial port on targets without I/O ports, where it is a memory-mapped
//! UART that needs no setup and is never read.
use vstd::prelude::*;

verus! {

/// The UART needs no setup: success.
pub fn init_serial() -> (r: u8)
    ensures
        r == 0,
{
    0
}

/// The UART always takes a byte.
pub fn is_transmit_empty() -> (r: bool)
    ensures
        r,
{
    true
}

/// Nothing is read from the UART: zero.
pub fn read_serial() -> (r: u8)
    ensures
        r == 0,
{
    0
}

} // verus!
