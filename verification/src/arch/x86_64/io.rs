//! Port I/O on x86-64.
use vstd::prelude::*;
use crate::arch::port::PortWrite;

verus! {

/// The port whose writes are used to wait: writing it takes about a
/// microsecond and nothing listens.
pub const IO_WAIT_PORT: u16 = 0x80;

/// Waiting for a port write to settle is a write of zero to the unused
/// port 0x80.
pub fn io_wait() -> (r: PortWrite)
    ensures
        r == PortWrite::Byte(0x80, 0),
{
    PortWrite::Byte(IO_WAIT_PORT, 0)
}

} // verus!
