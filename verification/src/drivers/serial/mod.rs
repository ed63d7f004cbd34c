//! The COM1 serial port: the writes that set it up and send bytes, and the
//! tests of its status bytes.
pub mod uart;

use vstd::prelude::*;
use vstd::string::*;
use crate::arch::port::PortWrite;

verus! {

/// COM1's data port; the line status register is five ports up.
pub const PORT: u16 = 0x3f8;

/// The port `is_transmit_empty` tests, as this kernel computes it.
pub const TRANSMIT_STATUS_PORT: u16 = (PORT + 5) & 0x20;

/// The byte the port is asked to loop back when it is tested.
pub const LOOPBACK_TEST_BYTE: u8 = 0xAE;

/// The writes that set the port up: interrupts off, 38400 baud, eight bits
/// with no parity and one stop bit, the FIFOs on, then loopback mode with
/// the test byte sent.
pub open spec fn serial_setup_writes() -> Seq<PortWrite> {
    seq![
        PortWrite::Byte(0x3f9, 0x00), PortWrite::Byte(0x3fb, 0x80), PortWrite::Byte(0x3f8, 0x03),
        PortWrite::Byte(0x3f9, 0x00), PortWrite::Byte(0x3fb, 0x03), PortWrite::Byte(0x3fa, 0xC7),
        PortWrite::Byte(0x3fc, 0x0B), PortWrite::Byte(0x3fc, 0x1E), PortWrite::Byte(0x3f8, 0xAE),
    ]
}

/// The writes that set the port up, before its loopback is read back.
pub fn serial_setup() -> (r: Vec<PortWrite>)
    ensures
        r@ == serial_setup_writes(),
{
    let mut r: Vec<PortWrite> = Vec::new();
    r.push(PortWrite::Byte(PORT + 1, 0x00));
    r.push(PortWrite::Byte(PORT + 3, 0x80));
    r.push(PortWrite::Byte(PORT, 0x03));
    r.push(PortWrite::Byte(PORT + 1, 0x00));
    r.push(PortWrite::Byte(PORT + 3, 0x03));
    r.push(PortWrite::Byte(PORT + 2, 0xC7));
    r.push(PortWrite::Byte(PORT + 4, 0x0B));
    r.push(PortWrite::Byte(PORT + 4, 0x1E));
    r.push(PortWrite::Byte(PORT, LOOPBACK_TEST_BYTE));
    r
}

/// Finishes setting the port up once `loopback`, the byte read back from the
/// data port after `serial_setup`, is known: a port that did not echo the
/// test byte is faulty (status 1, `poisoned` raised, nothing more written);
/// otherwise it is put in normal operation (status 0, `poisoned` as it was).
/// The console writes to the port only while `poisoned` is down.
pub fn init_serial(loopback: u8, poisoned: &mut bool) -> (r: (u8, Vec<PortWrite>))
    ensures
        loopback != 0xAE ==> r.0 == 1 && r.1@ == Seq::<PortWrite>::empty() && *final(poisoned),
        loopback == 0xAE ==> r.0 == 0 && r.1@ == seq![PortWrite::Byte(0x3fc, 0x0F)] && *final(poisoned) == *old(poisoned),
{
    let mut writes: Vec<PortWrite> = Vec::new();
    if loopback != LOOPBACK_TEST_BYTE {
        *poisoned = true;
        return (1, writes);
    }
    writes.push(PortWrite::Byte(PORT + 4, 0x0F));
    (0, writes)
}

/// Whether the byte read from `TRANSMIT_STATUS_PORT` says the transmitter
/// is still busy: the caller waits while this holds.
pub fn is_transmit_empty(status: u8) -> (r: bool)
    ensures
        r == (status == 0),
{
    status == 0
}

/// The bytes written to the data port to send `character`, each once the
/// transmitter is free: a newline goes out as a carriage return and a
/// newline.
pub fn write_serial(character: u8) -> (r: Vec<PortWrite>)
    ensures
        character == 10 ==> r@ == seq![PortWrite::Byte(0x3f8, 13), PortWrite::Byte(0x3f8, 10)],
        character != 10 ==> r@ == seq![PortWrite::Byte(0x3f8, character)],
{
    let mut r: Vec<PortWrite> = Vec::new();
    if character == 10u8 {
        r.push(PortWrite::Byte(PORT, 13u8));
    }
    r.push(PortWrite::Byte(PORT, character));
    r
}

/// Whether the line status byte `line_status` says nothing has arrived: its
/// bit 0 clear. The caller waits while this holds, then reads the data port.
pub fn serial_recieved(line_status: u8) -> (r: bool)
    ensures
        r == (line_status % 2 == 0),
{
    proof {
        assert((line_status & 1 == 0) == (line_status % 2 == 0)) by (bit_vector);
    }
    (line_status & 0x01) == 0
}

/// The bytes written to the data port to send `string` in one burst, once
/// the transmitter is free: its UTF-8 bytes as they are, newlines
/// included.
pub fn write_string(string: &str) -> (r: Vec<PortWrite>)
    ensures
        r@ == string.spec_bytes().map_values(|b: u8| PortWrite::Byte(PORT, b)),
{
    let bytes = string.as_bytes();
    let mut r: Vec<PortWrite> = Vec::new();
    let mut i: usize = 0;
    while i < bytes.len()
        invariant
            0 <= i <= bytes@.len(),
            bytes@ == string.spec_bytes(),
            r@ == bytes@.subrange(0, i as int).map_values(|b: u8| PortWrite::Byte(PORT, b)),
        decreases bytes@.len() - i,
    {
        r.push(PortWrite::Byte(PORT, bytes[i]));
        proof {
            assert(r@ =~= bytes@.subrange(0, i + 1).map_values(|b: u8| PortWrite::Byte(PORT, b)));
        }
        i = i + 1;
    }
    proof {
        assert(bytes@.subrange(0, bytes@.len() as int) =~= bytes@);
    }
    r
}

} // verus!
