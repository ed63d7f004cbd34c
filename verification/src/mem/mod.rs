//! Memory: the buddy allocator, the physical page manager, the memory map,
//! and the labelling of byte counts.
pub mod allocator;
pub mod memmap;
pub mod pmm;

use vstd::prelude::*;
use vstd::string::*;

verus! {

/// A byte count in its largest whole unit.
#[derive(Clone, Copy, Debug)]
pub struct Label {
    pub size: usize,
    pub text_label: &'static str,
}

/// The count `bytes` in its largest whole unit: GiB, MiB, KiB or bytes,
/// rounding down.
pub open spec fn label_of(bytes: usize) -> (usize, &'static str) {
    if bytes >> 30usize > 0 {
        (bytes >> 30usize, "GiB")
    } else if bytes >> 20usize > 0 {
        (bytes >> 20usize, "MiB")
    } else if bytes >> 10usize > 0 {
        (bytes >> 10usize, "KiB")
    } else {
        (bytes, "Bytes")
    }
}

/// Labelling a byte count with its unit.
pub trait LabelBytes {
    /// The count in its largest whole unit.
    fn label_bytes(&self) -> Label;
}

impl LabelBytes for usize {
    fn label_bytes(&self) -> (r: Label)
        ensures
            (r.size, r.text_label) == label_of(*self),
    {
        let bytes = *self;
        if bytes >> 30 > 0 {
            Label { size: bytes >> 30, text_label: "GiB" }
        } else if bytes >> 20 > 0 {
            Label { size: bytes >> 20, text_label: "MiB" }
        } else if bytes >> 10 > 0 {
            Label { size: bytes >> 10, text_label: "KiB" }
        } else {
            Label { size: bytes, text_label: "Bytes" }
        }
    }
}

/// The decimal digits of `n`, most significant first; zero is "0".
pub open spec fn decimal_digits(n: nat) -> Seq<char>
    decreases n,
{
    if n < 10 {
        seq![(('0' as nat) + n) as char]
    } else {
        decimal_digits(n / 10) + seq![(('0' as nat) + n % 10) as char]
    }
}

/// The decimal digits of `n`.
pub fn decimal_string(n: usize) -> (r: String)
    ensures
        r@ == decimal_digits(n as nat),
    decreases n,
{
    if n < 10 {
        let mut s = String::new();
        crate::usr::text::push_char(&mut s, crate::usr::text::char_of_ascii(48 + n as u8));
        s
    } else {
        let mut s = decimal_string(n / 10);
        crate::usr::text::push_char(&mut s, crate::usr::text::char_of_ascii(48 + (n % 10) as u8));
        s
    }
}

impl Label {
    /// The label as text: the count in decimal, then the unit.
    pub fn to_string(&self) -> (r: String)
        ensures
            r@ == decimal_digits(self.size as nat) + self.text_label@,
    {
        decimal_string(self.size).concat(self.text_label)
    }
}


/// A label never rounds up: its size in its unit is at most the count.
pub proof fn law_label_rounds_down(bytes: usize)
    ensures
        ({
            let (size, unit) = label_of(bytes);
            &&& (unit == "GiB" ==> size * 0x4000_0000 <= bytes)
            &&& (unit == "MiB" ==> size * 0x10_0000 <= bytes)
            &&& (unit == "KiB" ==> size * 0x400 <= bytes)
            &&& (unit == "Bytes" ==> size == bytes)
        }),
{
    assert((bytes >> 30usize) * 0x4000_0000 <= bytes) by (bit_vector);
    assert((bytes >> 20usize) * 0x10_0000 <= bytes) by (bit_vector);
    assert((bytes >> 10usize) * 0x400 <= bytes) by (bit_vector);
    reveal_strlit("GiB");
    reveal_strlit("MiB");
    reveal_strlit("KiB");
    reveal_strlit("Bytes");
}

} // verus!
