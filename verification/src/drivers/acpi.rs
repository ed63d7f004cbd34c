//! ACPI: the root pointer the bootloader hands over, the root table it
//! leads to, and the tables that table lists.
use vstd::prelude::*;
use vstd::string::*;
use crate::bytes::{le32, le64, read_u32_le, read_u64_le};

verus! {

/// The size of a system description table's header.
pub const SDT_HEADER_SIZE: usize = 36;

/// The most tables this kernel keeps.
pub const MAX_TABLES: usize = 48;

/// The sum of the bytes `b`, modulo 256.
pub open spec fn byte_sum(b: Seq<u8>) -> nat
    decreases b.len(),
{
    if b.len() == 0 { 0 } else { ((byte_sum(b.drop_last()) + b.last()) % 256) as nat }
}

/// The sum of the first `n` bytes of `b`, wrapping at 256.
pub fn wrapping_sum(b: &[u8], n: usize) -> (r: u8)
    requires
        n <= b@.len(),
    ensures
        r == byte_sum(b@.subrange(0, n as int)),
{
    let mut sum: u8 = 0;
    let mut i: usize = 0;
    proof {
        assert(b@.subrange(0, 0) =~= Seq::<u8>::empty());
    }
    while i < n
        invariant
            0 <= i <= n <= b@.len(),
            sum == byte_sum(b@.subrange(0, i as int)),
        decreases n - i,
    {
        proof {
            assert(b@.subrange(0, i + 1).drop_last() =~= b@.subrange(0, i as int));
        }
        sum = sum.wrapping_add(b[i]);
        i = i + 1;
    }
    sum
}

/// The root pointer's signature, "RSD PTR ".
pub open spec fn rsdp_signature() -> Seq<u8> {
    seq![0x52u8, 0x53, 0x44, 0x20, 0x50, 0x54, 0x52, 0x20]
}

/// Whether a root pointer is valid: its signature, and its first 20 bytes
/// summing to zero.
pub open spec fn rsdp_valid(b: Seq<u8>) -> bool {
    b.subrange(0, 8) == rsdp_signature() && byte_sum(b.subrange(0, 20)) == 0
}

/// Whether the root pointer `b` is valid.
pub fn rsdp_is_valid(b: &[u8]) -> (r: bool)
    requires
        b@.len() >= 20,
    ensures
        r == rsdp_valid(b@),
{
    let sig: [u8; 8] = [0x52, 0x53, 0x44, 0x20, 0x50, 0x54, 0x52, 0x20];
    let mut i: usize = 0;
    while i < 8
        invariant
            0 <= i <= 8,
            b@.len() >= 20,
            sig@ == rsdp_signature(),
            forall|k: int| 0 <= k < i ==> b@[k] == rsdp_signature()[k],
        decreases 8 - i,
    {
        if b[i] != sig[i] {
            proof {
                assert(b@.subrange(0, 8)[i as int] != rsdp_signature()[i as int]);
            }
            return false;
        }
        i = i + 1;
    }
    proof {
        assert(b@.subrange(0, 8) =~= rsdp_signature());
    }
    wrapping_sum(b, 20) == 0
}

/// The extended pointer, read where the root pointer is, is valid when the
/// same first 20 bytes sum to zero.
pub fn xsdp_is_valid(b: &[u8]) -> (r: bool)
    requires
        b@.len() >= 20,
    ensures
        r == (byte_sum(b@.subrange(0, 20)) == 0),
{
    wrapping_sum(b, 20) == 0
}

/// Whether the table `table` checks out: the bytes its header's length
/// (at byte 4) counts sum to zero, modulo 256.
pub fn check_rsdt_checksum(table: &[u8]) -> (r: bool)
    requires
        table@.len() >= 8,
        le32(table@, 4) <= table@.len(),
    ensures
        r == (byte_sum(table@.subrange(0, le32(table@, 4) as int)) == 0),
{
    let length = read_u32_le(table, 4);
    wrapping_sum(table, length as usize) == 0
}

/// The root table: the 32-bit RSDT, or the 64-bit XSDT.
#[derive(Clone, Copy, Debug, PartialEq, Eq, Structural)]
pub enum AcpiRootTable {
    Rsdp(u32),
    Xsdp(u64),
}

/// What the root pointer `rsdp` leads to: nothing without a pointer or with
/// an invalid one; from revision 2, the XSDT at the 64-bit address the
/// extended layout reads at byte 4, if the pointer's 20 bytes still sum to
/// zero; else the RSDT at the 32-bit address at byte 16.
pub open spec fn root_table_of(rsdp: Option<Seq<u8>>) -> Result<AcpiRootTable, ()> {
    match rsdp {
        None => Err(()),
        Some(b) => {
            if !rsdp_valid(b) {
                Err(())
            } else if b[15] == 2 {
                if byte_sum(b.subrange(0, 20)) != 0 { Err(()) } else { Ok(AcpiRootTable::Xsdp(le64(b, 4))) }
            } else {
                Ok(AcpiRootTable::Rsdp(le32(b, 16)))
            }
        },
    }
}

impl AcpiRootTable {
    /// The root table the bootloader's root pointer `rsdp` leads to.
    pub fn get_from_bootloader(rsdp: Option<&[u8]>) -> (r: Result<AcpiRootTable, ()>)
        requires
            rsdp matches Some(b) ==> b@.len() >= 20,
        ensures
            r == root_table_of(match rsdp { Some(b) => Some(b@), None => None }),
    {
        let b = match rsdp {
            None => {
                return Err(());
            },
            Some(b) => b,
        };
        if !rsdp_is_valid(b) {
            return Err(());
        }
        if b[15] == 2 {
            if !xsdp_is_valid(b) {
                return Err(());
            }
            return Ok(AcpiRootTable::Xsdp(read_u64_le(b, 4)));
        }
        Ok(AcpiRootTable::Rsdp(read_u32_le(b, 16)))
    }
}

/// The tables the root table lists: the addresses of its entries, how many
/// there are, and whether they are 64-bit.
pub struct Acpi {
    pub tables: Vec<u64>,
    pub entries: usize,
    pub v2: bool,
}

/// The entry addresses a root table at `header_addr` with `n` entries of
/// `ptr_size` bytes has: right after its header, one after the other.
pub open spec fn entry_addresses(header_addr: u64, ptr_size: nat, n: nat) -> Seq<u64> {
    Seq::new(n, |i: int| (header_addr + 36 + i * ptr_size) as u64)
}

/// Reads the root table `root`, whose header's signature is `signature`
/// and length `length`: refused unless the signature is "RSDT" for a 32-bit
/// table or "XSDT" for a 64-bit one; at most 48 entries are kept.
pub fn resolve_acpi(root: AcpiRootTable, signature: &str, length: u32) -> (r: Result<Acpi, ()>)
    requires
        length >= 36,
        ({
            let (addr, ptr_size) = match root {
                AcpiRootTable::Rsdp(a) => (a as u64, 4nat),
                AcpiRootTable::Xsdp(a) => (a, 8nat),
            };
            addr + 36 + ((length - 36) / (ptr_size as int)) * ptr_size <= u64::MAX
        }),
    ensures
        ({
            let (addr, ptr_size, ext) = match root {
                AcpiRootTable::Rsdp(a) => (a as u64, 4nat, false),
                AcpiRootTable::Xsdp(a) => (a, 8nat, true),
            };
            let expected = if ext { "XSDT"@ } else { "RSDT"@ };
            let n = (length - 36) / (ptr_size as int);
            let kept = if n > 48 { 48 } else { n };
            &&& r is Ok <==> signature@ == expected
            &&& r matches Ok(a) ==> a.entries == kept && a.v2 == ext && a.tables@ == entry_addresses(addr, ptr_size, kept as nat)
        }),
{
    let (header_addr, ptr_size, ext_table): (u64, usize, bool) = match root {
        AcpiRootTable::Rsdp(addr) => (addr as u64, 4, false),
        AcpiRootTable::Xsdp(addr) => (addr, 8, true),
    };
    if !ext_table {
        if !crate::usr::text::str_eq(signature, "RSDT") {
            return Err(());
        }
    } else {
        if !crate::usr::text::str_eq(signature, "XSDT") {
            return Err(());
        }
    }
    let mut entries = (length as usize - SDT_HEADER_SIZE) / ptr_size;
    let ghost n = entries;
    if entries > MAX_TABLES {
        entries = MAX_TABLES;
    }
    let mut acpi_tables: Vec<u64> = Vec::new();
    let mut i: usize = 0;
    while i < entries
        invariant
            0 <= i <= entries,
            entries <= n,
            n == (length - 36) / (ptr_size as int),
            ptr_size == 4 || ptr_size == 8,
            header_addr + 36 + n * ptr_size <= u64::MAX,
            acpi_tables@ == entry_addresses(header_addr, ptr_size as nat, i as nat),
        decreases entries - i,
    {
        proof {
            assert(i * ptr_size <= n * ptr_size) by (nonlinear_arith)
                requires i <= n;
        }
        let address = header_addr + (SDT_HEADER_SIZE + i * ptr_size) as u64;
        acpi_tables.push(address);
        proof {
            assert(acpi_tables@ =~= entry_addresses(header_addr, ptr_size as nat, (i + 1) as nat));
        }
        i = i + 1;
    }
    Ok(Acpi { tables: acpi_tables, entries, v2: ext_table })
}

impl Acpi {
    /// The first of the listed tables whose signature is `signature`, given
    /// the four signature bytes found at each table's address.
    pub fn get_table(&self, signature: &str, signatures: &Vec<Vec<u8>>) -> (r: Option<u64>)
        requires
            self.entries <= self.tables@.len(),
            signatures@.len() == self.entries,
        ensures
            match r {
                Some(a) => exists|i: int| 0 <= i < self.entries && a == self.tables@[i]
                    && signatures@[i]@ == signature.spec_bytes()
                    && forall|j: int| 0 <= j < i ==> signatures@[j]@ != signature.spec_bytes(),
                None => forall|j: int| 0 <= j < self.entries ==> signatures@[j]@ != signature.spec_bytes(),
            },
    {
        let wanted = signature.as_bytes();
        let mut i: usize = 0;
        while i < self.entries
            invariant
                0 <= i <= self.entries,
                self.entries <= self.tables@.len(),
                signatures@.len() == self.entries,
                wanted@ == signature.spec_bytes(),
                forall|j: int| 0 <= j < i ==> signatures@[j]@ != signature.spec_bytes(),
            decreases self.entries - i,
        {
            if crate::drivers::fs::initramfs::bytes_equal(signatures[i].as_slice(), wanted) {
                return Some(self.tables[i]);
            }
            i = i + 1;
        }
        None
    }
}

} // verus!
