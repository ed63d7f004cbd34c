//! The check that a program is a 64-bit ELF file.
use vstd::prelude::*;

verus! {

/// A program this kernel can load.
#[derive(Clone, Copy, Debug, PartialEq, Eq, Structural)]
pub struct Elf;

/// The magic this kernel expects a program to start with: 0x74 then "ELF".
pub open spec fn elf_magic() -> Seq<u8> {
    seq![0x74u8, 0x45, 0x4C, 0x46]
}

/// Checks `bytes` is a program this kernel loads: it starts with the magic
/// and its class byte says 64-bit.
pub fn load_elf(bytes: &[u8]) -> (r: Result<Elf, ()>)
    requires
        bytes@.len() >= 4,
        bytes@.subrange(0, 4) == elf_magic() ==> bytes@.len() >= 6,
    ensures
        r is Ok <==> (bytes@.subrange(0, 4) == elf_magic() && bytes@[5] == 2),
{
    if !(bytes[0] == 0x74 && bytes[1] == 0x45 && bytes[2] == 0x4C && bytes[3] == 0x46) {
        proof {
            assert(bytes@.subrange(0, 4) != elf_magic()) by {
                if bytes@.subrange(0, 4) == elf_magic() {
                    assert(bytes@.subrange(0, 4)[0] == bytes@[0]);
                    assert(bytes@.subrange(0, 4)[1] == bytes@[1]);
                    assert(bytes@.subrange(0, 4)[2] == bytes@[2]);
                    assert(bytes@.subrange(0, 4)[3] == bytes@[3]);
                }
            }
        }
        return Err(());
    }
    proof {
        assert(bytes@.subrange(0, 4) =~= elf_magic());
    }
    if bytes[5] != 0x02 {
        return Err(());
    }
    Ok(Elf)
}

} // verus!
