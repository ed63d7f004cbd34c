//! PSF2 fonts.
use vstd::prelude::*;
use crate::bytes::{le32, be32, read_u32_le, read_u32_be, copy_range};

verus! {

/// The header of a PSF2 font.
#[derive(Clone, Copy, Debug, PartialEq, Eq, Structural)]
pub struct PSFFontHeader {
    pub magic: u32,
    pub length: u32,
    pub bytes_per_glyph: u32,
    pub width: u32,
    pub height: u32,
}

/// A font: its header and its glyphs.
pub struct PSFFont {
    pub header: PSFFontHeader,
    pub data: Vec<Vec<u8>>,
}

/// The glyphs of a font: the bytes after the 32-byte header cut into whole
/// glyphs of `size` bytes; the bytes left over are dropped.
pub open spec fn glyphs_of(file: Seq<u8>, size: nat) -> Seq<Seq<u8>> {
    Seq::new(((file.len() - 32) / (size as int)) as nat, |i: int| file.subrange(32 + i * size, 32 + (i + 1) * size))
}

impl PSFFont {
    /// Reads a PSF2 font: refused unless its big-endian magic is
    /// 0x72B54A86.
    pub fn from_file_data(file_data: Vec<u8>) -> (r: Result<PSFFont, ()>)
        requires
            file_data@.len() >= 32,
            be32(file_data@, 0) == 0x72B54A86 ==> le32(file_data@, 20) > 0,
        ensures
            r is Ok <==> be32(file_data@, 0) == 0x72B54A86,
            r matches Ok(f) ==> {
                &&& f.header == (PSFFontHeader {
                    magic: be32(file_data@, 0),
                    length: le32(file_data@, 16),
                    bytes_per_glyph: le32(file_data@, 20),
                    height: le32(file_data@, 24),
                    width: le32(file_data@, 28),
                })
                &&& f.data@.map_values(|g: Vec<u8>| g@) == glyphs_of(file_data@, le32(file_data@, 20) as nat)
            },
    {
        let b = file_data.as_slice();
        let header = PSFFontHeader {
            magic: read_u32_be(b, 0),
            length: read_u32_le(b, 16),
            bytes_per_glyph: read_u32_le(b, 20),
            height: read_u32_le(b, 24),
            width: read_u32_le(b, 28),
        };
        if header.magic != 0x72B54A86 {
            return Err(());
        }
        let size = header.bytes_per_glyph as usize;
        let n = b.len();
        let count = (n - 32) / size;
        let mut data: Vec<Vec<u8>> = Vec::new();
        let mut i: usize = 0;
        while i < count
            invariant
                n == file_data@.len(),
                n >= 32,
                b@ == file_data@,
                size == le32(file_data@, 20),
                size > 0,
                count == (n - 32) / (size as int),
                0 <= i <= count,
                data@.map_values(|g: Vec<u8>| g@) == glyphs_of(file_data@, size as nat).subrange(0, i as int),
            decreases count - i,
        {
            proof {
                assert(32 + (i + 1) * size <= n) by (nonlinear_arith)
                    requires i < count, count == (n - 32) / (size as int), size > 0, n >= 32;
                assert(i * size <= (i + 1) * size) by (nonlinear_arith)
                    requires size > 0;
            }
            let g = copy_range(b, 32 + i * size, 32 + (i + 1) * size);
            let ghost before = data@.map_values(|g: Vec<u8>| g@);
            data.push(g);
            proof {
                assert(data@.map_values(|g: Vec<u8>| g@) =~= before.push(g@));
                assert(glyphs_of(file_data@, size as nat)[i as int] == g@);
                assert(data@.map_values(|g: Vec<u8>| g@) =~= glyphs_of(file_data@, size as nat).subrange(0, i + 1));
            }
            i = i + 1;
        }
        proof {
            assert(glyphs_of(file_data@, size as nat).subrange(0, count as int) =~= glyphs_of(file_data@, size as nat));
        }
        Ok(PSFFont { header, data })
    }
}

} // verus!
