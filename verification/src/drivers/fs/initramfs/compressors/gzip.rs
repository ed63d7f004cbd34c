//! The zlib stream header (RFC 1950) in front of gzip-compressed chunks.
//! Only the header is read: inflating the data itself is not implemented,
//! so no chunk is ever decompressed.
use vstd::prelude::*;

verus! {

/// The compression level a zlib header announces.
#[derive(Clone, Copy, Debug, PartialEq, Eq, Structural)]
pub enum ZlibCompressionLevel {
    Fastest,
    Fast,
    Default,
    Best,
}

/// The level the two level bits `v` name.
pub open spec fn level_of(v: u8) -> ZlibCompressionLevel {
    if v == 0 {
        ZlibCompressionLevel::Fastest
    } else if v == 1 {
        ZlibCompressionLevel::Fast
    } else if v == 2 {
        ZlibCompressionLevel::Default
    } else {
        ZlibCompressionLevel::Best
    }
}

/// What a zlib header says: the log of its window size less eight, whether
/// a preset dictionary follows, and the compression level.
#[derive(Clone, Copy, Debug, PartialEq, Eq, Structural)]
pub struct ZlibHeader {
    pub window_log2: u8,
    pub present_dictionary: bool,
    pub compression_level: ZlibCompressionLevel,
}

/// Why a stream is refused: two bytes or fewer, a compression method other
/// than deflate (8), or a window above 2^15.
#[derive(Clone, Copy, Debug, PartialEq, Eq, Structural)]
pub enum ZlibError {
    TooShort,
    NotDeflate,
    UnsupportedWindow,
}

/// Reads the header of the zlib stream `bytes`: the method and window from
/// its first byte, the dictionary bit (bit 5) and level (bits 6 and 7) from
/// its second. The header's check bits are not tested.
pub fn zlib_header(bytes: &[u8]) -> (r: Result<ZlibHeader, ZlibError>)
    ensures
        bytes@.len() <= 2 ==> r == Err::<ZlibHeader, ZlibError>(ZlibError::TooShort),
        bytes@.len() > 2 && bytes@[0] & 0x0F != 0x08 ==> r == Err::<ZlibHeader, ZlibError>(ZlibError::NotDeflate),
        bytes@.len() > 2 && bytes@[0] & 0x0F == 0x08 && (bytes@[0] >> 4u8) & 0x0F > 0x07
            ==> r == Err::<ZlibHeader, ZlibError>(ZlibError::UnsupportedWindow),
        bytes@.len() > 2 && bytes@[0] & 0x0F == 0x08 && (bytes@[0] >> 4u8) & 0x0F <= 0x07 ==> r == Ok::<ZlibHeader, ZlibError>(ZlibHeader {
            window_log2: (bytes@[0] >> 4u8) & 0x0F,
            present_dictionary: (bytes@[1] >> 5u8) & 0x01 != 0,
            compression_level: level_of((bytes@[1] >> 6u8) & 0x03),
        }),
{
    if bytes.len() <= 2 {
        return Err(ZlibError::TooShort);
    }
    let cmf = bytes[0];
    let flags = bytes[1];
    if cmf & 0x0F != 0x08 {
        return Err(ZlibError::NotDeflate);
    }
    let window_log2 = (cmf >> 4) & 0x0F;
    if window_log2 > 0x07 {
        return Err(ZlibError::UnsupportedWindow);
    }
    let present_dictionary = (flags >> 5) & 0x01 != 0;
    let level = (flags >> 6) & 0x03;
    let compression_level = if level == 0 {
        ZlibCompressionLevel::Fastest
    } else if level == 1 {
        ZlibCompressionLevel::Fast
    } else if level == 2 {
        ZlibCompressionLevel::Default
    } else {
        ZlibCompressionLevel::Best
    };
    Ok(ZlibHeader { window_log2, present_dictionary, compression_level })
}

} // verus!
