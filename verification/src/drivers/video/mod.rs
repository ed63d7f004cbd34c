//! The framebuffer console's drawing: the size of a screen fill, the pixels
//! of a character cell, and the PSF font the glyphs come from.
pub mod font;

use vstd::prelude::*;
use crate::libs::util::memset32;

verus! {

/// A linear framebuffer: its size in pixels, bits per pixel, bytes per row
/// and address.
#[derive(Clone, Copy, Debug, PartialEq, Eq, Structural)]
pub struct Framebuffer {
    pub width: usize,
    pub height: usize,
    pub bpp: usize,
    pub pitch: usize,
    pub pointer: usize,
}

impl Framebuffer {
    /// The framebuffer with the given geometry at `ptr`.
    pub fn new(bpp: usize, pitch: usize, ptr: usize, width: usize, height: usize) -> (r: Framebuffer)
        ensures
            r == (Framebuffer { width, height, bpp, pitch, pointer: ptr }),
    {
        Framebuffer { width, height, bpp, pitch, pointer: ptr }
    }
}

/// The number of 32-bit pixels a screen holds: the pixels of a row, as
/// the pitch counts them, times the rows.
pub open spec fn screen_size(fb: Framebuffer) -> int {
    (fb.pitch / (fb.bpp / 8)) * fb.height
}

/// Fills the screen `buffer`, laid out as `framebuffer` says, with `color`:
/// its first `screen_size` pixels, the rest staying as they were.
pub fn fill_screen(color: u32, framebuffer: Framebuffer, buffer: &mut Vec<u32>)
    requires
        framebuffer.bpp >= 8,
        screen_size(framebuffer) <= old(buffer)@.len(),
    ensures
        final(buffer)@.len() == old(buffer)@.len(),
        forall|i: int| 0 <= i < screen_size(framebuffer) ==> #[trigger] final(buffer)@[i] == color,
        forall|i: int| screen_size(framebuffer) <= i < old(buffer)@.len() ==> #[trigger] final(buffer)@[i] == old(buffer)@[i],
{
    let len = buffer.len();
    let row_size = framebuffer.pitch / (framebuffer.bpp / 8);
    proof {
        assert(row_size * framebuffer.height <= len);
    }
    let buffer_size = row_size * framebuffer.height;
    memset32(buffer, 0, color, buffer_size);
}

/// The byte offset of pixel `x`, `y`: `y` rows of `pitch` bytes, then `x`
/// pixels of `bpp / 8` bytes.
pub open spec fn pixel_offset(x: u32, y: u32, fb: Framebuffer) -> int {
    y * fb.pitch + x * (fb.bpp / 8)
}

/// Sets pixel `x`, `y` of the screen `buffer`, laid out as `framebuffer`
/// says, to `color`: the 32-bit word at the pixel's byte offset.
pub fn put_pixel(x: u32, y: u32, color: u32, framebuffer: Framebuffer, buffer: &mut Vec<u32>)
    requires
        pixel_offset(x, y, framebuffer) <= u32::MAX,
        pixel_offset(x, y, framebuffer) % 4 == 0,
        pixel_offset(x, y, framebuffer) / 4 < old(buffer)@.len(),
    ensures
        final(buffer)@ == old(buffer)@.update(pixel_offset(x, y, framebuffer) / 4, color),
{
    proof {
        assert(y * framebuffer.pitch <= pixel_offset(x, y, framebuffer));
        assert(x * (framebuffer.bpp / 8) <= pixel_offset(x, y, framebuffer));
    }
    let row = y as usize * framebuffer.pitch;
    let col = x as usize * (framebuffer.bpp / 8);
    let offset = (row + col) as u32;
    buffer.set((offset / 4) as usize, color);
}

/// The screen `s` of `size` pixels moved up by `skip` pixels: the pixels
/// after the first `skip` move to the start, black fills the freed end, and
/// what lies past the screen stays.
pub open spec fn scrolled(s: Seq<u32>, size: int, skip: int) -> Seq<u32> {
    Seq::new(s.len(), |i: int| if i < size - skip { s[i + skip] } else if i < size { 0u32 } else { s[i] })
}

/// Moves the screen `buffer` of `height` rows of `row_size` pixels up by a
/// line of text, 16 rows, and blanks the last line.
pub fn scroll_buffer(buffer: &mut Vec<u32>, row_size: usize, height: usize)
    requires
        row_size * height <= old(buffer)@.len(),
        16 * row_size <= row_size * height,
    ensures
        final(buffer)@ == scrolled(old(buffer)@, row_size * height, 16 * row_size),
{
    let len = buffer.len();
    proof {
        assert(row_size * height <= len);
    }
    let screen = row_size * height;
    let skip = 16 * row_size;
    let ghost s0 = buffer@;
    let mut i: usize = 0;
    while i < screen - skip
        invariant
            0 <= i <= screen - skip,
            screen == row_size * height,
            skip == 16 * row_size,
            skip <= screen <= s0.len(),
            buffer@.len() == s0.len(),
            forall|k: int| 0 <= k < i ==> #[trigger] buffer@[k] == s0[k + skip],
            forall|k: int| i <= k < s0.len() ==> #[trigger] buffer@[k] == s0[k],
        decreases screen - skip - i,
    {
        let v = buffer[i + skip];
        buffer.set(i, v);
        i = i + 1;
    }
    memset32(buffer, screen - skip, 0, skip);
    proof {
        assert(buffer@ =~= scrolled(s0, screen as int, skip as int));
    }
}

/// The character a cell shows and its foreground: characters past 255
/// show as a red `?`.
pub open spec fn shown(character: char, fg: u32) -> (char, u32) {
    if character as u32 > 255 { ('?', 0xFF0000) } else { (character, fg) }
}

/// The eight pixels of a glyph row `bits`: the foreground where a bit is
/// set, from the top bit, the background elsewhere.
pub open spec fn row_pixels(bits: u8, fg: u32, bg: u32) -> Seq<u32> {
    Seq::new(8, |i: int| if (bits >> ((7 - i) as u8)) & 1 == 1 { fg } else { bg })
}

/// The place value of pixel `i` of a glyph row byte, from the left: 128 for
/// the leftmost, 1 for the rightmost.
pub open spec fn pixel_weight(i: int) -> int {
    if i == 0 { 128 } else if i == 1 { 64 } else if i == 2 { 32 } else if i == 3 { 16 }
    else if i == 4 { 8 } else if i == 5 { 4 } else if i == 6 { 2 } else { 1 }
}

/// Law: a glyph row is read from its top bit leftwards: pixel `i` (0 the
/// leftmost) is the foreground exactly when the row byte's bit of place
/// value `2^(7 - i)` is set, and the background otherwise; so a row byte
/// of 0x80 lights only the leftmost pixel.
pub proof fn law_glyph_rows_read_left_to_right(bits: u8, fg: u32, bg: u32)
    ensures
        row_pixels(bits, fg, bg).len() == 8,
        forall|i: int| 0 <= i < 8 ==> #[trigger] row_pixels(bits, fg, bg)[i]
            == if (bits as int / pixel_weight(i)) % 2 == 1 { fg } else { bg },
{
    assert(
        (((bits >> 7u8) & 1 == 1) == ((bits / 128) % 2 == 1))
        && (((bits >> 6u8) & 1 == 1) == ((bits / 64) % 2 == 1))
        && (((bits >> 5u8) & 1 == 1) == ((bits / 32) % 2 == 1))
        && (((bits >> 4u8) & 1 == 1) == ((bits / 16) % 2 == 1))
        && (((bits >> 3u8) & 1 == 1) == ((bits / 8) % 2 == 1))
        && (((bits >> 2u8) & 1 == 1) == ((bits / 4) % 2 == 1))
        && (((bits >> 1u8) & 1 == 1) == ((bits / 2) % 2 == 1))
        && (((bits >> 0u8) & 1 == 1) == (bits % 2 == 1))
    ) by (bit_vector);
    assert forall|i: int| 0 <= i < 8 implies #[trigger] row_pixels(bits, fg, bg)[i]
        == if (bits as int / pixel_weight(i)) % 2 == 1 { fg } else { bg } by {
        if i == 0 {} else if i == 1 {} else if i == 2 {} else if i == 3 {}
        else if i == 4 {} else if i == 5 {} else if i == 6 {} else {}
    }
}

/// A row of a drawn character: where it starts in the framebuffer, in
/// bytes, and its eight pixels.
pub struct CellRow {
    pub offset: usize,
    pub pixels: Vec<u32>,
}

/// Draws `character` in the cell `cx`, `cy` of a framebuffer with `pitch`
/// bytes per row and `bpp` bits per pixel, from the 8 by 16 glyphs `font`:
/// one row of eight pixels per glyph row, each row where its pixel row of
/// the cell starts.
pub fn put_char(character: char, cx: u16, cy: u16, fg: u32, bg: u32, pitch: usize, bpp: usize, font: &Vec<Vec<u8>>) -> (r: Vec<CellRow>)
    requires
        font@.len() == 256,
        forall|i: int| 0 <= i < 256 ==> #[trigger] font@[i]@.len() == 16,
        cx * 8 <= u16::MAX,
        cy * 16 <= u16::MAX,
        (cy * 16 + 16) * pitch + cx * 8 * bpp / 8 <= usize::MAX,
        cx * 8 * bpp <= usize::MAX,
    ensures
        ({
            let (c, f) = shown(character, fg);
            let glyph = font@[c as int]@;
            &&& r@.len() == 16
            &&& forall|k: int| 0 <= k < 16 ==> {
                &&& (#[trigger] r@[k]).offset == (cy * 16 + k) * pitch + (cx * 8 * bpp) / 8
                &&& r@[k].pixels@ == row_pixels(glyph[k], f, bg)
            }
        }),
{
    let mut character = character;
    let mut fg = fg;
    if character as u32 > 255 {
        character = '?';
        fg = 0xFF0000;
    }
    let glyph = &font[character as u32 as usize];
    let start_x = cx * 8;
    let start_y = cy * 16;
    let mut rows: Vec<CellRow> = Vec::new();
    let mut row_idx: usize = 0;
    while row_idx < 16
        invariant
            0 <= row_idx <= 16,
            glyph@.len() == 16,
            start_x == cx * 8,
            start_y == cy * 16,
            (cy * 16 + 16) * pitch + cx * 8 * bpp / 8 <= usize::MAX,
            cx * 8 * bpp <= usize::MAX,
            rows@.len() == row_idx,
            forall|k: int| 0 <= k < row_idx ==> {
                &&& (#[trigger] rows@[k]).offset == (cy * 16 + k) * pitch + (cx * 8 * bpp) / 8
                &&& rows@[k].pixels@ == row_pixels(glyph@[k], fg, bg)
            },
        decreases 16 - row_idx,
    {
        let character_byte = glyph[row_idx];
        let mut pixels: Vec<u32> = Vec::new();
        let mut bit: usize = 0;
        while bit < 8
            invariant
                0 <= bit <= 8,
                pixels@ == row_pixels(character_byte, fg, bg).subrange(0, bit as int),
            decreases 8 - bit,
        {
            let on = (character_byte >> (7 - bit) as u8) & 0b00000001;
            pixels.push(if on == 1 { fg } else { bg });
            proof {
                assert(pixels@ =~= row_pixels(character_byte, fg, bg).subrange(0, bit + 1));
            }
            bit = bit + 1;
        }
        proof {
            assert(row_pixels(character_byte, fg, bg).subrange(0, 8) =~= row_pixels(character_byte, fg, bg));
            assert((start_y as usize + row_idx) * pitch <= (cy * 16 + 16) * pitch) by (nonlinear_arith)
                requires start_y as usize + row_idx <= cy * 16 + 16, pitch >= 0;
        }
        let row_start_offset = (start_y as usize + row_idx) * pitch + (start_x as usize * bpp / 8);
        rows.push(CellRow { offset: row_start_offset, pixels });
        row_idx = row_idx + 1;
    }
    rows
}

} // verus!
