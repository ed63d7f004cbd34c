//! The text console: the cursor, the colour escapes `puts` understands, the
//! line being typed, and the commands the shell runs.
use vstd::prelude::*;
use vstd::string::*;
use crate::drivers::keyboard::Key;
use crate::drivers::video::{scroll_buffer, scrolled, screen_size, Framebuffer};
use super::text::{str_from_utf8, str_starts_with, str_ends_with, str_eq, str_trim, trimmed, push_char, utf8_decoded, ascii_digit};

verus! {

/// The console's default foreground colour.
pub const DEFAULT_FG: u32 = 0xbababa;

/// The console's default background colour.
pub const DEFAULT_BG: u32 = 0x000000;

/// Where the next character goes, and the colours it is drawn in.
#[derive(Clone, Copy, Debug, PartialEq, Eq, Structural)]
pub struct Cursor {
    pub cx: u16,
    pub cy: u16,
    pub fg: u32,
    pub bg: u32,
}

/// The cursor moved one cell right on a screen of `columns` by `rows`
/// cells, and whether the screen scrolled: past the last column it goes to
/// the start of the next row, and past the last row the screen scrolls and
/// it stays on the last row.
pub open spec fn moved_right(c: Cursor, columns: u16, rows: u16) -> (Cursor, bool) {
    if c.cx == columns - 1 {
        if c.cy == rows - 1 {
            (Cursor { cx: 0, cy: (rows - 1) as u16, ..c }, true)
        } else {
            (Cursor { cx: 0, cy: if c.cy == 65535 { 0 } else { (c.cy + 1) as u16 }, ..c }, false)
        }
    } else {
        (Cursor { cx: if c.cx == 65535 { 0 } else { (c.cx + 1) as u16 }, ..c }, false)
    }
}

/// The cursor moved one cell left: from the first column it goes to the
/// last column of the row above (the row number wraps below zero).
pub open spec fn moved_left(c: Cursor, columns: u16) -> Cursor {
    if c.cx == 0 {
        Cursor { cx: (columns - 1) as u16, cy: if c.cy == 0 { 65535 } else { (c.cy - 1) as u16 }, ..c }
    } else {
        Cursor { cx: (c.cx - 1) as u16, ..c }
    }
}

impl Cursor {
    /// At the top left, light grey on black.
    pub fn new() -> (r: Cursor)
        ensures
            r == (Cursor { cx: 0, cy: 0, fg: 0xbababa, bg: 0 }),
    {
        Cursor { cx: 0, cy: 0, fg: DEFAULT_FG, bg: DEFAULT_BG }
    }

    /// Moves to column `new_cx` of row `new_cy`.
    pub fn set_pos(&mut self, new_cx: u16, new_cy: u16)
        ensures
            *final(self) == (Cursor { cx: new_cx, cy: new_cy, ..*old(self) }),
    {
        self.cx = new_cx;
        self.cy = new_cy;
    }

    /// Sets the foreground colour.
    pub fn set_fg(&mut self, new_fg: u32)
        ensures
            *final(self) == (Cursor { fg: new_fg, ..*old(self) }),
    {
        self.fg = new_fg;
    }

    /// Sets the background colour.
    pub fn set_bg(&mut self, new_bg: u32)
        ensures
            *final(self) == (Cursor { bg: new_bg, ..*old(self) }),
    {
        self.bg = new_bg;
    }

    /// Sets both colours.
    pub fn set_color(&mut self, new_fg: u32, new_bg: u32)
        ensures
            *final(self) == (Cursor { fg: new_fg, bg: new_bg, ..*old(self) }),
    {
        self.fg = new_fg;
        self.bg = new_bg;
    }

    /// Moves one cell right on a screen of `columns` by `rows` cells; says
    /// whether the screen has to scroll.
    pub fn move_right(&mut self, columns: u16, rows: u16) -> (scrolled: bool)
        requires
            columns >= 1,
            rows >= 1,
        ensures
            (*final(self), scrolled) == moved_right(*old(self), columns, rows),
    {
        if self.cx == columns - 1 {
            if self.cy == rows - 1 {
                self.cy = rows - 1;
                self.cx = 0;
                true
            } else {
                self.cy = if self.cy == 65535 { 0 } else { self.cy + 1 };
                self.cx = 0;
                false
            }
        } else {
            self.cx = if self.cx == 65535 { 0 } else { self.cx + 1 };
            false
        }
    }

    /// Moves one cell left on a screen `columns` cells wide.
    pub fn move_left(&mut self, columns: u16)
        requires
            columns >= 1,
        ensures
            *final(self) == moved_left(*old(self), columns),
    {
        if self.cx == 0 {
            self.cx = columns - 1;
            self.cy = if self.cy == 0 { 65535 } else { self.cy - 1 };
        } else {
            self.cx = self.cx - 1;
        }
    }
}

/// The colour of palette entry `color`: the eight normal colours, the
/// eight bright ones from 60, black for the rest.
pub open spec fn palette(color: u8) -> u32 {
    if color == 0 { 0x000000 }
    else if color == 1 { 0xCD0000 }
    else if color == 2 { 0x00CD00 }
    else if color == 3 { 0xCDCD00 }
    else if color == 4 { 0x0000EE }
    else if color == 5 { 0xCD00CD }
    else if color == 6 { 0x00CDCD }
    else if color == 7 { 0xBABABA }
    else if color == 60 { 0x555555 }
    else if color == 61 { 0xFF0000 }
    else if color == 62 { 0x00FF00 }
    else if color == 63 { 0xFFFF00 }
    else if color == 64 { 0x5C5CFF }
    else if color == 65 { 0xFF00FF }
    else if color == 66 { 0x00FFFF }
    else if color == 67 { 0xFFFFFF }
    else { 0x000000 }
}

/// The colour of palette entry `color`.
pub fn color_to_hex(color: u8) -> (r: u32)
    ensures
        r == palette(color),
{
    match color {
        0 => 0x000000,
        1 => 0xCD0000,
        2 => 0x00CD00,
        3 => 0xCDCD00,
        4 => 0x0000EE,
        5 => 0xCD00CD,
        6 => 0x00CDCD,
        7 => 0xBABABA,
        60 => 0x555555,
        61 => 0xFF0000,
        62 => 0x00FF00,
        63 => 0xFFFF00,
        64 => 0x5C5CFF,
        65 => 0xFF00FF,
        66 => 0x00FFFF,
        67 => 0xFFFFFF,
        _ => 0x000000,
    }
}

/// Whether colour `c`'s red, green and blue channels are on exactly as the
/// bits 0, 1 and 2 of ANSI colour number `i` say.
pub open spec fn channels_follow_ansi_bits(c: u32, i: u8) -> bool {
    &&& (c / 0x10000 > 0) == (i % 2 == 1)
    &&& ((c / 0x100) % 0x100 > 0) == ((i / 2) % 2 == 1)
    &&& (c % 0x100 > 0) == ((i / 4) % 2 == 1)
}

/// Whether colour `c`'s channels at full strength (0xFF) are exactly those
/// that bits 0, 1 and 2 of ANSI colour number `i` name.
pub open spec fn full_channels_follow_ansi_bits(c: u32, i: u8) -> bool {
    &&& (c / 0x10000 == 0xFF) == (i % 2 == 1)
    &&& ((c / 0x100) % 0x100 == 0xFF) == ((i / 2) % 2 == 1)
    &&& (c % 0x100 == 0xFF) == ((i / 4) % 2 == 1)
}

/// Law: the palette gives the standard ANSI colours: 0 black, 1 red
/// 0xCD0000, 2 green 0x00CD00, 3 yellow 0xCDCD00, 4 blue 0x0000EE, 5 magenta
/// 0xCD00CD, 6 cyan 0x00CDCD and 7 white 0xBABABA; each of the eight has the
/// red, green and blue channels that its number's bits 0, 1 and 2 name, no
/// two are the same, and each bright colour from 61 to 67 has at full
/// strength the channels its number's bits name, and differs from its normal
/// colour.
pub proof fn law_palette_is_ansi(i: u8, j: u8)
    ensures
        palette(0) == 0x000000 && palette(1) == 0xCD0000 && palette(2) == 0x00CD00 && palette(3) == 0xCDCD00,
        palette(4) == 0x0000EE && palette(5) == 0xCD00CD && palette(6) == 0x00CDCD && palette(7) == 0xBABABA,
        i < 8 ==> channels_follow_ansi_bits(palette(i), i),
        1 <= i < 8 ==> full_channels_follow_ansi_bits(palette((60 + i) as u8), i) && palette((60 + i) as u8) != palette(i),
        i < 8 && j < 8 && i != j ==> palette(i) != palette(j),
{
    if i < 8 {
        assert((60 + i) as u8 == 60 + i);
        if i == 0 {} else if i == 1 {} else if i == 2 {} else if i == 3 {} else if i == 4 {} else if i == 5 {} else if i == 6 {} else if i == 7 {}
    }
}

/// The cursor after colour code `code`: 0 resets both colours, 30 to 37
/// and 90 to 97 set the foreground, 40 to 47 and 100 to 107 the
/// background; other codes change nothing.
pub open spec fn apply_code(c: Cursor, code: u8) -> Cursor {
    if code == 0 {
        Cursor { fg: 0xbababa, bg: 0, ..c }
    } else if 30 <= code <= 37 || 90 <= code <= 97 {
        Cursor { fg: palette((code - 30) as u8), ..c }
    } else if 40 <= code <= 47 || 100 <= code <= 107 {
        Cursor { bg: palette((code - 40) as u8), ..c }
    } else {
        c
    }
}

/// Law: the SGR colour codes pick palette entries by their last digit:
/// 30 + i sets the foreground to ANSI colour i and 40 + i the background,
/// 90 + i and 100 + i their bright versions, keeping the cursor's place.
pub proof fn law_colour_codes_pick_ansi_colours(c: Cursor, i: u8)
    requires
        i < 8,
    ensures
        apply_code(c, (30 + i) as u8) == (Cursor { fg: palette(i), ..c }),
        apply_code(c, (40 + i) as u8) == (Cursor { bg: palette(i), ..c }),
        apply_code(c, (90 + i) as u8) == (Cursor { fg: palette((60 + i) as u8), ..c }),
        apply_code(c, (100 + i) as u8) == (Cursor { bg: palette((60 + i) as u8), ..c }),
{
    assert((30 + i) as u8 == 30 + i && (40 + i) as u8 == 40 + i && (90 + i) as u8 == 90 + i && (100 + i) as u8 == 100 + i);
    assert((60 + i) as u8 == 60 + i);
}

/// The cursor after the colour codes `codes`, in order.
pub open spec fn apply_codes(c: Cursor, codes: Seq<u8>) -> Cursor
    decreases codes.len(),
{
    if codes.len() == 0 {
        c
    } else {
        apply_codes(apply_code(c, codes[0]), codes.drop_first())
    }
}

/// The pieces of `s` between semicolons, as `str::split(';')` cuts them.
pub open spec fn split_semis(s: Seq<char>) -> Seq<Seq<char>>
    decreases s.len(),
{
    if s.len() == 0 {
        seq![Seq::<char>::empty()]
    } else {
        let r = split_semis(s.drop_last());
        if s.last() == ';' {
            r.push(Seq::<char>::empty())
        } else {
            r.update(r.len() - 1, r.last().push(s.last()))
        }
    }
}

/// The value of decimal digit `c`.
pub open spec fn digit_value(c: char) -> nat {
    if ascii_digit(c) { (c as int - '0' as int) as nat } else { 0 }
}

/// The number the decimal digits `s` write.
pub open spec fn decimal_value(s: Seq<char>) -> nat
    decreases s.len(),
{
    if s.len() == 0 {
        0
    } else {
        decimal_value(s.drop_last()) * 10 + digit_value(s.last())
    }
}

/// What `str::parse::<u8>` gives for a piece of digits: the number it
/// writes, if there is at least one digit and the number fits a byte.
pub open spec fn parse_byte(s: Seq<char>) -> Option<u8> {
    if s.len() > 0 && (forall|i: int| 0 <= i < s.len() ==> ascii_digit(#[trigger] s[i])) && decimal_value(s) <= 255 {
        Some(decimal_value(s) as u8)
    } else {
        None
    }
}

/// The bytes among `pieces` that parse, in order.
pub open spec fn parsed_bytes(pieces: Seq<Seq<char>>) -> Seq<u8>
    decreases pieces.len(),
{
    if pieces.len() == 0 {
        Seq::empty()
    } else {
        let r = parsed_bytes(pieces.drop_last());
        match parse_byte(pieces.last()) {
            Some(b) => r.push(b),
            None => r,
        }
    }
}

/// The colour codes an escape's digits and semicolons name: each piece
/// between semicolons that is a number up to 255.
pub open spec fn color_codes(buffer: Seq<char>) -> Seq<u8> {
    parsed_bytes(split_semis(buffer))
}


proof fn lemma_decimal_value_grows(s: Seq<char>, i: int, j: int)
    requires
        0 <= i <= j <= s.len(),
    ensures
        decimal_value(s.subrange(0, i)) <= decimal_value(s.subrange(0, j)),
    decreases j - i,
{
    if i < j {
        lemma_decimal_value_grows(s, i, j - 1);
        assert(s.subrange(0, j).drop_last() =~= s.subrange(0, j - 1));
    }
}

/// The byte the digits `s` write, as `str::parse::<u8>` reads them.
pub fn parse_byte_digits(s: &Vec<char>) -> (r: Option<u8>)
    ensures
        r == parse_byte(s@),
{
    let n = s.len();
    if n == 0 {
        return None;
    }
    let mut v: u32 = 0;
    let mut i: usize = 0;
    while i < n
        invariant
            n == s@.len(),
            0 <= i <= n,
            v == decimal_value(s@.subrange(0, i as int)),
            v <= 255,
            forall|k: int| 0 <= k < i ==> ascii_digit(#[trigger] s@[k]),
        decreases n - i,
    {
        let c = s[i];
        if !('0' <= c && c <= '9') {
            proof {
                assert(!ascii_digit(s@[i as int]));
            }
            return None;
        }
        proof {
            assert(s@.subrange(0, i + 1).drop_last() =~= s@.subrange(0, i as int));
        }
        v = v * 10 + (c as u32 - '0' as u32);
        if v > 255 {
            proof {
                lemma_decimal_value_grows(s@, i + 1, n as int);
                assert(s@.subrange(0, n as int) =~= s@);
            }
            return None;
        }
        i = i + 1;
    }
    proof {
        assert(s@.subrange(0, n as int) =~= s@);
    }
    Some(v as u8)
}

proof fn lemma_split_semis_nonempty(s: Seq<char>)
    ensures
        split_semis(s).len() >= 1,
    decreases s.len(),
{
    if s.len() > 0 {
        lemma_split_semis_nonempty(s.drop_last());
    }
}

/// The colour codes an escape's characters `buffer` name.
pub fn parse_color_codes(buffer: &Vec<char>) -> (r: Vec<u8>)
    ensures
        r@ == color_codes(buffer@),
{
    let n = buffer.len();
    let mut codes: Vec<u8> = Vec::new();
    let mut cur: Vec<char> = Vec::new();
    let mut i: usize = 0;
    proof {
        assert(buffer@.subrange(0, 0) =~= Seq::<char>::empty());
    }
    while i < n
        invariant
            n == buffer@.len(),
            0 <= i <= n,
            codes@ == parsed_bytes(split_semis(buffer@.subrange(0, i as int)).drop_last()),
            cur@ == split_semis(buffer@.subrange(0, i as int)).last(),
        decreases n - i,
    {
        let c = buffer[i];
        let ghost prev = buffer@.subrange(0, i as int);
        let ghost next = buffer@.subrange(0, i + 1);
        proof {
            assert(next.drop_last() =~= prev);
            lemma_split_semis_nonempty(prev);
        }
        if c == ';' {
            let p = parse_byte_digits(&cur);
            if let Some(b) = p {
                codes.push(b);
            }
            cur = Vec::new();
            proof {
                assert(split_semis(next).drop_last() =~= split_semis(prev));
                assert(split_semis(prev).drop_last().push(split_semis(prev).last()) =~= split_semis(prev));
            }
        } else {
            cur.push(c);
            proof {
                assert(split_semis(next).drop_last() =~= split_semis(prev).drop_last());
            }
        }
        i = i + 1;
    }
    proof {
        assert(buffer@.subrange(0, n as int) =~= buffer@);
        lemma_split_semis_nonempty(buffer@);
    }
    let p = parse_byte_digits(&cur);
    if let Some(b) = p {
        codes.push(b);
    }
    codes
}

/// Applies the colour codes `codes` to `cursor`, in order.
pub fn apply_color_codes(cursor: &mut Cursor, codes: &Vec<u8>)
    ensures
        *final(cursor) == apply_codes(*old(cursor), codes@),
{
    let n = codes.len();
    let mut i: usize = 0;
    proof {
        assert(codes@.subrange(0, n as int) =~= codes@);
    }
    while i < n
        invariant
            n == codes@.len(),
            0 <= i <= n,
            apply_codes(*old(cursor), codes@) == apply_codes(*cursor, codes@.subrange(i as int, n as int)),
        decreases n - i,
    {
        let code = codes[i];
        proof {
            assert(codes@.subrange(i as int, n as int).drop_first() =~= codes@.subrange(i + 1, n as int));
        }
        if code == 0 {
            cursor.set_fg(DEFAULT_FG);
            cursor.set_bg(DEFAULT_BG);
        } else if (30 <= code && code <= 37) || (90 <= code && code <= 97) {
            cursor.set_fg(color_to_hex(code - 30));
        } else if (40 <= code && code <= 47) || (100 <= code && code <= 107) {
            cursor.set_bg(color_to_hex(code - 40));
        }
        i = i + 1;
    }
    proof {
        assert(codes@.subrange(n as int, n as int) =~= Seq::<u8>::empty());
    }
}

/// What the console hands the screen and the serial port.
#[derive(Clone, Copy, Debug, PartialEq, Eq, Structural)]
pub enum ConsoleOp {
    /// Send a character to the serial port.
    Serial(char),
    /// Draw a character in a cell, in the given colours.
    PutChar { character: char, x: u16, y: u16, fg: u32, bg: u32 },
    /// Move the screen up one row of text.
    Scroll,
}

/// The output the console can use, from its feature bits.
#[derive(Clone, Copy, Debug, PartialEq, Eq, Structural)]
pub struct ConsoleFeatures {
    pub serial_output: bool,
    pub graphical_output: bool,
    pub doubled_buffered: bool,
}

/// The text console: its size in cells, its cursor and the outputs it has.
pub struct Console {
    pub columns: u16,
    pub rows: u16,
    pub cursor: Cursor,
    pub feature_bits: u8,
}

/// Whether the console draws on a screen: bit 0.
pub open spec fn graphical(bits: u8) -> bool {
    bits & 1 != 0
}

/// Whether the console writes to the serial port: bit 1.
pub open spec fn serial(bits: u8) -> bool {
    bits & 2 != 0
}

/// Where `puts` is in its string: inside an escape or not, the escape's
/// characters so far, the cursor, and what it has output.
pub type PutsState = (bool, Seq<char>, Cursor, Seq<ConsoleOp>);

/// What reaches the serial port for `c`: nothing without serial output,
/// else `c`, led by a carriage return for a newline.
pub open spec fn serial_echo(bits: u8, c: char) -> Seq<ConsoleOp> {
    if serial(bits) {
        if c == '\n' { seq![ConsoleOp::Serial('\r'), ConsoleOp::Serial('\n')] } else { seq![ConsoleOp::Serial(c)] }
    } else {
        Seq::empty()
    }
}

/// `puts` taking character `c`, on a console with feature bits `bits` and
/// `columns` by `rows` cells. A NUL starts an escape; in an escape, digits
/// and semicolons are kept, `[` clears them, `m` applies the colour codes
/// they name and ends it, anything else ends it. Outside an escape a
/// character goes to the serial port, then, on a screen: a backspace moves
/// back and blanks the cell (sending a space and itself to the serial
/// port), a carriage return goes to the row's start, a newline to the next
/// row's start, scrolling on the last row, and any other character is drawn
/// and the cursor moves right. `None` where the row number would overflow.
pub open spec fn puts_step(bits: u8, columns: u16, rows: u16, st: PutsState, c: char) -> Option<PutsState> {
    let (esc, buf, cur, ops) = st;
    if esc {
        if c == 'm' {
            Some((false, Seq::empty(), apply_codes(cur, color_codes(buf)), ops))
        } else if ascii_digit(c) || c == ';' {
            Some((true, buf.push(c), cur, ops))
        } else if c == '[' {
            Some((true, Seq::empty(), cur, ops))
        } else {
            Some((false, Seq::empty(), cur, ops))
        }
    } else if c == '\0' {
        Some((true, buf, cur, ops))
    } else {
        let ops1 = ops + serial_echo(bits, c);
        if !graphical(bits) {
            Some((false, buf, cur, ops1))
        } else if c == '\u{8}' {
            let l = moved_left(cur, columns);
            Some((false, buf, l, ops1 + seq![
                ConsoleOp::Serial(' '),
                ConsoleOp::Serial(c),
                ConsoleOp::PutChar { character: ' ', x: l.cx, y: l.cy, fg: l.fg, bg: l.bg },
            ]))
        } else if c == '\r' {
            Some((false, buf, Cursor { cx: 0, ..cur }, ops1))
        } else if c == '\n' {
            if cur.cy == 65535 {
                None
            } else if cur.cy + 1 >= rows {
                Some((false, buf, Cursor { cx: 0, ..cur }, ops1.push(ConsoleOp::Scroll)))
            } else {
                Some((false, buf, Cursor { cx: 0, cy: (cur.cy + 1) as u16, ..cur }, ops1))
            }
        } else {
            let (m, scrolled) = moved_right(cur, columns, rows);
            let drawn = ops1.push(ConsoleOp::PutChar { character: c, x: cur.cx, y: cur.cy, fg: cur.fg, bg: cur.bg });
            Some((false, buf, m, if scrolled { drawn.push(ConsoleOp::Scroll) } else { drawn }))
        }
    }
}

/// `puts` taking the characters `s`, in order; `None` if any step fails.
pub open spec fn puts_run(bits: u8, columns: u16, rows: u16, st: PutsState, s: Seq<char>) -> Option<PutsState>
    decreases s.len(),
{
    if s.len() == 0 {
        Some(st)
    } else {
        match puts_step(bits, columns, rows, st, s[0]) {
            Some(next) => puts_run(bits, columns, rows, next, s.drop_first()),
            None => None,
        }
    }
}

impl Console {
    /// A console with no output, no size and the cursor at the top left.
    pub fn new() -> (r: Console)
        ensures
            r.columns == 0 && r.rows == 0 && r.feature_bits == 0,
            r.cursor == (Cursor { cx: 0, cy: 0, fg: 0xbababa, bg: 0 }),
    {
        Console { columns: 0, rows: 0, cursor: Cursor::new(), feature_bits: 0 }
    }

    /// Whether a console that draws has at least one cell.
    pub open spec fn wf(&self) -> bool {
        graphical(self.feature_bits) ==> self.columns >= 1 && self.rows >= 1
    }

    /// Sets the console up: serial output when the port works, graphical
    /// output and a size of 8 by 16 pixel cells when there is a framebuffer
    /// of `width` by `height` pixels, double buffering when there is also a
    /// back buffer.
    pub fn reinit(&mut self, serial_ok: bool, framebuffer: Option<(u64, u64)>, back_buffer: bool)
        ensures
            final(self).cursor == old(self).cursor,
            final(self).feature_bits == (old(self).feature_bits
                | (if serial_ok { 2u8 } else { 0u8 })
                | (if framebuffer is Some { 1u8 } else { 0u8 })
                | (if framebuffer is Some && back_buffer { 4u8 } else { 0u8 })),
            framebuffer matches Some((w, h)) ==> final(self).columns == (w / 8) as u16 && final(self).rows == (h / 16) as u16,
            framebuffer is None ==> final(self).columns == old(self).columns && final(self).rows == old(self).rows,
    {
        let b0 = self.feature_bits;
        if serial_ok {
            self.feature_bits = self.feature_bits | 2;
        }
        let b1 = self.feature_bits;
        match framebuffer {
            None => {
                proof {
                    assert(b1 == (b0 | (if serial_ok { 2u8 } else { 0u8 }) | 0u8 | 0u8)) by (bit_vector)
                        requires b1 == (if serial_ok { b0 | 2u8 } else { b0 });
                }
            },
            Some((width, height)) => {
                self.feature_bits = self.feature_bits | 1;
                if back_buffer {
                    self.feature_bits = self.feature_bits | 4;
                }
                let b2 = self.feature_bits;
                proof {
                    assert(b2 == (b0 | (if serial_ok { 2u8 } else { 0u8 }) | 1u8 | (if back_buffer { 4u8 } else { 0u8 }))) by (bit_vector)
                        requires
                            b1 == (if serial_ok { b0 | 2u8 } else { b0 }),
                            b2 == (if back_buffer { (b1 | 1u8) | 4u8 } else { b1 | 1u8 });
                }
                self.columns = (width / 8) as u16;
                self.rows = (height / 16) as u16;
            },
        }
    }

    /// The outputs the feature bits turn on.
    pub fn get_features(&self) -> (r: ConsoleFeatures)
        ensures
            r.graphical_output == graphical(self.feature_bits),
            r.serial_output == serial(self.feature_bits),
            r.doubled_buffered == (self.feature_bits & 4 != 0),
    {
        ConsoleFeatures {
            graphical_output: (self.feature_bits & 0x01) != 0,
            serial_output: (self.feature_bits & 0x02) != 0,
            doubled_buffered: (self.feature_bits & 0x04) != 0,
        }
    }

    /// Writes `string`, reading the colour escapes `\0[FG;BGm` in it, and
    /// gives what goes to the serial port and the screen; the colours are
    /// reset at the end.
    pub fn puts(&mut self, string: &str) -> (r: Vec<ConsoleOp>)
        requires
            old(self).wf(),
            puts_run(old(self).feature_bits, old(self).columns, old(self).rows,
                (false, Seq::empty(), old(self).cursor, Seq::empty()), string@) is Some,
        ensures
            ({
                let st = puts_run(old(self).feature_bits, old(self).columns, old(self).rows,
                    (false, Seq::empty(), old(self).cursor, Seq::empty()), string@).unwrap();
                &&& r@ == st.3
                &&& final(self).cursor == (Cursor { fg: 0xbababa, bg: 0, ..st.2 })
                &&& final(self).columns == old(self).columns
                &&& final(self).rows == old(self).rows
                &&& final(self).feature_bits == old(self).feature_bits
            }),
    {
        match self.puts_checked(string) {
            Some(ops) => ops,
            None => {
                proof {
                    assert(false);
                }
                Vec::new()
            },
        }
    }

    /// Writes `string` as `puts` does, where `puts` can: `None`, the console
    /// unchanged, where a newline would take the cursor's row past the last
    /// row number (after a backspace from the top left, say).
    pub fn puts_checked(&mut self, string: &str) -> (r: Option<Vec<ConsoleOp>>)
        requires
            old(self).wf(),
        ensures
            match puts_run(old(self).feature_bits, old(self).columns, old(self).rows,
                (false, Seq::empty(), old(self).cursor, Seq::empty()), string@) {
                Some(st) => {
                    &&& r matches Some(v) && v@ == st.3
                    &&& final(self).cursor == (Cursor { fg: 0xbababa, bg: 0, ..st.2 })
                    &&& final(self).columns == old(self).columns
                    &&& final(self).rows == old(self).rows
                    &&& final(self).feature_bits == old(self).feature_bits
                },
                None => r is None && *final(self) == *old(self),
            },
    {
        let start_cursor = self.cursor;
        let bits = self.feature_bits;
        let columns = self.columns;
        let rows = self.rows;
        let features = self.get_features();
        let n = string.unicode_len();
        let ghost s = string@;
        let ghost start: PutsState = (false, Seq::empty(), self.cursor, Seq::empty());
        let mut in_escape = false;
        let mut buffer: Vec<char> = Vec::new();
        let mut ops: Vec<ConsoleOp> = Vec::new();
        let mut i: usize = 0;
        proof {
            assert(s.subrange(0, n as int) =~= s);
        }
        while i < n
            invariant
                n == s.len(),
                s == string@,
                0 <= i <= n,
                bits == self.feature_bits,
                columns == self.columns,
                rows == self.rows,
                features.graphical_output == graphical(bits),
                features.serial_output == serial(bits),
                graphical(bits) ==> columns >= 1 && rows >= 1,
                puts_run(bits, columns, rows, start, s)
                    == puts_run(bits, columns, rows, (in_escape, buffer@, self.cursor, ops@), s.subrange(i as int, n as int)),
                start == (false, Seq::<char>::empty(), old(self).cursor, Seq::<ConsoleOp>::empty()),
                start_cursor == old(self).cursor,
                self.columns == old(self).columns,
                self.rows == old(self).rows,
                self.feature_bits == old(self).feature_bits,
            decreases n - i,
        {
            let c = string.get_char(i);
            let ghost st: PutsState = (in_escape, buffer@, self.cursor, ops@);
            proof {
                assert(s.subrange(i as int, n as int)[0] == c);
                assert(s.subrange(i as int, n as int).drop_first() =~= s.subrange(i + 1, n as int));
            }
            if in_escape {
                if c == 'm' {
                    in_escape = false;
                    let codes = parse_color_codes(&buffer);
                    apply_color_codes(&mut self.cursor, &codes);
                    buffer = Vec::new();
                } else if ('0' <= c && c <= '9') || c == ';' {
                    buffer.push(c);
                } else if c == '[' {
                    buffer = Vec::new();
                } else {
                    in_escape = false;
                    buffer = Vec::new();
                }
            } else if c == '\0' {
                in_escape = true;
            } else {
                if features.serial_output {
                    if c == '\n' {
                        ops.push(ConsoleOp::Serial('\r'));
                    }
                    ops.push(ConsoleOp::Serial(c));
                }
                proof {
                    assert(ops@ =~= st.3 + serial_echo(bits, c));
                }
                if !features.graphical_output {
                } else if c == '\u{8}' {
                    self.cursor.move_left(columns);
                    ops.push(ConsoleOp::Serial(' '));
                    ops.push(ConsoleOp::Serial(c));
                    ops.push(ConsoleOp::PutChar {
                        character: ' ',
                        x: self.cursor.cx,
                        y: self.cursor.cy,
                        fg: self.cursor.fg,
                        bg: self.cursor.bg,
                    });
                } else if c == '\r' {
                    let cy = self.cursor.cy;
                    self.cursor.set_pos(0, cy);
                } else if c == '\n' {
                    let cy = self.cursor.cy;
                    if cy == 65535 {
                        proof {
                            assert(puts_step(bits, columns, rows, st, c) is None);
                            assert(puts_run(bits, columns, rows, st, s.subrange(i as int, n as int)) is None);
                        }
                        self.cursor = start_cursor;
                        proof {
                            assert(*self == *old(self));
                        }
                        return None;
                    }
                    if cy + 1 >= rows {
                        ops.push(ConsoleOp::Scroll);
                        self.cursor.set_pos(0, cy);
                    } else {
                        self.cursor.set_pos(0, cy + 1);
                    }
                } else {
                    ops.push(ConsoleOp::PutChar {
                        character: c,
                        x: self.cursor.cx,
                        y: self.cursor.cy,
                        fg: self.cursor.fg,
                        bg: self.cursor.bg,
                    });
                    let scrolled = self.cursor.move_right(columns, rows);
                    if scrolled {
                        ops.push(ConsoleOp::Scroll);
                    }
                }
            }
            proof {
                assert(puts_step(bits, columns, rows, st, c) == Some((in_escape, buffer@, self.cursor, ops@)));
            }
            i = i + 1;
        }
        self.cursor.set_color(DEFAULT_FG, DEFAULT_BG);
        Some(ops)
    }

    /// Clears the screen to the background colour: the cursor goes to the
    /// top left, and the colour to fill with is given.
    pub fn clear_screen(&mut self) -> (r: u32)
        ensures
            final(self).cursor == (Cursor { cx: 0, cy: 0, ..old(self).cursor }),
            final(self).columns == old(self).columns,
            final(self).rows == old(self).rows,
            final(self).feature_bits == old(self).feature_bits,
            r == old(self).cursor.bg,
    {
        self.cursor.set_pos(0, 0);
        self.cursor.bg
    }

    /// Moves the screen up a line of text. With double buffering the back
    /// buffer `back` scrolls and is then copied onto the screen `screen`;
    /// otherwise `screen` scrolls in place.
    pub fn scroll_console(&self, framebuffer: Framebuffer, screen: &mut Vec<u32>, back: &mut Vec<u32>)
        requires
            framebuffer.bpp >= 8,
            screen_size(framebuffer) <= old(screen)@.len(),
            screen_size(framebuffer) <= old(back)@.len(),
            16 * (framebuffer.pitch / (framebuffer.bpp / 8)) <= screen_size(framebuffer),
        ensures
            ({
                let size = screen_size(framebuffer);
                let skip = 16 * (framebuffer.pitch / (framebuffer.bpp / 8));
                if self.feature_bits & 4 != 0 {
                    &&& final(back)@ == scrolled(old(back)@, size, skip)
                    &&& final(screen)@ == final(back)@.subrange(0, size) + old(screen)@.subrange(size, old(screen)@.len() as int)
                } else {
                    &&& final(screen)@ == scrolled(old(screen)@, size, skip)
                    &&& final(back)@ == old(back)@
                }
            }),
    {
        let row_size = framebuffer.pitch / (framebuffer.bpp / 8);
        let height = framebuffer.height;
        if self.get_features().doubled_buffered {
            scroll_buffer(back, row_size, height);
            let len = back.len();
            proof {
                assert(row_size * height <= len);
            }
            let size = row_size * height;
            let ghost s0 = screen@;
            let mut i: usize = 0;
            while i < size
                invariant
                    0 <= i <= size,
                    size <= back@.len(),
                    size <= s0.len(),
                    screen@.len() == s0.len(),
                    forall|k: int| 0 <= k < i ==> #[trigger] screen@[k] == back@[k],
                    forall|k: int| i <= k < s0.len() ==> #[trigger] screen@[k] == s0[k],
                decreases size - i,
            {
                let v = back[i];
                screen.set(i, v);
                i = i + 1;
            }
            proof {
                assert(screen@ =~= back@.subrange(0, size as int) + s0.subrange(size as int, s0.len() as int));
            }
        } else {
            scroll_buffer(screen, row_size, height);
        }
    }
}


/// What a backslash followed by `c` stands for: `\n`, `\t` and `\0` name
/// the newline, the tab and NUL; any other character stands for itself.
pub open spec fn escaped(c: char) -> char {
    if c == 'n' {
        '\n'
    } else if c == 't' {
        '\t'
    } else if c == '0' {
        '\0'
    } else {
        c
    }
}

/// What a backslash followed by `next_char` stands for.
pub fn parse_escaped_char(next_char: char) -> (r: char)
    ensures
        r == escaped(next_char),
{
    match next_char {
        'n' => '\n',
        't' => '\t',
        '0' => '\0',
        _ => next_char,
    }
}

/// Splitting `s` into words from position `i`. `mode` says where the
/// splitter is: 0 between words, 1 in a word quoted with `"`, 2 in one quoted
/// with `'`, 3 in an unquoted word; `cur` is the word so far and `acc` the
/// words done. Spaces separate words; a quote starts a quoted word, which
/// runs to the same quote (the other quote is an ordinary character in it)
/// or to the end; a quote or a space ends an unquoted word; a backslash
/// takes the next character as an escape, or nothing at the end.
pub open spec fn split_words(s: Seq<char>, i: int, mode: int, cur: Seq<char>, acc: Seq<Seq<char>>) -> Seq<Seq<char>>
    decreases s.len() - i,
{
    if i >= s.len() || i < 0 {
        if mode == 0 { acc } else { acc.push(cur) }
    } else {
        let c = s[i];
        if c == '\\' {
            let m = if mode == 0 { 3 } else { mode };
            let base = if mode == 0 { Seq::<char>::empty() } else { cur };
            if i + 1 < s.len() {
                split_words(s, i + 2, m, base.push(escaped(s[i + 1])), acc)
            } else {
                split_words(s, i + 1, m, base, acc)
            }
        } else if mode == 1 || mode == 2 {
            if (mode == 1 && c == '"') || (mode == 2 && c == '\'') {
                split_words(s, i + 1, 0, Seq::empty(), acc.push(cur))
            } else {
                split_words(s, i + 1, mode, cur.push(c), acc)
            }
        } else {
            let acc2 = if mode == 3 && (c == ' ' || c == '"' || c == '\'') { acc.push(cur) } else { acc };
            if c == ' ' {
                split_words(s, i + 1, 0, Seq::empty(), acc2)
            } else if c == '"' {
                split_words(s, i + 1, 1, Seq::empty(), acc2)
            } else if c == '\'' {
                split_words(s, i + 1, 2, Seq::empty(), acc2)
            } else if mode == 3 {
                split_words(s, i + 1, 3, cur.push(c), acc)
            } else {
                split_words(s, i + 1, 3, seq![c], acc)
            }
        }
    }
}

/// The words of `s`.
pub open spec fn words(s: Seq<char>) -> Seq<Seq<char>> {
    split_words(s, 0, 0, Seq::empty(), Seq::empty())
}

/// The command a line names: its first word, or nothing.
pub open spec fn command_word(w: Seq<Seq<char>>) -> Seq<char> {
    if w.len() > 0 { w[0] } else { Seq::empty() }
}

/// The arguments a line gives: its words after the first.
pub open spec fn argument_words(w: Seq<Seq<char>>) -> Seq<Seq<char>> {
    if w.len() > 0 { w.drop_first() } else { Seq::empty() }
}

/// The characters of each string.
pub open spec fn string_views(v: Seq<String>) -> Seq<Seq<char>> {
    v.map_values(|x: String| x@)
}

/// Splits the line `input` into its command and its arguments.
pub fn parse_words(input: &str) -> (r: (String, Vec<String>))
    ensures
        r.0@ == command_word(words(input@)),
        string_views(r.1@) == argument_words(words(input@)),
{
    let n = input.unicode_len();
    let ghost s = input@;
    let mut mode: u8 = 0;
    let mut cur = String::new();
    let mut acc: Vec<String> = Vec::new();
    let mut i: usize = 0;
    proof {
        assert(string_views(acc@) =~= Seq::<Seq<char>>::empty());
    }
    while i < n
        invariant
            n == s.len(),
            s == input@,
            0 <= i <= n + 1,
            mode <= 3,
            split_words(s, 0, 0, Seq::empty(), Seq::empty())
                == split_words(s, i as int, mode as int, cur@, string_views(acc@)),
        decreases n + 1 - i,
    {
        let c = input.get_char(i);
        let ghost before = string_views(acc@);
        if c == '\\' {
            if mode == 0 {
                mode = 3;
                cur = String::new();
            }
            if i + 1 < n {
                let e = parse_escaped_char(input.get_char(i + 1));
                push_char(&mut cur, e);
                i = i + 2;
            } else {
                i = i + 1;
            }
        } else if mode == 1 || mode == 2 {
            if (mode == 1 && c == '"') || (mode == 2 && c == '\'') {
                let done = cur;
                acc.push(done);
                proof {
                    assert(string_views(acc@) =~= before.push(done@));
                }
                cur = String::new();
                mode = 0;
            } else {
                push_char(&mut cur, c);
            }
            i = i + 1;
        } else {
            if mode == 3 && (c == ' ' || c == '"' || c == '\'') {
                let done = cur;
                acc.push(done);
                proof {
                    assert(string_views(acc@) =~= before.push(done@));
                }
                cur = String::new();
            }
            if c == ' ' {
                mode = 0;
                cur = String::new();
            } else if c == '"' {
                mode = 1;
                cur = String::new();
            } else if c == '\'' {
                mode = 2;
                cur = String::new();
            } else if mode == 3 {
                push_char(&mut cur, c);
            } else {
                cur = String::new();
                push_char(&mut cur, c);
                mode = 3;
            }
            i = i + 1;
        }
    }
    if mode != 0 {
        let ghost before = string_views(acc@);
        let done = cur;
        acc.push(done);
        proof {
            assert(string_views(acc@) =~= before.push(done@));
        }
    }
    let ghost w = string_views(acc@);
    if acc.len() == 0 {
        (String::new(), acc)
    } else {
        let command = acc.remove(0);
        proof {
            assert(string_views(acc@) =~= w.drop_first());
        }
        (command, acc)
    }
}


/// The value of `c` as a digit in base `radix` (up to 36), if it is one.
pub open spec fn digit_in_radix(c: char, radix: nat) -> Option<nat> {
    let v: int = if '0' <= c && c <= '9' {
        c as int - '0' as int
    } else if 'a' <= c && c <= 'z' {
        c as int - 'a' as int + 10
    } else if 'A' <= c && c <= 'Z' {
        c as int - 'A' as int + 10
    } else {
        radix as int
    };
    if 0 <= v < radix { Some(v as nat) } else { None }
}

/// The number the digits `s` write in base `radix`.
pub open spec fn radix_value(s: Seq<char>, radix: nat) -> nat
    decreases s.len(),
{
    if s.len() == 0 {
        0
    } else {
        radix_value(s.drop_last(), radix) * radix + match digit_in_radix(s.last(), radix) {
            Some(d) => d,
            None => 0,
        }
    }
}

/// `s` without a leading `+`.
pub open spec fn unsigned_digits(s: Seq<char>) -> Seq<char> {
    if s.len() > 0 && s[0] == '+' { s.drop_first() } else { s }
}

/// Whether every character of `s` is a digit in base `radix`.
pub open spec fn all_digits(s: Seq<char>, radix: nat) -> bool {
    forall|i: int| 0 <= i < s.len() ==> #[trigger] digit_in_radix(s[i], radix) is Some
}

/// What an unsigned `from_str_radix` gives for `s`: an optional `+`, then
/// at least one digit of the base, and a number up to `max`.
pub open spec fn parse_unsigned(s: Seq<char>, radix: nat, max: nat) -> Option<nat> {
    let body = unsigned_digits(s);
    if body.len() > 0 && all_digits(body, radix) && radix_value(body, radix) <= max {
        Some(radix_value(body, radix))
    } else {
        None
    }
}

proof fn lemma_radix_value_grows(s: Seq<char>, radix: nat, i: int, j: int)
    requires
        0 <= i <= j <= s.len(),
        radix >= 1,
    ensures
        radix_value(s.subrange(0, i), radix) <= radix_value(s.subrange(0, j), radix),
    decreases j - i,
{
    if i < j {
        lemma_radix_value_grows(s, radix, i, j - 1);
        assert(s.subrange(0, j).drop_last() =~= s.subrange(0, j - 1));
        let a = radix_value(s.subrange(0, j - 1), radix);
        assert(a <= a * radix) by (nonlinear_arith)
            requires radix >= 1;
    }
}

/// The value of digit `c` in base `radix`, if it is one.
fn digit_value_in(c: char, radix: u32) -> (r: Option<u32>)
    requires
        2 <= radix <= 36,
    ensures
        match r {
            Some(d) => digit_in_radix(c, radix as nat) == Some(d as nat),
            None => digit_in_radix(c, radix as nat) is None,
        },
{
    let v: u32 = if '0' <= c && c <= '9' {
        (c as u32) - ('0' as u32)
    } else if 'a' <= c && c <= 'z' {
        (c as u32) - ('a' as u32) + 10
    } else if 'A' <= c && c <= 'Z' {
        (c as u32) - ('A' as u32) + 10
    } else {
        radix
    };
    if v < radix { Some(v) } else { None }
}

/// Reads `s` from character `start` on as an unsigned number in base
/// `radix` no larger than `max`, as `from_str_radix` does.
pub fn parse_unsigned_from(s: &str, start: usize, radix: u32, max: u64) -> (r: Option<u64>)
    requires
        start <= s@.len(),
        2 <= radix <= 36,
    ensures
        match r {
            Some(v) => parse_unsigned(s@.subrange(start as int, s@.len() as int), radix as nat, max as nat) == Some(v as nat),
            None => parse_unsigned(s@.subrange(start as int, s@.len() as int), radix as nat, max as nat) is None,
        },
{
    let n = s.unicode_len();
    let ghost whole = s@.subrange(start as int, n as int);
    let mut i = start;
    if i < n && s.get_char(i) == '+' {
        i = i + 1;
    }
    let ghost body = s@.subrange(i as int, n as int);
    proof {
        if whole.len() > 0 && whole[0] == '+' {
            assert(whole.drop_first() =~= body);
        } else {
            assert(whole =~= body);
        }
    }
    if i == n {
        return None;
    }
    let first = i;
    let mut v: u128 = 0;
    while i < n
        invariant
            n == s@.len(),
            start <= first <= i <= n,
            first < n,
            body == s@.subrange(first as int, n as int),
            whole == s@.subrange(start as int, n as int),
            unsigned_digits(whole) == body,
            2 <= radix <= 36,
            v == radix_value(body.subrange(0, i - first), radix as nat),
            v <= max,
            forall|k: int| 0 <= k < i - first ==> #[trigger] digit_in_radix(body[k], radix as nat) is Some,
        decreases n - i,
    {
        let c = s.get_char(i);
        proof {
            assert(body[i - first] == c);
        }
        let d = match digit_value_in(c, radix) {
            Some(d) => d,
            None => {
                proof {
                    let k = i - first;
                    assert(!(digit_in_radix(body[k], radix as nat) is Some));
                    assert(!all_digits(body, radix as nat));
                    assert(parse_unsigned(whole, radix as nat, max as nat) is None);
                }
                return None;
            },
        };
        proof {
            assert(body.subrange(0, i - first + 1).drop_last() =~= body.subrange(0, i - first));
            assert(v * radix + d <= 0xFFFF_FFFF_FFFF_FFFFu128 * 36 + 36) by (nonlinear_arith)
                requires v <= 0xFFFF_FFFF_FFFF_FFFFu128, radix <= 36, d < 36;
        }
        v = v * (radix as u128) + (d as u128);
        if v > max as u128 {
            proof {
                lemma_radix_value_grows(body, radix as nat, i - first + 1, body.len() as int);
                assert(body.subrange(0, body.len() as int) =~= body);
                assert(radix_value(body, radix as nat) > max);
                assert(parse_unsigned(whole, radix as nat, max as nat) is None);
            }
            return None;
        }
        i = i + 1;
    }
    proof {
        assert(body.subrange(0, n - first) =~= body);
    }
    Some(v as u64)
}

/// The address `input` writes in hexadecimal after `0x`.
pub open spec fn memory_address(input: Seq<char>) -> Option<nat> {
    if seq!['0', 'x'].is_prefix_of(input) {
        parse_unsigned(input.subrange(2, input.len() as int), 16, 0xFFFF_FFFF_FFFF_FFFF)
    } else {
        None
    }
}

/// Reads a memory address written `0x` and hexadecimal digits.
pub fn parse_memory_address(input: &str) -> (r: Option<u64>)
    ensures
        match r {
            Some(v) => memory_address(input@) == Some(v as nat),
            None => memory_address(input@) is None,
        },
{
    let p = str_starts_with(input, "0x");
    proof {
        reveal_strlit("0x");
    }
    if p {
        parse_unsigned_from(input, 2, 16, u64::MAX)
    } else {
        None
    }
}


/// What the shell asks of the kernel for a command.
#[derive(Debug)]
pub enum ShellAction {
    /// Write the text on the console.
    Puts(String),
    /// Move the cursor one cell left.
    MoveLeft,
    /// Move the cursor one cell right.
    MoveRight,
    /// Print how much of the heap is used, free and there in all.
    MemStat,
    /// Allocate this many bytes, aligned to 16, write 42 there and print where.
    MemAlloc(usize),
    /// Free the allocation of this size at this address.
    MemDealloc { address: u64, size: usize },
    /// Print the 32-bit value at this address.
    MemTest(u64),
    /// Allocate and free all the free heap memory.
    MemFill,
    /// Write this 32-bit value at this address and print it.
    Poke { address: u64, value: u32 },
    /// Clear the screen.
    Clear,
    /// Print the bytes of the file at this path.
    Read(String),
    /// Write a greeting through the system call interrupt.
    SyscallTest,
    /// Print the command and its arguments as Rust debug strings.
    Unknown { command: String, args: Vec<String> },
    /// Run this line as a command.
    Execute(String),
}

/// A `ShellAction` with its strings taken as their characters.
pub enum ActionView {
    Puts(Seq<char>),
    MoveLeft,
    MoveRight,
    MemStat,
    MemAlloc(usize),
    MemDealloc(u64, usize),
    MemTest(u64),
    MemFill,
    Poke(u64, u32),
    Clear,
    Read(Seq<char>),
    SyscallTest,
    Unknown(Seq<char>, Seq<Seq<char>>),
    Execute(Seq<char>),
}

impl View for ShellAction {
    type V = ActionView;

    open spec fn view(&self) -> ActionView {
        match self {
            ShellAction::Puts(s) => ActionView::Puts(s@),
            ShellAction::MoveLeft => ActionView::MoveLeft,
            ShellAction::MoveRight => ActionView::MoveRight,
            ShellAction::MemStat => ActionView::MemStat,
            ShellAction::MemAlloc(n) => ActionView::MemAlloc(*n),
            ShellAction::MemDealloc { address, size } => ActionView::MemDealloc(*address, *size),
            ShellAction::MemTest(a) => ActionView::MemTest(*a),
            ShellAction::MemFill => ActionView::MemFill,
            ShellAction::Poke { address, value } => ActionView::Poke(*address, *value),
            ShellAction::Clear => ActionView::Clear,
            ShellAction::Read(s) => ActionView::Read(s@),
            ShellAction::SyscallTest => ActionView::SyscallTest,
            ShellAction::Unknown { command, args } => ActionView::Unknown(command@, string_views(args@)),
            ShellAction::Execute(s) => ActionView::Execute(s@),
        }
    }
}

/// The views of a sequence of actions.
pub open spec fn actions_view(v: Seq<ShellAction>) -> Seq<ActionView> {
    v.map_values(|a: ShellAction| a@)
}

/// A line of text: `s` followed by a newline.
pub open spec fn line(s: &str) -> ActionView {
    ActionView::Puts(s@ + seq!['\n'])
}

/// What `memalloc` does from argument `i` on, freeing: arguments starting
/// with `-` are skipped, one starting with `0x` is the address, any other
/// the size. `Some(Err(()))` where an argument is no number; `None` where an
/// address does not parse, which the kernel does not survive.
pub open spec fn dealloc_scan(args: Seq<Seq<char>>, i: int, address: u64, size: usize) -> Option<Result<(u64, usize), ()>>
    decreases args.len() - i,
{
    if i < 0 || i >= args.len() {
        Some(Ok((address, size)))
    } else {
        let arg = args[i];
        if seq!['-'].is_prefix_of(arg) {
            dealloc_scan(args, i + 1, address, size)
        } else if seq!['0', 'x'].is_prefix_of(arg) {
            match memory_address(arg) {
                Some(a) => dealloc_scan(args, i + 1, a as u64, size),
                None => None,
            }
        } else {
            match parse_unsigned(arg, 10, usize::MAX as nat) {
                Some(n) => dealloc_scan(args, i + 1, address, n as usize),
                None => Some(Err(())),
            }
        }
    }
}

/// What `memalloc` does with `args`.
pub open spec fn memalloc_actions(args: Seq<Seq<char>>) -> Option<Seq<ActionView>> {
    if args.len() == 0 {
        Some(seq![line("Allocation size is required. See --help for detailed instructions.")])
    } else if args[0] == "--help"@ || args[0] == "-h"@ {
        Some(seq![line("memalloc ALLOCATION_SIZE [OPTIONS]\n-d alias: --dealloc; Deallocates memory at the specified location with specified size.")])
    } else if args.len() == 1 {
        match parse_unsigned(args[0], 10, usize::MAX as nat) {
            Some(n) => Some(seq![ActionView::MemAlloc(n as usize)]),
            None => Some(seq![line("Provided argument is not a number. See --help for detailed instructions.")]),
        }
    } else if args.len() < 3 {
        Some(seq![line("Malformed input. See --help for detailed instructions.")])
    } else {
        match dealloc_scan(args, 0, 0, 0) {
            Some(Ok((a, n))) => Some(seq![ActionView::MemDealloc(a, n)]),
            Some(Err(())) => Some(seq![line("Provided argument is not a number. See --help for detailed instructions.")]),
            None => None,
        }
    }
}

/// What `poke` does with `args`, before the line every `poke` ends with;
/// `None` where the value does not parse, which the kernel does not survive.
pub open spec fn poke_actions(args: Seq<Seq<char>>) -> Option<Seq<ActionView>> {
    match memory_address(args[0]) {
        Some(a) => match parse_unsigned(args[1], 10, u32::MAX as nat) {
            Some(v) => Some(seq![ActionView::Poke(a as u64, v as u32)]),
            None => None,
        },
        None => Some(seq![line("First argument provided is not a memory address.")]),
    }
}

/// What running `command` with `args` does; `None` where the kernel would
/// not survive it.
pub open spec fn exec_actions(command: Seq<char>, args: Seq<Seq<char>>) -> Option<Seq<ActionView>> {
    if command.len() == 0 {
        Some(Seq::empty())
    } else if command == "memstat"@ {
        Some(seq![ActionView::MemStat])
    } else if command == "memalloc"@ {
        memalloc_actions(args)
    } else if command == "memtest"@ {
        if args.len() == 0 {
            Some(seq![line("Memory address to test is required.")])
        } else {
            match memory_address(args[0]) {
                Some(a) => Some(seq![ActionView::MemTest(a as u64)]),
                None => Some(seq![line("Argument provided is not a memory address.")]),
            }
        }
    } else if command == "memfill"@ {
        Some(seq![ActionView::MemFill])
    } else if command == "echo"@ {
        Some(seq![ActionView::Puts(if args.len() != 0 { args[0] } else { Seq::empty() }), ActionView::Puts(seq!['\n'])])
    } else if command == "poke"@ {
        if args.len() < 2 {
            Some(seq![line("poke: usage error: memory address & value required!")])
        } else {
            match poke_actions(args) {
                Some(p) => Some(p.push(ActionView::Unknown(command, args))),
                None => None,
            }
        }
    } else if command == "clear"@ {
        Some(seq![ActionView::Clear])
    } else if command == "read"@ {
        if args.len() < 1 {
            Some(seq![line("read: usage error: at least one argument is required!")])
        } else {
            Some(seq![ActionView::Read(args[0])])
        }
    } else if command == "test"@ {
        Some(seq![ActionView::SyscallTest])
    } else {
        Some(seq![ActionView::Unknown(command, args)])
    }
}

/// A line of text on the console.
fn println(s: &str) -> (r: ShellAction)
    ensures
        r@ == line(s),
{
    proof {
        reveal_strlit("\n");
        assert("\n"@ =~= seq!['\n']);
    }
    let t = String::from_str(s).concat("\n");
    ShellAction::Puts(t)
}

/// The strings of `v`, copied.
fn clone_strings(v: &Vec<String>) -> (r: Vec<String>)
    ensures
        string_views(r@) == string_views(v@),
{
    let mut r: Vec<String> = Vec::new();
    let mut i: usize = 0;
    while i < v.len()
        invariant
            0 <= i <= v@.len(),
            string_views(r@) == string_views(v@.subrange(0, i as int)),
        decreases v@.len() - i,
    {
        let ghost before = string_views(r@);
        let s = v[i].clone();
        r.push(s);
        proof {
            assert(string_views(r@) =~= before.push(s@));
            assert(string_views(v@.subrange(0, i + 1)) =~= string_views(v@.subrange(0, i as int)).push(v@[i as int]@));
        }
        i = i + 1;
    }
    proof {
        assert(v@.subrange(0, v@.len() as int) =~= v@);
    }
    r
}

/// Scans the arguments of a `memalloc` that frees, as `dealloc_scan` does.
fn scan_dealloc(args: &Vec<String>) -> (r: Option<Result<(u64, usize), ()>>)
    ensures
        r == dealloc_scan(string_views(args@), 0, 0, 0),
{
    let ghost a = string_views(args@);
    let mut address: u64 = 0;
    let mut size: usize = 0;
    let mut i: usize = 0;
    while i < args.len()
        invariant
            a == string_views(args@),
            0 <= i <= args@.len(),
            dealloc_scan(a, 0, 0, 0) == dealloc_scan(a, i as int, address, size),
        decreases args@.len() - i,
    {
        let arg = args[i].as_str();
        proof {
            assert(a[i as int] == arg@);
        }
        let dash = str_starts_with(arg, "-");
        let hex = str_starts_with(arg, "0x");
        proof {
            reveal_strlit("-");
            reveal_strlit("0x");
        }
        if dash {
        } else if hex {
            match parse_memory_address(arg) {
                Some(v) => {
                    address = v;
                },
                None => {
                    return None;
                },
            }
        } else {
            match parse_unsigned_from(arg, 0, 10, usize::MAX as u64) {
                Some(n) => {
                    proof {
                        assert(arg@.subrange(0, arg@.len() as int) =~= arg@);
                    }
                    size = n as usize;
                },
                None => {
                    proof {
                        assert(arg@.subrange(0, arg@.len() as int) =~= arg@);
                    }
                    return Some(Err(()));
                },
            }
        }
        i = i + 1;
    }
    Some(Ok((address, size)))
}

/// Runs `command` with `args`, as `exec_actions` says.
pub fn run_command(command: &String, args: &Vec<String>) -> (r: Vec<ShellAction>)
    requires
        exec_actions(command@, string_views(args@)) is Some,
    ensures
        actions_view(r@) == exec_actions(command@, string_views(args@)).unwrap(),
{
    let ghost a = string_views(args@);
    let mut r: Vec<ShellAction> = Vec::new();
    let c = command.as_str();
    proof {
        reveal_strlit("memstat");
        reveal_strlit("memalloc");
        reveal_strlit("memtest");
        reveal_strlit("memfill");
        reveal_strlit("echo");
        reveal_strlit("poke");
        reveal_strlit("clear");
        reveal_strlit("read");
        reveal_strlit("test");
    }
    if c.unicode_len() == 0 {
        proof {
            assert(actions_view(r@) =~= Seq::<ActionView>::empty());
        }
        return r;
    }
    let ghost full = exec_actions(command@, a).unwrap();
    if str_eq(c, "memstat") {
        r.push(ShellAction::MemStat);
        proof { assert(actions_view(r@) =~= full); }
    } else if str_eq(c, "memalloc") {
        if args.len() == 0 {
            r.push(println("Allocation size is required. See --help for detailed instructions."));
        } else if str_eq(args[0].as_str(), "--help") || str_eq(args[0].as_str(), "-h") {
            r.push(println("memalloc ALLOCATION_SIZE [OPTIONS]\n-d alias: --dealloc; Deallocates memory at the specified location with specified size."));
        } else if args.len() == 1 {
            let arg = args[0].as_str();
            proof {
                assert(arg@.subrange(0, arg@.len() as int) =~= arg@);
            }
            match parse_unsigned_from(arg, 0, 10, usize::MAX as u64) {
                Some(n) => r.push(ShellAction::MemAlloc(n as usize)),
                None => r.push(println("Provided argument is not a number. See --help for detailed instructions.")),
            }
        } else if args.len() < 3 {
            r.push(println("Malformed input. See --help for detailed instructions."));
        } else {
            match scan_dealloc(args) {
                Some(Ok((address, size))) => r.push(ShellAction::MemDealloc { address, size }),
                _ => r.push(println("Provided argument is not a number. See --help for detailed instructions.")),
            }
        }
        proof { assert(actions_view(r@) =~= full); }
    } else if str_eq(c, "memtest") {
        if args.len() == 0 {
            r.push(println("Memory address to test is required."));
        } else {
            match parse_memory_address(args[0].as_str()) {
                Some(address) => r.push(ShellAction::MemTest(address)),
                None => r.push(println("Argument provided is not a memory address.")),
            }
        }
        proof { assert(actions_view(r@) =~= full); }
    } else if str_eq(c, "memfill") {
        r.push(ShellAction::MemFill);
        proof { assert(actions_view(r@) =~= full); }
    } else if str_eq(c, "echo") {
        let input = if args.len() != 0 { args[0].clone() } else { String::new() };
        r.push(ShellAction::Puts(input));
        proof {
            reveal_strlit("\n");
            assert("\n"@ =~= seq!['\n']);
        }
        r.push(ShellAction::Puts(String::from_str("\n")));
        proof { assert(actions_view(r@) =~= full); }
    } else if str_eq(c, "poke") {
        if args.len() < 2 {
            r.push(println("poke: usage error: memory address & value required!"));
        } else {
            match parse_memory_address(args[0].as_str()) {
                Some(address) => {
                    let arg = args[1].as_str();
                    proof {
                        assert(arg@.subrange(0, arg@.len() as int) =~= arg@);
                    }
                    match parse_unsigned_from(arg, 0, 10, u32::MAX as u64) {
                        Some(value) => r.push(ShellAction::Poke { address, value: value as u32 }),
                        None => {},
                    }
                },
                None => r.push(println("First argument provided is not a memory address.")),
            }
            r.push(ShellAction::Unknown { command: command.clone(), args: clone_strings(args) });
        }
        proof { assert(actions_view(r@) =~= full); }
    } else if str_eq(c, "clear") {
        r.push(ShellAction::Clear);
        proof { assert(actions_view(r@) =~= full); }
    } else if str_eq(c, "read") {
        if args.len() < 1 {
            r.push(println("read: usage error: at least one argument is required!"));
        } else {
            r.push(ShellAction::Read(args[0].clone()));
        }
    } else if str_eq(c, "test") {
        r.push(ShellAction::SyscallTest);
    } else {
        r.push(ShellAction::Unknown { command: command.clone(), args: clone_strings(args) });
    }
    proof {
        assert(actions_view(r@) =~= exec_actions(command@, a).unwrap());
    }
    r
}

/// Splits the line `input`, trimmed, into its command and its arguments.
pub fn parse_input(input: &str) -> (r: (String, Vec<String>))
    ensures
        r.0@ == command_word(words(trimmed(input@))),
        string_views(r.1@) == argument_words(words(trimmed(input@))),
{
    parse_words(str_trim(input))
}

/// The command and arguments of the line `command`, as `exec` reads it:
/// trimmed, then trimmed again and split.
pub open spec fn exec_words(command: Seq<char>) -> Seq<Seq<char>> {
    words(trimmed(trimmed(command)))
}

/// Runs the command line `command`.
pub fn exec(command: &str) -> (r: Vec<ShellAction>)
    requires
        exec_actions(command_word(exec_words(command@)), argument_words(exec_words(command@))) is Some,
    ensures
        actions_view(r@) == exec_actions(command_word(exec_words(command@)), argument_words(exec_words(command@))).unwrap(),
{
    let (c, args) = parse_input(str_trim(command));
    run_command(&c, &args)
}

/// Runs the command line `command`, unless the kernel would not survive it:
/// `None` then.
pub fn exec_checked(command: &str) -> (r: Option<Vec<ShellAction>>)
    ensures
        match r {
            Some(v) => exec_actions(command_word(exec_words(command@)), argument_words(exec_words(command@))) == Some(actions_view(v@)),
            None => exec_actions(command_word(exec_words(command@)), argument_words(exec_words(command@))) is None,
        },
{
    let (c, args) = parse_input(str_trim(command));
    if command_fails(&c, &args) {
        None
    } else {
        Some(exec(command))
    }
}

/// Whether running `command` with `args` is something the kernel does not
/// survive: freeing at an address that does not parse, or poking a value
/// that does not parse.
pub fn command_fails(command: &String, args: &Vec<String>) -> (r: bool)
    ensures
        r == (exec_actions(command@, string_views(args@)) is None),
{
    let c = command.as_str();
    proof {
        reveal_strlit("memstat");
        reveal_strlit("memalloc");
        reveal_strlit("memtest");
        reveal_strlit("memfill");
        reveal_strlit("echo");
        reveal_strlit("poke");
    }
    if c.unicode_len() == 0 {
        return false;
    }
    if str_eq(c, "memalloc") {
        if args.len() < 3 || str_eq(args[0].as_str(), "--help") || str_eq(args[0].as_str(), "-h") {
            return false;
        }
        return scan_dealloc(args).is_none();
    }
    if str_eq(c, "poke") {
        if args.len() < 2 {
            return false;
        }
        proof {
            assert(string_views(args@)[0] == args@[0]@);
            assert(string_views(args@)[1] == args@[1]@);
            assert(command@ == "poke"@);
            assert(command@[0] != "memstat"@[0]);
            assert(command@[0] != "echo"@[0]);
            assert(exec_actions(command@, string_views(args@)) == (match poke_actions(string_views(args@)) {
                Some(p) => Some(p.push(ActionView::Unknown(command@, string_views(args@)))),
                None => None,
            }));
        }
        match parse_memory_address(args[0].as_str()) {
            Some(_) => {
                let arg = args[1].as_str();
                proof {
                    assert(arg@.subrange(0, arg@.len() as int) =~= arg@);
                }
                return parse_unsigned_from(arg, 0, 10, u32::MAX as u64).is_none();
            },
            None => {
                return false;
            },
        }
    }
    false
}


/// The line being typed, as bytes.
pub struct InputBuffer {
    pub buffer: Vec<u8>,
}

/// The text the bytes `b` hold: their UTF-8 decoding, or nothing when they
/// are not valid UTF-8.
pub open spec fn buffer_text(b: Seq<u8>) -> Seq<char> {
    match utf8_decoded(b) {
        Some(t) => t,
        None => Seq::empty(),
    }
}

impl InputBuffer {
    /// An empty line.
    pub fn new() -> (r: InputBuffer)
        ensures
            r.buffer@ == Seq::<u8>::empty(),
    {
        InputBuffer { buffer: Vec::new() }
    }

    /// Empties the line.
    pub fn clear(&mut self)
        ensures
            final(self).buffer@ == Seq::<u8>::empty(),
    {
        self.buffer.clear();
    }

    /// Appends a byte.
    pub fn push(&mut self, value: u8)
        ensures
            final(self).buffer@ == old(self).buffer@.push(value),
    {
        self.buffer.push(value);
    }

    /// Removes the last byte, if there is one.
    pub fn pop(&mut self)
        ensures
            final(self).buffer@ == (if old(self).buffer@.len() > 0 { old(self).buffer@.drop_last() } else { old(self).buffer@ }),
    {
        if self.buffer.len() > 0 {
            self.buffer.pop();
        }
    }

    /// The line as text; empty when its bytes are not valid UTF-8.
    pub fn as_str(&self) -> (r: &str)
        ensures
            r@ == buffer_text(self.buffer@),
    {
        match str_from_utf8(self.buffer.as_slice()) {
            Some(s) => s,
            None => {
                proof {
                    reveal_strlit("");
                }
                ""
            },
        }
    }
}

/// The byte a typed character is stored as: its code modulo 256.
pub open spec fn stored_byte(c: char) -> u8 {
    (c as u32 % 256) as u8
}

/// What typing `key` does on the console, with the line so far `buffer`:
/// the actions and the line after. Releases do nothing. Enter prints a line
/// break, runs the line, clears it and prompts again. The cursor keys move
/// the cursor left or right (up and down do nothing). Keys with no character
/// do nothing. Ctrl-C prints `^C`, clears the line and prompts again. A
/// backspace on a nonempty line removes the last byte and prints itself.
/// Any other character is stored and printed.
pub open spec fn typed(key: Key, buffer: Seq<u8>) -> (Seq<ActionView>, Seq<u8>) {
    if !key.pressed {
        (Seq::empty(), buffer)
    } else if key.character == Some('\n') {
        (seq![ActionView::Puts("\r\n"@), ActionView::Execute(buffer_text(buffer)), ActionView::Puts("> "@)], Seq::empty())
    } else if "Cur"@.is_prefix_of(key.name@) {
        if "Up"@.is_suffix_of(key.name@) || "Down"@.is_suffix_of(key.name@) {
            (Seq::empty(), buffer)
        } else if "Left"@.is_suffix_of(key.name@) {
            (seq![ActionView::MoveLeft], buffer)
        } else {
            (seq![ActionView::MoveRight], buffer)
        }
    } else if key.character is None {
        (Seq::empty(), buffer)
    } else if key.character == Some('\u{3}') {
        (seq![ActionView::Puts("^C\r\n"@), ActionView::Puts("> "@)], Seq::empty())
    } else if key.character == Some('\u{8}') {
        if buffer.len() == 0 {
            (Seq::empty(), buffer)
        } else {
            (seq![ActionView::Puts(seq!['\u{8}'])], buffer.drop_last())
        }
    } else {
        let c = key.character.unwrap();
        (seq![ActionView::Puts(seq![c])], buffer.push(stored_byte(c)))
    }
}

/// The text of one character.
fn char_string(c: char) -> (r: String)
    ensures
        r@ == seq![c],
{
    let mut s = String::new();
    push_char(&mut s, c);
    s
}

/// Takes the key `key` typed on the console into the line `input`, and gives
/// what the console does, as `typed` says.
pub fn handle_key(key: Key, input: &mut InputBuffer) -> (r: Vec<ShellAction>)
    ensures
        (actions_view(r@), final(input).buffer@) == typed(key, old(input).buffer@),
{
    let mut r: Vec<ShellAction> = Vec::new();
    proof {
        reveal_strlit("\r\n");
        reveal_strlit("> ");
        reveal_strlit("^C\r\n");
    }
    if !key.pressed {
        proof {
            assert(actions_view(r@) =~= Seq::<ActionView>::empty());
        }
        return r;
    }
    if key.character == Some('\n') {
        let line = String::from_str(input.as_str());
        r.push(ShellAction::Puts(String::from_str("\r\n")));
        r.push(ShellAction::Execute(line));
        input.clear();
        r.push(ShellAction::Puts(String::from_str("> ")));
        proof {
            assert(actions_view(r@) =~= typed(key, old(input).buffer@).0);
        }
        return r;
    }
    if str_starts_with(key.name, "Cur") {
        if str_ends_with(key.name, "Up") || str_ends_with(key.name, "Down") {
            proof {
                assert(actions_view(r@) =~= Seq::<ActionView>::empty());
            }
            return r;
        }
        if str_ends_with(key.name, "Left") {
            r.push(ShellAction::MoveLeft);
        } else {
            r.push(ShellAction::MoveRight);
        }
        proof {
            assert(actions_view(r@) =~= typed(key, old(input).buffer@).0);
        }
        return r;
    }
    let c = match key.character {
        None => {
            proof {
                assert(actions_view(r@) =~= Seq::<ActionView>::empty());
            }
            return r;
        },
        Some(c) => c,
    };
    if c == '\u{3}' {
        r.push(ShellAction::Puts(String::from_str("^C\r\n")));
        input.clear();
        r.push(ShellAction::Puts(String::from_str("> ")));
        proof {
            assert(actions_view(r@) =~= typed(key, old(input).buffer@).0);
        }
        return r;
    }
    if c == '\u{8}' {
        if input.buffer.len() == 0 {
            proof {
                assert(actions_view(r@) =~= Seq::<ActionView>::empty());
            }
            return r;
        }
        input.pop();
        r.push(ShellAction::Puts(char_string(c)));
        proof {
            assert(actions_view(r@) =~= typed(key, old(input).buffer@).0);
        }
        return r;
    }
    let b = (c as u32 % 256) as u8;
    input.push(b);
    r.push(ShellAction::Puts(char_string(c)));
    proof {
        assert(actions_view(r@) =~= typed(key, old(input).buffer@).0);
    }
    r
}


/// Moving right then left, away from the last column, puts the cursor
/// back where it was.
pub proof fn law_move_right_then_left(c: Cursor, columns: u16, rows: u16)
    requires
        columns >= 1,
        c.cx < columns - 1,
    ensures
        moved_left(moved_right(c, columns, rows).0, columns) == c,
{
}

/// `out` is `ops` followed by each character of `s` sent to the serial
/// port as it is.
pub open spec fn echoed(ops: Seq<ConsoleOp>, s: Seq<char>, out: Seq<ConsoleOp>) -> bool {
    &&& out.len() == ops.len() + s.len()
    &&& out.subrange(0, ops.len() as int) == ops
    &&& forall|i: int| 0 <= i < s.len() ==> out[ops.len() + i] == ConsoleOp::Serial(s[i])
}

proof fn lemma_serial_only_step(columns: u16, rows: u16, cur: Cursor, ops: Seq<ConsoleOp>, c: char)
    requires
        c != '\0',
        c != '\n',
    ensures
        puts_step(2, columns, rows, (false, Seq::empty(), cur, ops), c)
            == Some((false, Seq::<char>::empty(), cur, ops + seq![ConsoleOp::Serial(c)])),
        (ops + seq![ConsoleOp::Serial(c)]).len() == ops.len() + 1,
        (ops + seq![ConsoleOp::Serial(c)])[ops.len() as int] == ConsoleOp::Serial(c),
        (ops + seq![ConsoleOp::Serial(c)]).subrange(0, ops.len() as int) == ops,
{
    assert(!graphical(2u8) && serial(2u8)) by (bit_vector);
    assert((ops + seq![ConsoleOp::Serial(c)]).subrange(0, ops.len() as int) =~= ops);
    assert(serial_echo(2u8, c) =~= seq![ConsoleOp::Serial(c)]);
}

/// On a console that writes only to the serial port, text with no NUL and
/// no newline goes to the port character for character, and the cursor
/// does not move.
pub proof fn law_serial_echo(columns: u16, rows: u16, cur: Cursor, ops: Seq<ConsoleOp>, s: Seq<char>)
    requires
        forall|i: int| 0 <= i < s.len() ==> s[i] != '\0' && s[i] != '\n',
    ensures
        puts_run(2, columns, rows, (false, Seq::empty(), cur, ops), s) matches Some(r)
            && !r.0 && r.1 == Seq::<char>::empty() && r.2 == cur && echoed(ops, s, r.3),
    decreases s.len(),
{
    if s.len() == 0 {
        assert(ops.subrange(0, ops.len() as int) =~= ops);
    } else {
        lemma_serial_only_step(columns, rows, cur, ops, s[0]);
        let next_ops = ops + seq![ConsoleOp::Serial(s[0])];
        let rest = s.drop_first();
        assert forall|i: int| 0 <= i < rest.len() implies rest[i] != '\0' && rest[i] != '\n' by {
            assert(rest[i] == s[i + 1]);
        }
        law_serial_echo(columns, rows, cur, next_ops, rest);
        let out = puts_run(2, columns, rows, (false, Seq::empty(), cur, next_ops), rest).unwrap().3;
        assert(echoed(next_ops, rest, out));
        assert(out.len() == ops.len() + s.len());
        assert(out.subrange(0, ops.len() as int) =~= out.subrange(0, next_ops.len() as int).subrange(0, ops.len() as int));
        assert(out[ops.len() as int] == out.subrange(0, next_ops.len() as int)[ops.len() as int]);
        assert forall|i: int| 0 <= i < s.len() implies out[ops.len() + i] == ConsoleOp::Serial(s[i]) by {
            if i > 0 {
                assert(out[next_ops.len() + (i - 1)] == ConsoleOp::Serial(rest[i - 1]));
            }
        }
    }
}

/// Typing a character and then backspace leaves the line as it was.
pub proof fn law_backspace_undoes_typing(key: Key, back: Key, buffer: Seq<u8>)
    requires
        key.pressed,
        key.character matches Some(c) && c != '\n' && c != '\u{3}' && c != '\u{8}',
        !"Cur"@.is_prefix_of(key.name@),
        back.pressed,
        back.character == Some('\u{8}'),
        !"Cur"@.is_prefix_of(back.name@),
    ensures
        typed(back, typed(key, buffer).1).1 == buffer,
{
    assert(buffer.push(stored_byte(key.character.unwrap())).drop_last() =~= buffer);
}

proof fn lemma_decimal_digits_valid(n: nat)
    ensures
        decimal_digits_of(n).len() > 0,
        all_digits(decimal_digits_of(n), 10),
        radix_value(decimal_digits_of(n), 10) == n,
    decreases n,
{
    let last = (('0' as nat) + n % 10) as char;
    assert(last as int - '0' as int == n % 10);
    assert(digit_in_radix(last, 10) == Some((n % 10) as nat));
    if n >= 10 {
        lemma_decimal_digits_valid(n / 10);
        let d = decimal_digits_of(n);
        assert(d.drop_last() =~= decimal_digits_of(n / 10));
        assert(d.last() == last);
        assert(radix_value(d, 10) == radix_value(d.drop_last(), 10) * 10 + n % 10);
        assert forall|i: int| 0 <= i < d.len() implies #[trigger] digit_in_radix(d[i], 10) is Some by {
            if i < d.len() - 1 {
                assert(d[i] == decimal_digits_of(n / 10)[i]);
            }
        }
    } else {
        assert(decimal_digits_of(n).drop_last() =~= Seq::<char>::empty());
        assert(decimal_digits_of(n).last() == last);
        assert(radix_value(decimal_digits_of(n), 10) == radix_value(Seq::<char>::empty(), 10) * 10 + n % 10);
    }
}

/// The decimal digits of `n`, most significant first.
pub open spec fn decimal_digits_of(n: nat) -> Seq<char>
    decreases n,
{
    crate::mem::decimal_digits(n)
}

/// Reading back the decimal digits written for a number gives the number,
/// as long as it fits the bound.
pub proof fn law_decimal_round_trip(n: nat, max: nat)
    requires
        n <= max,
    ensures
        parse_unsigned(crate::mem::decimal_digits(n), 10, max) == Some(n),
{
    lemma_decimal_digits_valid(n);
    let d = crate::mem::decimal_digits(n);
    assert(d.len() > 0);
    if d[0] == '+' {
        assert(digit_in_radix(d[0], 10) is Some);
    }
    assert(unsigned_digits(d) == d);
}

} // verus!
