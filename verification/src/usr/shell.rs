//! The shell's keyboard handling: the modifier keys it tracks, and what a
//! key types once Shift, Caps Lock, Num Lock and Ctrl are taken into account.
use vstd::prelude::*;
use vstd::string::*;
use crate::drivers::keyboard::{Key, KBDError, kbd_init_writes, key_entry};
use crate::arch::port::PortWrite;
use crate::arch::x86_64::interrupts::{gate_for, pics_fit, IdtEntry, IDT_ENTRIES};
use crate::arch::x86_common::pic::ChainedPics;
use super::text::{str_starts_with, str_ends_with, str_eq, char_is_alphabetic, alphabetic, to_ascii_uppercase, ascii_upper};
use super::tty::{handle_key as tty_handle_key, typed, actions_view, InputBuffer, ShellAction, ActionView};

verus! {

/// The modifier keys, one flag each.
#[derive(Clone, Copy, Debug, PartialEq, Eq, Structural)]
pub struct ModStatus {
    pub win: bool,
    pub ctrl: bool,
    pub alt: bool,
    pub shift: bool,
    pub caps: bool,
    pub num_lock: bool,
    pub scr_lock: bool,
}

/// The modifiers a status byte holds: one per bit, from bit 0 up.
pub open spec fn status_of(b: u8) -> ModStatus {
    ModStatus {
        win: b & 1 != 0,
        ctrl: b & 2 != 0,
        alt: b & 4 != 0,
        shift: b & 8 != 0,
        caps: b & 16 != 0,
        num_lock: b & 32 != 0,
        scr_lock: b & 64 != 0,
    }
}

impl ModStatus {
    /// The status byte: one bit per modifier, from bit 0 up; bit 7 clear.
    pub fn to_byte(&self) -> (r: u8)
        ensures
            status_of(r) == *self,
            r < 128,
    {
        let (w, c, a, s, k, n, l) = (self.win, self.ctrl, self.alt, self.shift, self.caps, self.num_lock, self.scr_lock);
        let value: u8 = (if w { 0b0000_0001u8 } else { 0u8 }) | (if c { 0b0000_0010u8 } else { 0u8 })
            | (if a { 0b0000_0100u8 } else { 0u8 }) | (if s { 0b0000_1000u8 } else { 0u8 })
            | (if k { 0b0001_0000u8 } else { 0u8 }) | (if n { 0b0010_0000u8 } else { 0u8 })
            | (if l { 0b0100_0000u8 } else { 0u8 });
        proof {
            let v = value;
            assert(
                (v & 1 != 0) == w && (v & 2 != 0) == c && (v & 4 != 0) == a && (v & 8 != 0) == s
                && (v & 16 != 0) == k && (v & 32 != 0) == n && (v & 64 != 0) == l && v < 128
            ) by (bit_vector)
                requires v == ((if w { 1u8 } else { 0u8 }) | (if c { 2u8 } else { 0u8 }) | (if a { 4u8 } else { 0u8 })
                    | (if s { 8u8 } else { 0u8 }) | (if k { 16u8 } else { 0u8 }) | (if n { 32u8 } else { 0u8 })
                    | (if l { 64u8 } else { 0u8 }));
        }
        value
    }
}

/// A modifier key the shell tracks.
#[derive(Clone, Copy, Debug, PartialEq, Eq, Structural)]
pub enum Modifier {
    Win,
    Ctrl,
    Alt,
    Shift,
    Caps,
    NumLock,
    ScrLock,
}

/// `s` with modifier `m` set to `v`.
pub open spec fn with_modifier(s: ModStatus, m: Modifier, v: bool) -> ModStatus {
    match m {
        Modifier::Win => ModStatus { win: v, ..s },
        Modifier::Ctrl => ModStatus { ctrl: v, ..s },
        Modifier::Alt => ModStatus { alt: v, ..s },
        Modifier::Shift => ModStatus { shift: v, ..s },
        Modifier::Caps => ModStatus { caps: v, ..s },
        Modifier::NumLock => ModStatus { num_lock: v, ..s },
        Modifier::ScrLock => ModStatus { scr_lock: v, ..s },
    }
}

/// The keyboard lights after modifier `m` changes: Caps Lock and Scroll
/// Lock both flip bit 2, Num Lock flips bit 1, the others leave them.
pub open spec fn leds_after(leds: u8, m: Modifier) -> u8 {
    match m {
        Modifier::Caps => leds ^ 4,
        Modifier::NumLock => leds ^ 2,
        Modifier::ScrLock => leds ^ 4,
        _ => leds,
    }
}

/// The modifiers, as a status byte, and the keyboard lights.
pub struct ModStatusBits {
    pub status: u8,
    pub led_status: u8,
}

impl ModStatusBits {
    /// No modifier held, no light on.
    pub fn new() -> (r: ModStatusBits)
        ensures
            r.status == 0 && r.led_status == 0,
    {
        ModStatusBits { status: 0, led_status: 0 }
    }

    /// The modifiers the status byte holds.
    pub fn get_status(&self) -> (r: ModStatus)
        ensures
            r == status_of(self.status),
    {
        let status = self.status;
        proof {
            assert(((status >> 0u8) & 1 != 0) == (status & 1 != 0) && ((status >> 1u8) & 1 != 0) == (status & 2 != 0)
                && ((status >> 2u8) & 1 != 0) == (status & 4 != 0) && ((status >> 3u8) & 1 != 0) == (status & 8 != 0)
                && ((status >> 4u8) & 1 != 0) == (status & 16 != 0) && ((status >> 5u8) & 1 != 0) == (status & 32 != 0)
                && ((status >> 6u8) & 1 != 0) == (status & 64 != 0)) by (bit_vector);
        }
        ModStatus {
            win: ((status >> 0) & 1) != 0,
            ctrl: ((status >> 1) & 1) != 0,
            alt: ((status >> 2) & 1) != 0,
            shift: ((status >> 3) & 1) != 0,
            caps: ((status >> 4) & 1) != 0,
            num_lock: ((status >> 5) & 1) != 0,
            scr_lock: ((status >> 6) & 1) != 0,
        }
    }

    /// Sets modifier `key` to `status`, and gives the lights byte to send to
    /// the keyboard.
    pub fn set_modifier_key(&mut self, key: Modifier, status: bool) -> (leds: u8)
        ensures
            status_of(final(self).status) == with_modifier(status_of(old(self).status), key, status),
            final(self).status < 128,
            final(self).led_status == leds_after(old(self).led_status, key),
            leds == final(self).led_status,
    {
        let mut led_status = self.led_status;
        let mut mod_status = self.get_status();
        match key {
            Modifier::Win => mod_status.win = status,
            Modifier::Ctrl => mod_status.ctrl = status,
            Modifier::Alt => mod_status.alt = status,
            Modifier::Shift => mod_status.shift = status,
            Modifier::Caps => {
                led_status ^= 0b00000100;
                mod_status.caps = status;
            },
            Modifier::NumLock => {
                led_status ^= 0b00000010;
                mod_status.num_lock = status;
            },
            Modifier::ScrLock => {
                led_status ^= 0b00000100;
                mod_status.scr_lock = status;
            },
        }
        self.led_status = led_status;
        self.status = mod_status.to_byte();
        led_status
    }
}

/// The character Shift gives for `c` on a US layout, for the keys that are
/// not letters; other characters stay.
pub open spec fn shifted(c: char) -> char {
    if c == '`' { '~' }
    else if c == '1' { '!' }
    else if c == '2' { '@' }
    else if c == '3' { '#' }
    else if c == '4' { '$' }
    else if c == '5' { '%' }
    else if c == '6' { '^' }
    else if c == '7' { '&' }
    else if c == '8' { '*' }
    else if c == '9' { '(' }
    else if c == '0' { ')' }
    else if c == '-' { '_' }
    else if c == '=' { '+' }
    else if c == '[' { '{' }
    else if c == ']' { '}' }
    else if c == '\\' { '|' }
    else if c == ';' { ':' }
    else if c == '\'' { '"' }
    else if c == ',' { '<' }
    else if c == '.' { '>' }
    else if c == '/' { '?' }
    else { c }
}

/// The unshifted faces of the US keyboard's non-letter keys, and above each
/// the symbol Shift gives.
pub open spec fn us_lower_faces() -> Seq<char> {
    seq!['`', '1', '2', '3', '4', '5', '6', '7', '8', '9', '0', '-', '=', '[', ']', '\\', ';', '\'', ',', '.', '/']
}

/// The symbols printed above `us_lower_faces`, key for key.
pub open spec fn us_upper_faces() -> Seq<char> {
    seq!['~', '!', '@', '#', '$', '%', '^', '&', '*', '(', ')', '_', '+', '{', '}', '|', ':', '"', '<', '>', '?']
}

/// Law: Shift turns each non-letter key of the US layout into the symbol
/// printed above it (`9` into `(`, `0` into `)`), no two keys into the same
/// symbol, and leaves every other character as it is.
pub proof fn law_shift_gives_upper_faces(c: char)
    ensures
        forall|i: int| 0 <= i < 21 ==> shifted(#[trigger] us_lower_faces()[i]) == us_upper_faces()[i],
        forall|i: int, j: int| 0 <= i < 21 && 0 <= j < 21 && i != j ==> us_upper_faces()[i] != us_upper_faces()[j],
        !us_lower_faces().contains(c) ==> shifted(c) == c,
{
    assert forall|i: int| 0 <= i < 21 implies shifted(#[trigger] us_lower_faces()[i]) == us_upper_faces()[i] by {
        if i == 0 {} else if i == 1 {} else if i == 2 {} else if i == 3 {} else if i == 4 {} else if i == 5 {}
        else if i == 6 {} else if i == 7 {} else if i == 8 {} else if i == 9 {} else if i == 10 {} else if i == 11 {}
        else if i == 12 {} else if i == 13 {} else if i == 14 {} else if i == 15 {} else if i == 16 {} else if i == 17 {}
        else if i == 18 {} else if i == 19 {} else {}
    }
    if !us_lower_faces().contains(c) {
        assert forall|i: int| 0 <= i < 21 implies us_lower_faces()[i] != c by {}
        assert(c != us_lower_faces()[0] && c != us_lower_faces()[1] && c != us_lower_faces()[2] && c != us_lower_faces()[3]);
        assert(c != us_lower_faces()[4] && c != us_lower_faces()[5] && c != us_lower_faces()[6] && c != us_lower_faces()[7]);
        assert(c != us_lower_faces()[8] && c != us_lower_faces()[9] && c != us_lower_faces()[10] && c != us_lower_faces()[11]);
        assert(c != us_lower_faces()[12] && c != us_lower_faces()[13] && c != us_lower_faces()[14] && c != us_lower_faces()[15]);
        assert(c != us_lower_faces()[16] && c != us_lower_faces()[17] && c != us_lower_faces()[18] && c != us_lower_faces()[19]);
        assert(c != us_lower_faces()[20]);
    }
}

/// The character Shift gives for `character`, for keys that are not
/// letters.
pub fn capitalize_non_alphabetical(character: char) -> (r: char)
    ensures
        r == shifted(character),
{
    match character {
        '`' => '~',
        '1' => '!',
        '2' => '@',
        '3' => '#',
        '4' => '$',
        '5' => '%',
        '6' => '^',
        '7' => '&',
        '8' => '*',
        '9' => '(',
        '0' => ')',
        '-' => '_',
        '=' => '+',
        '[' => '{',
        ']' => '}',
        '\\' => '|',
        ';' => ':',
        '\'' => '"',
        ',' => '<',
        '.' => '>',
        '/' => '?',
        _ => character,
    }
}

/// The name a keypad key has without Num Lock: the keypad digits and dot
/// are the navigation keys printed on them; 5 keeps its name.
pub open spec fn keypad_name(c: char, name: &'static str) -> &'static str {
    if c == '7' { "Home" }
    else if c == '8' { "CurUp" }
    else if c == '9' { "PgUp" }
    else if c == '4' { "CurLeft" }
    else if c == '6' { "CurRight" }
    else if c == '1' { "End" }
    else if c == '2' { "CurDown" }
    else if c == '3' { "PgDown" }
    else if c == '0' { "Insert" }
    else if c == '.' { "Del" }
    else { name }
}

/// Law: without Num Lock a keypad key is named as the navigation key that
/// shares its scancode behind the extended prefix (keypad 7 is Home, keypad
/// 8 the up arrow, and so on), except keypad 3, which is named `PgDown`
/// where the extended key is `PgDn`.
pub proof fn law_keypad_names_match_extended_keys(code: u8)
    requires
        code == 0x47 || code == 0x48 || code == 0x49 || code == 0x4b || code == 0x4d || code == 0x4f || code == 0x50 || code == 0x51 || code == 0x52 || code == 0x53,
    ensures
        key_entry(code, false) matches Some((name, Some(c)))
            && key_entry(code, true) matches Some((extended_name, None))
            && (keypad_name(c, name) == extended_name || (code == 0x51 && extended_name == "PgDn" && keypad_name(c, name) == "PgDown")),
{
}

/// A keypad key without Num Lock: named for its navigation function, and
/// typing no character.
pub fn parse_keypad_keys(key: Key<'static>) -> (r: Key<'static>)
    requires
        key.character is Some,
    ensures
        r == (Key { pressed: key.pressed, name: keypad_name(key.character.unwrap(), key.name), character: None }),
{
    let mut key = key;
    match key.character.unwrap() {
        '7' => key.name = "Home",
        '8' => key.name = "CurUp",
        '9' => key.name = "PgUp",
        '4' => key.name = "CurLeft",
        '6' => key.name = "CurRight",
        '1' => key.name = "End",
        '2' => key.name = "CurDown",
        '3' => key.name = "PgDown",
        '0' => key.name = "Insert",
        '.' => key.name = "Del",
        _ => {},
    }
    key.character = None;
    key
}

/// What Ctrl makes of a key: Ctrl-C is the end-of-text character, the rest
/// type their own character.
pub open spec fn ctrl_char(c: char) -> char {
    if c == 'c' { '\u{3}' } else { c }
}

/// The character Ctrl and `key` type.
pub fn parse_unicode_keys(key: &Key) -> (r: char)
    requires
        key.character is Some,
    ensures
        r == ctrl_char(key.character.unwrap()),
{
    match key.character.unwrap() {
        'c' => '\u{3}',
        _ => key.character.unwrap(),
    }
}

/// What a character key types under the modifiers `m`: without Num Lock a
/// keypad key becomes a navigation key; with Ctrl, Ctrl's character; a
/// letter is upper case when exactly one of Shift and Caps Lock is on;
/// Shift gives the shifted symbol of other keys outside the keypad.
pub open spec fn parsed_key(key: Key<'static>, m: ModStatus) -> Key<'static> {
    let c = key.character.unwrap();
    if !m.num_lock && "Keypad"@.is_prefix_of(key.name@) {
        Key { pressed: key.pressed, name: keypad_name(c, key.name), character: None }
    } else if m.ctrl {
        Key { character: Some(ctrl_char(c)), ..key }
    } else if alphabetic(c) && (m.shift != m.caps) {
        Key { character: Some(ascii_upper(c)), ..key }
    } else if m.shift && !"Keypad"@.is_prefix_of(key.name@) {
        Key { character: Some(shifted(c)), ..key }
    } else {
        key
    }
}

/// The key `key` types under the modifiers in `mods`.
pub fn parse_key(key: Key<'static>, mods: &ModStatusBits) -> (r: Key<'static>)
    requires
        key.character is Some,
    ensures
        r == parsed_key(key, status_of(mods.status)),
{
    let mod_status = mods.get_status();
    let mut key = key;
    let keypad = str_starts_with(key.name, "Keypad");
    if !mod_status.num_lock && keypad {
        return parse_keypad_keys(key);
    }
    if mod_status.ctrl {
        key.character = Some(parse_unicode_keys(&key));
        return key;
    }
    let c = key.character.unwrap();
    if char_is_alphabetic(c) && (mod_status.shift ^ mod_status.caps) {
        key.character = Some(to_ascii_uppercase(c));
        return key;
    }
    if mod_status.shift && !keypad {
        key.character = Some(capitalize_non_alphabetical(c));
        return key;
    }
    key.character = Some(c);
    key
}

/// What a modifier key does to the modifiers `m`: Ctrl, Shift and Alt are
/// held (set while pressed), Caps Lock and Num Lock toggle when pressed;
/// other keys change nothing.
pub open spec fn mod_key_change(key: Key, m: ModStatus) -> Option<(Modifier, bool)> {
    if "Ctrl"@.is_suffix_of(key.name@) {
        Some((Modifier::Ctrl, key.pressed))
    } else if "Shift"@.is_suffix_of(key.name@) {
        Some((Modifier::Shift, key.pressed))
    } else if "Alt"@.is_suffix_of(key.name@) {
        Some((Modifier::Alt, key.pressed))
    } else if !key.pressed {
        None
    } else if key.name@ == "CapsLock"@ {
        Some((Modifier::Caps, !m.caps))
    } else if key.name@ == "NumLock"@ {
        Some((Modifier::NumLock, !m.num_lock))
    } else {
        None
    }
}

/// Updates the modifiers for the modifier key `key`, and gives the lights
/// byte sent to the keyboard when a modifier changed.
pub fn parse_mod_key(key: &Key, mods: &mut ModStatusBits) -> (r: Option<u8>)
    ensures
        match mod_key_change(*key, status_of(old(mods).status)) {
            Some((m, v)) => {
                &&& status_of(final(mods).status) == with_modifier(status_of(old(mods).status), m, v)
                &&& final(mods).led_status == leds_after(old(mods).led_status, m)
                &&& r == Some(final(mods).led_status)
            },
            None => *final(mods) == *old(mods) && r is None,
        },
{
    if str_ends_with(key.name, "Ctrl") {
        return Some(mods.set_modifier_key(Modifier::Ctrl, key.pressed));
    }
    if str_ends_with(key.name, "Shift") {
        return Some(mods.set_modifier_key(Modifier::Shift, key.pressed));
    }
    if str_ends_with(key.name, "Alt") {
        return Some(mods.set_modifier_key(Modifier::Alt, key.pressed));
    }
    if !key.pressed {
        return None;
    }
    let mod_status = mods.get_status();
    if str_eq(key.name, "CapsLock") {
        return Some(mods.set_modifier_key(Modifier::Caps, !mod_status.caps));
    }
    if str_eq(key.name, "NumLock") {
        return Some(mods.set_modifier_key(Modifier::NumLock, !mod_status.num_lock));
    }
    None
}

/// The prompt the shell prints before each command.
pub fn prompt() -> (r: String)
    ensures
        r@ == "> "@,
{
    String::from_str("> ")
}

/// Starts the shell: the prompt to print, and the keyboard's setup with
/// its interrupt gate pointed at `handler`.
pub fn init_shell(idt: &mut Vec<IdtEntry>, pics: &ChainedPics, handler: u64) -> (r: (String, Result<Vec<PortWrite>, KBDError>))
    requires
        old(idt)@.len() == IDT_ENTRIES,
        pics_fit(*pics),
    ensures
        r.0@ == "> "@,
        final(idt)@ == old(idt)@.update(33, gate_for(handler)),
        r.1 matches Ok(w) && w@ == kbd_init_writes(*pics),
{
    let p = prompt();
    let kbd = crate::drivers::keyboard::init(idt, pics, handler);
    (p, kbd)
}

/// Takes a key from the keyboard: a named key without a character may
/// change the modifiers (and the lights, whose byte is given), a character
/// key is read under the modifiers, and the console then takes the key.
pub fn handle_key(key: Key<'static>, mods: &mut ModStatusBits, input: &mut InputBuffer) -> (r: (Option<u8>, Vec<ShellAction>))
    ensures
        ({
            let changed = key.name.len() > 1 && key.character is None;
            let m0 = status_of(old(mods).status);
            let after_mods = if changed { mod_key_change(key, m0) } else { None };
            let k = if key.character is Some { parsed_key(key, status_of(final(mods).status)) } else { key };
            &&& (after_mods is None ==> *final(mods) == *old(mods) && r.0 is None)
            &&& (after_mods matches Some((m, v)) ==> status_of(final(mods).status) == with_modifier(m0, m, v)
                && final(mods).led_status == leds_after(old(mods).led_status, m) && r.0 == Some(final(mods).led_status))
            &&& (actions_view(r.1@), final(input).buffer@) == typed(k, old(input).buffer@)
        }),
{
    let mut key = key;
    let mut leds: Option<u8> = None;
    if key.name.len() > 1 && key.character.is_none() {
        leds = parse_mod_key(&key, mods);
    }
    if key.character.is_some() {
        key = parse_key(key, mods);
    }
    let actions = tty_handle_key(key, input);
    (leds, actions)
}


/// Pressing Caps Lock, Num Lock or Scroll Lock twice leaves the keyboard
/// lights as they were.
pub proof fn law_lock_keys_toggle_lights(leds: u8, m: Modifier)
    ensures
        leds_after(leds_after(leds, m), m) == leds,
{
    assert((leds ^ 4u8) ^ 4u8 == leds) by (bit_vector);
    assert((leds ^ 2u8) ^ 2u8 == leds) by (bit_vector);
}

} // verus!
