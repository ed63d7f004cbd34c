//! The first keyboard driver: scancode set 1 read straight into keys that
//! say whether they are modifiers and whether they print, with the
//! modifiers latched as their keys go down.
use vstd::prelude::*;
use crate::arch::port::PortWrite;
use crate::arch::x86_64::interrupts::{idt_set_gate, eoi_writes, gate_for, pics_fit, IdtEntry, IDT_ENTRIES, InterruptIndex};
use crate::arch::x86_common::pic::ChainedPics;

verus! {

/// The modifiers and locks as the driver has seen them.
#[derive(Clone, Copy, Debug, PartialEq, Eq, Structural)]
pub struct ModStatuses {
    pub escape: bool,
    pub tab: bool,
    pub win: bool,
    pub ctrl: bool,
    pub alt: bool,
    pub shift: bool,
    pub caps: bool,
    pub num_lock: bool,
    pub scr_lock: bool,
}

/// What the driver keeps from one scancode to the next: the modifiers, and
/// whether the extended prefix is in force.
#[derive(Clone, Copy, Debug, PartialEq, Eq, Structural)]
pub struct KeyboardState {
    pub statuses: ModStatuses,
    pub extended: bool,
}

impl KeyboardState {
    /// No modifier held, no lock on, no prefix seen.
    pub fn new() -> (r: KeyboardState)
        ensures
            r == (KeyboardState {
                statuses: ModStatuses {
                    escape: false,
                    tab: false,
                    win: false,
                    ctrl: false,
                    alt: false,
                    shift: false,
                    caps: false,
                    num_lock: false,
                    scr_lock: false,
                },
                extended: false,
            }),
    {
        KeyboardState {
            statuses: ModStatuses {
                escape: false,
                tab: false,
                win: false,
                ctrl: false,
                alt: false,
                shift: false,
                caps: false,
                num_lock: false,
                scr_lock: false,
            },
            extended: false,
        }
    }
}

/// A key as this driver reports it.
#[derive(Clone, Copy, Debug)]
pub struct Key<'a> {
    pub mod_key: bool,
    pub printable: bool,
    pub pressed: bool,
    pub key: &'a str,
}

/// The two faces of a key that shift and caps lock choose between: the
/// plain one first.
#[verifier::opaque]
pub open spec fn shifted_faces(code: u8) -> Option<(&'static str, &'static str)> {
    if false {
        None
    } else if code == 0x02 {
        Some(("1", "!"))
    } else if code == 0x03 {
        Some(("2", "@"))
    } else if code == 0x04 {
        Some(("3", "#"))
    } else if code == 0x05 {
        Some(("4", "$"))
    } else if code == 0x06 {
        Some(("5", "%"))
    } else if code == 0x07 {
        Some(("6", "^"))
    } else if code == 0x08 {
        Some(("7", "&"))
    } else if code == 0x09 {
        Some(("8", "*"))
    } else if code == 0x0A {
        Some(("9", "("))
    } else if code == 0x0B {
        Some(("0", ")"))
    } else if code == 0x0C {
        Some(("-", "_"))
    } else if code == 0x0D {
        Some(("=", "+"))
    } else if code == 0x10 {
        Some(("a", "A"))
    } else if code == 0x11 {
        Some(("w", "W"))
    } else if code == 0x12 {
        Some(("e", "E"))
    } else if code == 0x13 {
        Some(("r", "R"))
    } else if code == 0x14 {
        Some(("t", "T"))
    } else if code == 0x15 {
        Some(("y", "Y"))
    } else if code == 0x16 {
        Some(("u", "U"))
    } else if code == 0x17 {
        Some(("i", "I"))
    } else if code == 0x18 {
        Some(("o", "O"))
    } else if code == 0x19 {
        Some(("p", "P"))
    } else if code == 0x1A {
        Some(("[", "{"))
    } else if code == 0x1B {
        Some(("]", "}"))
    } else if code == 0x1E {
        Some(("a", "A"))
    } else if code == 0x1F {
        Some(("s", "S"))
    } else if code == 0x20 {
        Some(("d", "D"))
    } else if code == 0x21 {
        Some(("f", "F"))
    } else if code == 0x22 {
        Some(("g", "G"))
    } else if code == 0x23 {
        Some(("h", "H"))
    } else if code == 0x24 {
        Some(("j", "J"))
    } else if code == 0x25 {
        Some(("k", "K"))
    } else if code == 0x26 {
        Some(("l", "L"))
    } else if code == 0x27 {
        Some((";", ":"))
    } else if code == 0x28 {
        Some(("'", "\""))
    } else if code == 0x29 {
        Some(("`", "~"))
    } else if code == 0x2B {
        Some(("\\", "|"))
    } else if code == 0x2C {
        Some(("z", "Z"))
    } else if code == 0x2D {
        Some(("x", "X"))
    } else if code == 0x2E {
        Some(("c", "C"))
    } else if code == 0x2F {
        Some(("v", "V"))
    } else if code == 0x30 {
        Some(("b", "B"))
    } else if code == 0x31 {
        Some(("n", "N"))
    } else if code == 0x32 {
        Some(("m", "M"))
    } else if code == 0x33 {
        Some((",", "<"))
    } else if code == 0x34 {
        Some((".", ">"))
    } else if code == 0x35 {
        Some(("/", "?"))
    } else {
        None
    }
}

/// Keys that give the same key whatever the state: whether each prints,
/// and its name.
#[verifier::opaque]
pub open spec fn fixed_keys(code: u8) -> Option<(bool, &'static str)> {
    if false {
        None
    } else if code == 0x0E {
        Some((false, "Backspace"))
    } else if code == 0x1C {
        Some((false, "Enter"))
    } else if code == 0x37 {
        Some((true, "*"))
    } else if code == 0x39 {
        Some((true, " "))
    } else if code == 0x3B {
        Some((false, "F1"))
    } else if code == 0x3C {
        Some((false, "F2"))
    } else if code == 0x3D {
        Some((false, "F3"))
    } else if code == 0x3E {
        Some((false, "F4"))
    } else if code == 0x3F {
        Some((false, "F5"))
    } else if code == 0x40 {
        Some((false, "F6"))
    } else if code == 0x41 {
        Some((false, "F7"))
    } else if code == 0x42 {
        Some((false, "F8"))
    } else if code == 0x43 {
        Some((false, "F9"))
    } else if code == 0x44 {
        Some((false, "F10"))
    } else if code == 0x4A {
        Some((true, "-"))
    } else if code == 0x4E {
        Some((true, "+"))
    } else if code == 0x57 {
        Some((false, "F11"))
    } else if code == 0x58 {
        Some((false, "F10"))
    } else {
        None
    }
}

/// The keypad keys that num lock turns into digits: the key without num
/// lock, the digit with it, and whether the extended prefix gives the key
/// whatever num lock says.
#[verifier::opaque]
pub open spec fn keypad_keys(code: u8) -> Option<(&'static str, &'static str, bool)> {
    if false {
        None
    } else if code == 0x47 {
        Some(("Home", "7", false))
    } else if code == 0x48 {
        Some(("CurUp", "8", true))
    } else if code == 0x49 {
        Some(("PgUp", "9", true))
    } else if code == 0x4B {
        Some(("CurLeft", "4", true))
    } else if code == 0x4D {
        Some(("CurRight", "6", true))
    } else if code == 0x4F {
        Some(("End", "1", true))
    } else if code == 0x50 {
        Some(("CurDown", "2", true))
    } else if code == 0x51 {
        Some(("PgDn", "3", true))
    } else if code == 0x52 {
        Some(("Insert", "0", true))
    } else if code == 0x53 {
        Some(("Del", "0", true))
    } else {
        None
    }
}

/// A pressed key that is neither a modifier nor printable.
pub open spec fn plain(name: &'static str) -> Key<'static> {
    Key { mod_key: false, printable: false, pressed: true, key: name }
}

/// A pressed key that prints.
pub open spec fn printing(name: &'static str) -> Key<'static> {
    Key { mod_key: false, printable: true, pressed: true, key: name }
}

/// A pressed modifier or lock key.
pub open spec fn modifier(name: &'static str) -> Key<'static> {
    Key { mod_key: true, printable: false, pressed: true, key: name }
}

/// The key scancode `code` gives in state `st`. A key with two faces gives
/// the shifted one when exactly one of shift and caps lock is on. A keypad
/// key gives its digit under num lock, unless the extended prefix is in
/// force and the key has an extended meaning; the keypad's 5 gives nothing
/// without num lock. The modifier and lock keys, the release of left shift
/// and the extended prefix give keys of their own; any other code gives
/// none.
pub open spec fn basic_key(code: u8, st: KeyboardState) -> Option<Key<'static>> {
    let m = st.statuses;
    if let Some((lower, upper)) = shifted_faces(code) {
        Some(printing(if m.shift != m.caps { upper } else { lower }))
    } else if let Some((prints, name)) = fixed_keys(code) {
        Some(if prints { printing(name) } else { plain(name) })
    } else if let Some((name, digit, extended_name)) = keypad_keys(code) {
        Some(if (extended_name && st.extended) || !m.num_lock { plain(name) } else { printing(digit) })
    } else if code == 0x4C {
        if m.num_lock { Some(printing("5")) } else { None }
    } else if code == 0x01 {
        Some(modifier("Esc"))
    } else if code == 0x0F {
        Some(modifier("Tab"))
    } else if code == 0x1D {
        Some(if st.extended { plain("RCtrl") } else { modifier("LCtrl") })
    } else if code == 0x2A {
        Some(modifier("LShift"))
    } else if code == 0x36 {
        Some(modifier("RShift"))
    } else if code == 0x38 {
        Some(modifier("Alt"))
    } else if code == 0x3A {
        Some(modifier("CapsLock"))
    } else if code == 0x45 {
        Some(modifier("NumLock"))
    } else if code == 0x46 {
        Some(modifier("ScrLock"))
    } else if code == 0xAA {
        Some(Key { mod_key: true, printable: false, pressed: false, key: "LShift" })
    } else if code == 0xE0 {
        Some(Key { mod_key: false, printable: false, pressed: false, key: "E0" })
    } else {
        None
    }
}

/// Whether scancode `code` changes the driver's state.
pub open spec fn moves_state(code: u8) -> bool {
    code == 0x01 || code == 0x0F || code == 0x1D || code == 0x2A || code == 0x36 || code == 0x38
        || code == 0x3A || code == 0x45 || code == 0x46 || code == 0xAA || code == 0xE0
}

/// The state after scancode `code`: escape, tab, control, shift and alt are
/// latched on as their keys go down, left shift's release turns shift off,
/// the three lock keys flip their locks, the extended prefix flips the
/// prefix, and every other code leaves the state as it was.
pub open spec fn basic_state_after(code: u8, st: KeyboardState) -> KeyboardState {
    let m = st.statuses;
    if code == 0x01 {
        KeyboardState { statuses: ModStatuses { escape: true, ..m }, ..st }
    } else if code == 0x0F {
        KeyboardState { statuses: ModStatuses { tab: true, ..m }, ..st }
    } else if code == 0x1D {
        KeyboardState { statuses: ModStatuses { ctrl: true, ..m }, ..st }
    } else if code == 0x2A || code == 0x36 {
        KeyboardState { statuses: ModStatuses { shift: true, ..m }, ..st }
    } else if code == 0x38 {
        KeyboardState { statuses: ModStatuses { alt: true, ..m }, ..st }
    } else if code == 0x3A {
        KeyboardState { statuses: ModStatuses { caps: !m.caps, ..m }, ..st }
    } else if code == 0x45 {
        KeyboardState { statuses: ModStatuses { num_lock: !m.num_lock, ..m }, ..st }
    } else if code == 0x46 {
        KeyboardState { statuses: ModStatuses { scr_lock: !m.scr_lock, ..m }, ..st }
    } else if code == 0xAA {
        KeyboardState { statuses: ModStatuses { shift: false, ..m }, ..st }
    } else if code == 0xE0 {
        KeyboardState { extended: !st.extended, ..st }
    } else {
        st
    }
}

fn shifted_face_table(code: u8) -> (r: Option<(&'static str, &'static str)>)
    ensures
        r == shifted_faces(code),
        r is Some ==> !moves_state(code),
{
    reveal(shifted_faces);
    match code {
        0x02 => Some(("1", "!")),
        0x03 => Some(("2", "@")),
        0x04 => Some(("3", "#")),
        0x05 => Some(("4", "$")),
        0x06 => Some(("5", "%")),
        0x07 => Some(("6", "^")),
        0x08 => Some(("7", "&")),
        0x09 => Some(("8", "*")),
        0x0A => Some(("9", "(")),
        0x0B => Some(("0", ")")),
        0x0C => Some(("-", "_")),
        0x0D => Some(("=", "+")),
        0x10 => Some(("a", "A")),
        0x11 => Some(("w", "W")),
        0x12 => Some(("e", "E")),
        0x13 => Some(("r", "R")),
        0x14 => Some(("t", "T")),
        0x15 => Some(("y", "Y")),
        0x16 => Some(("u", "U")),
        0x17 => Some(("i", "I")),
        0x18 => Some(("o", "O")),
        0x19 => Some(("p", "P")),
        0x1A => Some(("[", "{")),
        0x1B => Some(("]", "}")),
        0x1E => Some(("a", "A")),
        0x1F => Some(("s", "S")),
        0x20 => Some(("d", "D")),
        0x21 => Some(("f", "F")),
        0x22 => Some(("g", "G")),
        0x23 => Some(("h", "H")),
        0x24 => Some(("j", "J")),
        0x25 => Some(("k", "K")),
        0x26 => Some(("l", "L")),
        0x27 => Some((";", ":")),
        0x28 => Some(("'", "\"")),
        0x29 => Some(("`", "~")),
        0x2B => Some(("\\", "|")),
        0x2C => Some(("z", "Z")),
        0x2D => Some(("x", "X")),
        0x2E => Some(("c", "C")),
        0x2F => Some(("v", "V")),
        0x30 => Some(("b", "B")),
        0x31 => Some(("n", "N")),
        0x32 => Some(("m", "M")),
        0x33 => Some((",", "<")),
        0x34 => Some((".", ">")),
        0x35 => Some(("/", "?")),
        _ => None,
    }
}

fn fixed_key_table(code: u8) -> (r: Option<(bool, &'static str)>)
    ensures
        r == fixed_keys(code),
        r is Some ==> !moves_state(code),
{
    reveal(fixed_keys);
    match code {
        0x0E => Some((false, "Backspace")),
        0x1C => Some((false, "Enter")),
        0x37 => Some((true, "*")),
        0x39 => Some((true, " ")),
        0x3B => Some((false, "F1")),
        0x3C => Some((false, "F2")),
        0x3D => Some((false, "F3")),
        0x3E => Some((false, "F4")),
        0x3F => Some((false, "F5")),
        0x40 => Some((false, "F6")),
        0x41 => Some((false, "F7")),
        0x42 => Some((false, "F8")),
        0x43 => Some((false, "F9")),
        0x44 => Some((false, "F10")),
        0x4A => Some((true, "-")),
        0x4E => Some((true, "+")),
        0x57 => Some((false, "F11")),
        0x58 => Some((false, "F10")),
        _ => None,
    }
}

fn keypad_table(code: u8) -> (r: Option<(&'static str, &'static str, bool)>)
    ensures
        r == keypad_keys(code),
        r is Some ==> !moves_state(code),
{
    reveal(keypad_keys);
    match code {
        0x47 => Some(("Home", "7", false)),
        0x48 => Some(("CurUp", "8", true)),
        0x49 => Some(("PgUp", "9", true)),
        0x4B => Some(("CurLeft", "4", true)),
        0x4D => Some(("CurRight", "6", true)),
        0x4F => Some(("End", "1", true)),
        0x50 => Some(("CurDown", "2", true)),
        0x51 => Some(("PgDn", "3", true)),
        0x52 => Some(("Insert", "0", true)),
        0x53 => Some(("Del", "0", true)),
        _ => None,
    }
}

/// Reads scancode `scancode` in the driver's state: gives `basic_key` of it
/// and moves the state on as `basic_state_after` says.
pub fn parse_key(scancode: u8, state: &mut KeyboardState) -> (r: Option<Key<'static>>)
    ensures
        r == basic_key(scancode, *old(state)),
        *final(state) == basic_state_after(scancode, *old(state)),
{
    let m = state.statuses;
    if let Some((lower, upper)) = shifted_face_table(scancode) {
        let name = if m.shift ^ m.caps { upper } else { lower };
        return Some(Key { mod_key: false, printable: true, pressed: true, key: name });
    }
    if let Some((prints, name)) = fixed_key_table(scancode) {
        return Some(Key { mod_key: false, printable: prints, pressed: true, key: name });
    }
    if let Some((name, digit, extended_name)) = keypad_table(scancode) {
        if extended_name && state.extended {
            return Some(Key { mod_key: false, printable: false, pressed: true, key: name });
        }
        if !m.num_lock {
            return Some(Key { mod_key: false, printable: false, pressed: true, key: name });
        }
        return Some(Key { mod_key: false, printable: true, pressed: true, key: digit });
    }
    match scancode {
        0x4C => {
            if m.num_lock {
                Some(Key { mod_key: false, printable: true, pressed: true, key: "5" })
            } else {
                None
            }
        },
        0x01 => {
            state.statuses.escape = true;
            Some(Key { mod_key: true, printable: false, pressed: true, key: "Esc" })
        },
        0x0F => {
            state.statuses.tab = true;
            Some(Key { mod_key: true, printable: false, pressed: true, key: "Tab" })
        },
        0x1D => {
            state.statuses.ctrl = true;
            if state.extended {
                Some(Key { mod_key: false, printable: false, pressed: true, key: "RCtrl" })
            } else {
                Some(Key { mod_key: true, printable: false, pressed: true, key: "LCtrl" })
            }
        },
        0x2A => {
            state.statuses.shift = true;
            Some(Key { mod_key: true, printable: false, pressed: true, key: "LShift" })
        },
        0x36 => {
            state.statuses.shift = true;
            Some(Key { mod_key: true, printable: false, pressed: true, key: "RShift" })
        },
        0x38 => {
            state.statuses.alt = true;
            Some(Key { mod_key: true, printable: false, pressed: true, key: "Alt" })
        },
        0x3A => {
            state.statuses.caps = !state.statuses.caps;
            Some(Key { mod_key: true, printable: false, pressed: true, key: "CapsLock" })
        },
        0x45 => {
            state.statuses.num_lock = !state.statuses.num_lock;
            Some(Key { mod_key: true, printable: false, pressed: true, key: "NumLock" })
        },
        0x46 => {
            state.statuses.scr_lock = !state.statuses.scr_lock;
            Some(Key { mod_key: true, printable: false, pressed: true, key: "ScrLock" })
        },
        0xAA => {
            state.statuses.shift = false;
            Some(Key { mod_key: true, printable: false, pressed: false, key: "LShift" })
        },
        0xE0 => {
            state.extended = !state.extended;
            Some(Key { mod_key: false, printable: false, pressed: false, key: "E0" })
        },
        _ => None,
    }
}

/// Points the keyboard's interrupt gate at `handler`, giving the
/// acknowledgement of its vector.
pub fn init_keyboard(idt: &mut Vec<IdtEntry>, pics: &ChainedPics, handler: u64) -> (r: Vec<PortWrite>)
    requires
        old(idt)@.len() == IDT_ENTRIES,
        pics_fit(*pics),
    ensures
        final(idt)@ == old(idt)@.update(33, gate_for(handler)),
        r@ == eoi_writes(*pics, 33),
{
    idt_set_gate(idt, pics, InterruptIndex::Keyboard.as_u8(), handler)
}

/// Each lock key, and the extended prefix, pressed twice leaves the
/// driver's state as it was.
pub proof fn law_locks_flip_back(code: u8, st: KeyboardState)
    requires
        code == 0x3A || code == 0x45 || code == 0x46 || code == 0xE0,
    ensures
        basic_state_after(code, basic_state_after(code, st)) == st,
{
}

/// Releasing left shift after pressing either shift key leaves shift off,
/// and every other modifier and lock as it was.
pub proof fn law_shift_press_release(code: u8, st: KeyboardState)
    requires
        code == 0x2A || code == 0x36,
    ensures
        basic_state_after(0xAA, basic_state_after(code, st))
            == (KeyboardState { statuses: ModStatuses { shift: false, ..st.statuses }, ..st }),
{
}

/// A key that is neither a modifier, a lock nor the extended prefix leaves
/// the driver's state as it was.
pub proof fn law_plain_keys_keep_state(code: u8, st: KeyboardState)
    requires
        basic_key(code, st) matches Some(k) && !k.mod_key && k.pressed && code != 0x1D,
    ensures
        basic_state_after(code, st) == st,
{
    reveal(shifted_faces);
    reveal(fixed_keys);
    reveal(keypad_keys);
}

/// Whether `code` gives, in state `st`, a printing key whose name is `lower`,
/// or `upper` when exactly one of shift and caps lock is on.
pub open spec fn gives_faces(code: u8, st: KeyboardState, lower: char, upper: char) -> bool {
    basic_key(code, st) matches Some(k) && k.printable && k.pressed && !k.mod_key
        && k.key@ == (if st.statuses.shift != st.statuses.caps { seq![upper] } else { seq![lower] })
}

/// Law: the keys with two faces follow the US keyboard: along the digit row
/// from 0x02 (`1` to `=`), the top row from 0x11 (`w` to `]`), the middle
/// row from 0x1E (`a` to the backquote) and the bottom row from 0x2B (the
/// backslash to `/`), each key gives the face printed on it, and the one
/// above it (its capital, for a letter) when exactly one of shift and caps
/// lock is on. (Scancode 0x10, the `q` key, gives `a` and `A`.)
pub proof fn law_faces_follow_us_rows(code: u8, st: KeyboardState)
    ensures
        0x2 <= code <= 0xd ==> gives_faces(code, st, seq!['1', '2', '3', '4', '5', '6', '7', '8', '9', '0', '-', '='][code - 0x2],
            seq!['!', '@', '#', '$', '%', '^', '&', '*', '(', ')', '_', '+'][code - 0x2]),
        0x11 <= code <= 0x1b ==> gives_faces(code, st, seq!['w', 'e', 'r', 't', 'y', 'u', 'i', 'o', 'p', '[', ']'][code - 0x11],
            seq!['W', 'E', 'R', 'T', 'Y', 'U', 'I', 'O', 'P', '{', '}'][code - 0x11]),
        0x1e <= code <= 0x29 ==> gives_faces(code, st, seq!['a', 's', 'd', 'f', 'g', 'h', 'j', 'k', 'l', ';', '\'', '`'][code - 0x1e],
            seq!['A', 'S', 'D', 'F', 'G', 'H', 'J', 'K', 'L', ':', '"', '~'][code - 0x1e]),
        0x2b <= code <= 0x35 ==> gives_faces(code, st, seq!['\\', 'z', 'x', 'c', 'v', 'b', 'n', 'm', ',', '.', '/'][code - 0x2b],
            seq!['|', 'Z', 'X', 'C', 'V', 'B', 'N', 'M', '<', '>', '?'][code - 0x2b]),
{
    reveal(shifted_faces);
    if false {
    } else if code == 0x2 {
        reveal_strlit("1");
        reveal_strlit("!");
        assert("1"@ =~= seq!['1']);
        assert("!"@ =~= seq!['!']);
    } else if code == 0x3 {
        reveal_strlit("2");
        reveal_strlit("@");
        assert("2"@ =~= seq!['2']);
        assert("@"@ =~= seq!['@']);
    } else if code == 0x4 {
        reveal_strlit("3");
        reveal_strlit("#");
        assert("3"@ =~= seq!['3']);
        assert("#"@ =~= seq!['#']);
    } else if code == 0x5 {
        reveal_strlit("4");
        reveal_strlit("$");
        assert("4"@ =~= seq!['4']);
        assert("$"@ =~= seq!['$']);
    } else if code == 0x6 {
        reveal_strlit("5");
        reveal_strlit("%");
        assert("5"@ =~= seq!['5']);
        assert("%"@ =~= seq!['%']);
    } else if code == 0x7 {
        reveal_strlit("6");
        reveal_strlit("^");
        assert("6"@ =~= seq!['6']);
        assert("^"@ =~= seq!['^']);
    } else if code == 0x8 {
        reveal_strlit("7");
        reveal_strlit("&");
        assert("7"@ =~= seq!['7']);
        assert("&"@ =~= seq!['&']);
    } else if code == 0x9 {
        reveal_strlit("8");
        reveal_strlit("*");
        assert("8"@ =~= seq!['8']);
        assert("*"@ =~= seq!['*']);
    } else if code == 0xa {
        reveal_strlit("9");
        reveal_strlit("(");
        assert("9"@ =~= seq!['9']);
        assert("("@ =~= seq!['(']);
    } else if code == 0xb {
        reveal_strlit("0");
        reveal_strlit(")");
        assert("0"@ =~= seq!['0']);
        assert(")"@ =~= seq![')']);
    } else if code == 0xc {
        reveal_strlit("-");
        reveal_strlit("_");
        assert("-"@ =~= seq!['-']);
        assert("_"@ =~= seq!['_']);
    } else if code == 0xd {
        reveal_strlit("=");
        reveal_strlit("+");
        assert("="@ =~= seq!['=']);
        assert("+"@ =~= seq!['+']);
    } else if code == 0x11 {
        reveal_strlit("w");
        reveal_strlit("W");
        assert("w"@ =~= seq!['w']);
        assert("W"@ =~= seq!['W']);
    } else if code == 0x12 {
        reveal_strlit("e");
        reveal_strlit("E");
        assert("e"@ =~= seq!['e']);
        assert("E"@ =~= seq!['E']);
    } else if code == 0x13 {
        reveal_strlit("r");
        reveal_strlit("R");
        assert("r"@ =~= seq!['r']);
        assert("R"@ =~= seq!['R']);
    } else if code == 0x14 {
        reveal_strlit("t");
        reveal_strlit("T");
        assert("t"@ =~= seq!['t']);
        assert("T"@ =~= seq!['T']);
    } else if code == 0x15 {
        reveal_strlit("y");
        reveal_strlit("Y");
        assert("y"@ =~= seq!['y']);
        assert("Y"@ =~= seq!['Y']);
    } else if code == 0x16 {
        reveal_strlit("u");
        reveal_strlit("U");
        assert("u"@ =~= seq!['u']);
        assert("U"@ =~= seq!['U']);
    } else if code == 0x17 {
        reveal_strlit("i");
        reveal_strlit("I");
        assert("i"@ =~= seq!['i']);
        assert("I"@ =~= seq!['I']);
    } else if code == 0x18 {
        reveal_strlit("o");
        reveal_strlit("O");
        assert("o"@ =~= seq!['o']);
        assert("O"@ =~= seq!['O']);
    } else if code == 0x19 {
        reveal_strlit("p");
        reveal_strlit("P");
        assert("p"@ =~= seq!['p']);
        assert("P"@ =~= seq!['P']);
    } else if code == 0x1a {
        reveal_strlit("[");
        reveal_strlit("{");
        assert("["@ =~= seq!['[']);
        assert("{"@ =~= seq!['{']);
    } else if code == 0x1b {
        reveal_strlit("]");
        reveal_strlit("}");
        assert("]"@ =~= seq![']']);
        assert("}"@ =~= seq!['}']);
    } else if code == 0x1e {
        reveal_strlit("a");
        reveal_strlit("A");
        assert("a"@ =~= seq!['a']);
        assert("A"@ =~= seq!['A']);
    } else if code == 0x1f {
        reveal_strlit("s");
        reveal_strlit("S");
        assert("s"@ =~= seq!['s']);
        assert("S"@ =~= seq!['S']);
    } else if code == 0x20 {
        reveal_strlit("d");
        reveal_strlit("D");
        assert("d"@ =~= seq!['d']);
        assert("D"@ =~= seq!['D']);
    } else if code == 0x21 {
        reveal_strlit("f");
        reveal_strlit("F");
        assert("f"@ =~= seq!['f']);
        assert("F"@ =~= seq!['F']);
    } else if code == 0x22 {
        reveal_strlit("g");
        reveal_strlit("G");
        assert("g"@ =~= seq!['g']);
        assert("G"@ =~= seq!['G']);
    } else if code == 0x23 {
        reveal_strlit("h");
        reveal_strlit("H");
        assert("h"@ =~= seq!['h']);
        assert("H"@ =~= seq!['H']);
    } else if code == 0x24 {
        reveal_strlit("j");
        reveal_strlit("J");
        assert("j"@ =~= seq!['j']);
        assert("J"@ =~= seq!['J']);
    } else if code == 0x25 {
        reveal_strlit("k");
        reveal_strlit("K");
        assert("k"@ =~= seq!['k']);
        assert("K"@ =~= seq!['K']);
    } else if code == 0x26 {
        reveal_strlit("l");
        reveal_strlit("L");
        assert("l"@ =~= seq!['l']);
        assert("L"@ =~= seq!['L']);
    } else if code == 0x27 {
        reveal_strlit(";");
        reveal_strlit(":");
        assert(";"@ =~= seq![';']);
        assert(":"@ =~= seq![':']);
    } else if code == 0x28 {
        reveal_strlit("'");
        reveal_strlit("\"");
        assert("'"@ =~= seq!['\'']);
        assert("\""@ =~= seq!['"']);
    } else if code == 0x29 {
        reveal_strlit("`");
        reveal_strlit("~");
        assert("`"@ =~= seq!['`']);
        assert("~"@ =~= seq!['~']);
    } else if code == 0x2b {
        reveal_strlit("\\");
        reveal_strlit("|");
        assert("\\"@ =~= seq!['\\']);
        assert("|"@ =~= seq!['|']);
    } else if code == 0x2c {
        reveal_strlit("z");
        reveal_strlit("Z");
        assert("z"@ =~= seq!['z']);
        assert("Z"@ =~= seq!['Z']);
    } else if code == 0x2d {
        reveal_strlit("x");
        reveal_strlit("X");
        assert("x"@ =~= seq!['x']);
        assert("X"@ =~= seq!['X']);
    } else if code == 0x2e {
        reveal_strlit("c");
        reveal_strlit("C");
        assert("c"@ =~= seq!['c']);
        assert("C"@ =~= seq!['C']);
    } else if code == 0x2f {
        reveal_strlit("v");
        reveal_strlit("V");
        assert("v"@ =~= seq!['v']);
        assert("V"@ =~= seq!['V']);
    } else if code == 0x30 {
        reveal_strlit("b");
        reveal_strlit("B");
        assert("b"@ =~= seq!['b']);
        assert("B"@ =~= seq!['B']);
    } else if code == 0x31 {
        reveal_strlit("n");
        reveal_strlit("N");
        assert("n"@ =~= seq!['n']);
        assert("N"@ =~= seq!['N']);
    } else if code == 0x32 {
        reveal_strlit("m");
        reveal_strlit("M");
        assert("m"@ =~= seq!['m']);
        assert("M"@ =~= seq!['M']);
    } else if code == 0x33 {
        reveal_strlit(",");
        reveal_strlit("<");
        assert(","@ =~= seq![',']);
        assert("<"@ =~= seq!['<']);
    } else if code == 0x34 {
        reveal_strlit(".");
        reveal_strlit(">");
        assert("."@ =~= seq!['.']);
        assert(">"@ =~= seq!['>']);
    } else if code == 0x35 {
        reveal_strlit("/");
        reveal_strlit("?");
        assert("/"@ =~= seq!['/']);
        assert("?"@ =~= seq!['?']);
    }
}

} // verus!
