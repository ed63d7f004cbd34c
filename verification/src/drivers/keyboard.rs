//! The PS/2 keyboard: the table from scancodes to keys, and the port writes
//! that set the controller up and the keyboard's lights.
pub mod basic;

use vstd::prelude::*;
use crate::arch::port::PortWrite;
use crate::arch::x86_64::interrupts::{idt_set_gate, eoi_writes, gate_for, pics_fit, IdtEntry, IDT_ENTRIES};
use crate::arch::x86_common::pic::ChainedPics;

verus! {

/// The port scancodes and the lights' commands go through.
pub const KBD_DATA_PORT: u16 = 0x60;

/// The controller's command and status port.
pub const KBD_COMMAND_AND_STATUS_PORT: u16 = 0x64;

/// The byte the keyboard acknowledges a command with.
pub const KBD_ACK: u8 = 0xFA;

/// The scancode that announces an extended key.
pub const EXTENDED_PREFIX: u8 = 0xE0;

/// A key that went down or up: its name, and the character it types, if any.
#[derive(Clone, Copy, Debug)]
pub struct Key<'a> {
    pub pressed: bool,
    pub name: &'a str,
    pub character: Option<char>,
}

/// Why setting the keyboard up failed.
#[derive(Clone, Copy, Debug, PartialEq, Eq, Structural)]
pub enum KBDError {
    TestFailed,
}

/// The name and character of the key with scancode `code` (release bit
/// clear); `extended` tells the keys that follow the extended prefix from
/// the keypad's.
pub open spec fn key_entry(code: u8, extended: bool) -> Option<(&'static str, Option<char>)> {
    if false {
        None
    } else if code == 0x01 {
        Some(("Esc", Some('\u{001B}')))
    } else if code == 0x02 {
        Some(("1", Some('1')))
    } else if code == 0x03 {
        Some(("2", Some('2')))
    } else if code == 0x04 {
        Some(("3", Some('3')))
    } else if code == 0x05 {
        Some(("4", Some('4')))
    } else if code == 0x06 {
        Some(("5", Some('5')))
    } else if code == 0x07 {
        Some(("6", Some('6')))
    } else if code == 0x08 {
        Some(("7", Some('7')))
    } else if code == 0x09 {
        Some(("8", Some('8')))
    } else if code == 0x0A {
        Some(("9", Some('9')))
    } else if code == 0x0B {
        Some(("0", Some('0')))
    } else if code == 0x0C {
        Some(("-", Some('-')))
    } else if code == 0x0D {
        Some(("=", Some('=')))
    } else if code == 0x0E {
        Some(("Backspace", Some('\u{0008}')))
    } else if code == 0x0F {
        Some(("Tab", Some('\u{0009}')))
    } else if code == 0x10 {
        Some(("q", Some('q')))
    } else if code == 0x11 {
        Some(("w", Some('w')))
    } else if code == 0x12 {
        Some(("e", Some('e')))
    } else if code == 0x13 {
        Some(("r", Some('r')))
    } else if code == 0x14 {
        Some(("t", Some('t')))
    } else if code == 0x15 {
        Some(("y", Some('y')))
    } else if code == 0x16 {
        Some(("u", Some('u')))
    } else if code == 0x17 {
        Some(("i", Some('i')))
    } else if code == 0x18 {
        Some(("o", Some('o')))
    } else if code == 0x19 {
        Some(("p", Some('p')))
    } else if code == 0x1A {
        Some(("[", Some('[')))
    } else if code == 0x1B {
        Some(("]", Some(']')))
    } else if code == 0x1C {
        Some(("Enter", Some('\u{000A}')))
    } else if code == 0x1D {
        if extended { Some(("RCtrl", None)) } else { Some(("LCtrl", None)) }
    } else if code == 0x1E {
        Some(("a", Some('a')))
    } else if code == 0x1F {
        Some(("s", Some('s')))
    } else if code == 0x20 {
        Some(("d", Some('d')))
    } else if code == 0x21 {
        Some(("f", Some('f')))
    } else if code == 0x22 {
        Some(("g", Some('g')))
    } else if code == 0x23 {
        Some(("h", Some('h')))
    } else if code == 0x24 {
        Some(("j", Some('j')))
    } else if code == 0x25 {
        Some(("k", Some('k')))
    } else if code == 0x26 {
        Some(("l", Some('l')))
    } else if code == 0x27 {
        Some((";", Some(';')))
    } else if code == 0x28 {
        Some(("'", Some('\'')))
    } else if code == 0x29 {
        Some(("`", Some('`')))
    } else if code == 0x2A {
        Some(("LShift", None))
    } else if code == 0x2B {
        Some(("\\", Some('\\')))
    } else if code == 0x2C {
        Some(("z", Some('z')))
    } else if code == 0x2D {
        Some(("x", Some('x')))
    } else if code == 0x2E {
        Some(("c", Some('c')))
    } else if code == 0x2F {
        Some(("v", Some('v')))
    } else if code == 0x30 {
        Some(("b", Some('b')))
    } else if code == 0x31 {
        Some(("n", Some('n')))
    } else if code == 0x32 {
        Some(("m", Some('m')))
    } else if code == 0x33 {
        Some((",", Some(',')))
    } else if code == 0x34 {
        Some((".", Some('.')))
    } else if code == 0x35 {
        Some(("/", Some('/')))
    } else if code == 0x36 {
        Some(("RShift", None))
    } else if code == 0x37 {
        Some(("*", Some('*')))
    } else if code == 0x38 {
        Some(("Alt", None))
    } else if code == 0x39 {
        Some((" ", Some(' ')))
    } else if code == 0x3A {
        Some(("CapsLock", None))
    } else if code == 0x3B {
        Some(("F1", None))
    } else if code == 0x3C {
        Some(("F2", None))
    } else if code == 0x3D {
        Some(("F3", None))
    } else if code == 0x3E {
        Some(("F4", None))
    } else if code == 0x3F {
        Some(("F5", None))
    } else if code == 0x40 {
        Some(("F6", None))
    } else if code == 0x41 {
        Some(("F7", None))
    } else if code == 0x42 {
        Some(("F8", None))
    } else if code == 0x43 {
        Some(("F9", None))
    } else if code == 0x44 {
        Some(("F10", None))
    } else if code == 0x45 {
        Some(("NumLock", None))
    } else if code == 0x46 {
        Some(("ScrLock", None))
    } else if code == 0x47 {
        if extended { Some(("Home", None)) } else { Some(("Keypad 7", Some('7'))) }
    } else if code == 0x48 {
        if extended { Some(("CurUp", None)) } else { Some(("Keypad 8", Some('8'))) }
    } else if code == 0x49 {
        if extended { Some(("PgUp", None)) } else { Some(("Keypad 9", Some('9'))) }
    } else if code == 0x4A {
        Some(("-", Some('-')))
    } else if code == 0x4B {
        if extended { Some(("CurLeft", None)) } else { Some(("Keypad 4", Some('4'))) }
    } else if code == 0x4C {
        Some(("Keypad 5", Some('5')))
    } else if code == 0x4D {
        if extended { Some(("CurRight", None)) } else { Some(("Keypad 6", Some('6'))) }
    } else if code == 0x4E {
        Some(("+", Some('+')))
    } else if code == 0x4F {
        if extended { Some(("End", None)) } else { Some(("Keypad 1", Some('1'))) }
    } else if code == 0x50 {
        if extended { Some(("CurDown", None)) } else { Some(("Keypad 2", Some('2'))) }
    } else if code == 0x51 {
        if extended { Some(("PgDn", None)) } else { Some(("Keypad 3", Some('3'))) }
    } else if code == 0x52 {
        if extended { Some(("Insert", None)) } else { Some(("Keypad 0", Some('0'))) }
    } else if code == 0x53 {
        if extended { Some(("Del", None)) } else { Some(("Keypad .", Some('.'))) }
    } else if code == 0x57 {
        Some(("F11", None))
    } else if code == 0x58 {
        Some(("F12", None))
    } else {
        None
    }
}

/// The name and character of the key with scancode `code`.
fn key_table(code: u8, extended: bool) -> (r: Option<(&'static str, Option<char>)>)
    ensures
        r == key_entry(code, extended),
{
    match code {
        0x01 => Some(("Esc", Some('\u{001B}'))),
        0x02 => Some(("1", Some('1'))),
        0x03 => Some(("2", Some('2'))),
        0x04 => Some(("3", Some('3'))),
        0x05 => Some(("4", Some('4'))),
        0x06 => Some(("5", Some('5'))),
        0x07 => Some(("6", Some('6'))),
        0x08 => Some(("7", Some('7'))),
        0x09 => Some(("8", Some('8'))),
        0x0A => Some(("9", Some('9'))),
        0x0B => Some(("0", Some('0'))),
        0x0C => Some(("-", Some('-'))),
        0x0D => Some(("=", Some('='))),
        0x0E => Some(("Backspace", Some('\u{0008}'))),
        0x0F => Some(("Tab", Some('\u{0009}'))),
        0x10 => Some(("q", Some('q'))),
        0x11 => Some(("w", Some('w'))),
        0x12 => Some(("e", Some('e'))),
        0x13 => Some(("r", Some('r'))),
        0x14 => Some(("t", Some('t'))),
        0x15 => Some(("y", Some('y'))),
        0x16 => Some(("u", Some('u'))),
        0x17 => Some(("i", Some('i'))),
        0x18 => Some(("o", Some('o'))),
        0x19 => Some(("p", Some('p'))),
        0x1A => Some(("[", Some('['))),
        0x1B => Some(("]", Some(']'))),
        0x1C => Some(("Enter", Some('\u{000A}'))),
        0x1D => if extended { Some(("RCtrl", None)) } else { Some(("LCtrl", None)) },
        0x1E => Some(("a", Some('a'))),
        0x1F => Some(("s", Some('s'))),
        0x20 => Some(("d", Some('d'))),
        0x21 => Some(("f", Some('f'))),
        0x22 => Some(("g", Some('g'))),
        0x23 => Some(("h", Some('h'))),
        0x24 => Some(("j", Some('j'))),
        0x25 => Some(("k", Some('k'))),
        0x26 => Some(("l", Some('l'))),
        0x27 => Some((";", Some(';'))),
        0x28 => Some(("'", Some('\''))),
        0x29 => Some(("`", Some('`'))),
        0x2A => Some(("LShift", None)),
        0x2B => Some(("\\", Some('\\'))),
        0x2C => Some(("z", Some('z'))),
        0x2D => Some(("x", Some('x'))),
        0x2E => Some(("c", Some('c'))),
        0x2F => Some(("v", Some('v'))),
        0x30 => Some(("b", Some('b'))),
        0x31 => Some(("n", Some('n'))),
        0x32 => Some(("m", Some('m'))),
        0x33 => Some((",", Some(','))),
        0x34 => Some((".", Some('.'))),
        0x35 => Some(("/", Some('/'))),
        0x36 => Some(("RShift", None)),
        0x37 => Some(("*", Some('*'))),
        0x38 => Some(("Alt", None)),
        0x39 => Some((" ", Some(' '))),
        0x3A => Some(("CapsLock", None)),
        0x3B => Some(("F1", None)),
        0x3C => Some(("F2", None)),
        0x3D => Some(("F3", None)),
        0x3E => Some(("F4", None)),
        0x3F => Some(("F5", None)),
        0x40 => Some(("F6", None)),
        0x41 => Some(("F7", None)),
        0x42 => Some(("F8", None)),
        0x43 => Some(("F9", None)),
        0x44 => Some(("F10", None)),
        0x45 => Some(("NumLock", None)),
        0x46 => Some(("ScrLock", None)),
        0x47 => if extended { Some(("Home", None)) } else { Some(("Keypad 7", Some('7'))) },
        0x48 => if extended { Some(("CurUp", None)) } else { Some(("Keypad 8", Some('8'))) },
        0x49 => if extended { Some(("PgUp", None)) } else { Some(("Keypad 9", Some('9'))) },
        0x4A => Some(("-", Some('-'))),
        0x4B => if extended { Some(("CurLeft", None)) } else { Some(("Keypad 4", Some('4'))) },
        0x4C => Some(("Keypad 5", Some('5'))),
        0x4D => if extended { Some(("CurRight", None)) } else { Some(("Keypad 6", Some('6'))) },
        0x4E => Some(("+", Some('+'))),
        0x4F => if extended { Some(("End", None)) } else { Some(("Keypad 1", Some('1'))) },
        0x50 => if extended { Some(("CurDown", None)) } else { Some(("Keypad 2", Some('2'))) },
        0x51 => if extended { Some(("PgDn", None)) } else { Some(("Keypad 3", Some('3'))) },
        0x52 => if extended { Some(("Insert", None)) } else { Some(("Keypad 0", Some('0'))) },
        0x53 => if extended { Some(("Del", None)) } else { Some(("Keypad .", Some('.'))) },
        0x57 => Some(("F11", None)),
        0x58 => Some(("F12", None)),
        _ => None,
    }
}

/// Reads scancode `scancode`. The extended prefix flips `extended` and gives
/// no key; any other scancode gives the key its low seven bits name, pressed
/// when its top bit is clear, or none for an unknown code. `extended` stays
/// as it is after an extended key.
pub fn parse_key(scancode: u8, extended: &mut bool) -> (r: Option<Key<'static>>)
    ensures
        scancode == 0xE0 ==> r is None && *final(extended) == !*old(extended),
        scancode != 0xE0 ==> *final(extended) == *old(extended) && r == (match key_entry(scancode % 128, *old(extended)) {
            Some((name, character)) => Some(Key { pressed: scancode < 128, name, character }),
            None => None,
        }),
{
    if scancode == EXTENDED_PREFIX {
        *extended = !*extended;
        return None;
    }
    let pressed = scancode & 0x80 == 0x0;
    let code = scancode & 0x7F;
    proof {
        assert((scancode & 0x80 == 0) == (scancode < 128)) by (bit_vector);
        assert(scancode & 0x7F == scancode % 128) by (bit_vector);
    }
    match key_table(code, *extended) {
        Some((name, character)) => Some(Key { pressed, name, character }),
        None => None,
    }
}

/// The writes around the keyboard's interrupt gate: both PS/2 ports off,
/// then, with the keyboard's vector pointed at its handler, both on again.
pub open spec fn kbd_init_writes(pics: ChainedPics) -> Seq<PortWrite> {
    seq![PortWrite::Byte(0x64, 0xA7), PortWrite::Byte(0x64, 0xAD)]
        + eoi_writes(pics, 33)
        + seq![PortWrite::Byte(0x64, 0xA8), PortWrite::Byte(0x64, 0xAE)]
}

/// Sets the keyboard up once its output buffer is flushed: turns the PS/2
/// ports off, points the keyboard's gate at `handler`, and turns them on
/// again. The caller then reads the status port once to reset the devices.
pub fn init(idt: &mut Vec<IdtEntry>, pics: &ChainedPics, handler: u64) -> (r: Result<Vec<PortWrite>, KBDError>)
    requires
        old(idt)@.len() == IDT_ENTRIES,
        pics_fit(*pics),
    ensures
        final(idt)@ == old(idt)@.update(33, gate_for(handler)),
        r matches Ok(w) && w@ == kbd_init_writes(*pics),
{
    let mut writes: Vec<PortWrite> = Vec::new();
    writes.push(PortWrite::Byte(KBD_COMMAND_AND_STATUS_PORT, 0xA7));
    writes.push(PortWrite::Byte(KBD_COMMAND_AND_STATUS_PORT, 0xAD));
    let mut gate = idt_set_gate(idt, pics, 33, handler);
    writes.append(&mut gate);
    writes.push(PortWrite::Byte(KBD_COMMAND_AND_STATUS_PORT, 0xA8));
    writes.push(PortWrite::Byte(KBD_COMMAND_AND_STATUS_PORT, 0xAE));
    Ok(writes)
}

/// Sets the keyboard's lights to `led_byte`: the command, written first,
/// then, once the keyboard acknowledges it with `KBD_ACK`, the lights.
pub fn set_leds(led_byte: u8) -> (r: (PortWrite, PortWrite))
    ensures
        r == (PortWrite::Byte(0x60, 0xED), PortWrite::Byte(0x60, led_byte)),
{
    (PortWrite::Byte(KBD_DATA_PORT, 0xED), PortWrite::Byte(KBD_DATA_PORT, led_byte))
}


/// The key scancode `scancode` gives, the extended flag being `extended`:
/// none for the extended prefix itself.
pub open spec fn key_of_scancode(scancode: u8, extended: bool) -> Option<Key<'static>> {
    if scancode == 0xE0 {
        None
    } else {
        match key_entry(scancode % 128, extended) {
            Some((name, character)) => Some(Key { pressed: scancode < 128, name, character }),
            None => None,
        }
    }
}

/// A key's release code (its press code with the top bit set) names the
/// same key as its press code, released: same name, same character.
pub proof fn law_release_mirrors_press(code: u8, extended: bool)
    requires
        code < 128,
        code != 0x60,
    ensures
        match (key_of_scancode(code, extended), key_of_scancode((code + 128) as u8, extended)) {
            (Some(p), Some(r)) => p.pressed && !r.pressed && p.name == r.name && p.character == r.character,
            (None, None) => true,
            _ => false,
        },
{
    assert(((code + 128) as u8) % 128 == code);
}

/// Whether scancode `code` is the key printed `c`: pressed, it names `c`
/// and types `c`; its release code names and types the same, released.
pub open spec fn key_is(code: u8, extended: bool, c: char) -> bool {
    &&& key_of_scancode(code, extended) matches Some(k) && k.pressed && k.name@ == seq![c] && k.character == Some(c)
    &&& key_of_scancode((code + 128) as u8, extended) matches Some(k) && !k.pressed && k.name@ == seq![c] && k.character == Some(c)
}

/// A key whose table entry names and types `c` is the key printed `c`.
proof fn lemma_key_is(code: u8, extended: bool, c: char)
    requires
        code < 128,
        code != 0x60,
        key_entry(code, extended) matches Some((name, ch)) && name@ == seq![c] && ch == Some(c),
    ensures
        key_is(code, extended, c),
{
    assert(((code + 128) as u8) % 128 == code);
    assert(code % 128 == code);
}

/// Law: scancode set 1 follows the US keyboard's rows: the codes from 0x02
/// run along `1234567890-=`, from 0x10 along `qwertyuiop[]`, from 0x1E along
/// `asdfghjkl;'` and the backquote, and from 0x2B along the backslash and
/// `zxcvbnm,./`, each key naming and typing what is printed on it.
pub proof fn law_scancodes_follow_us_rows(code: u8, extended: bool)
    ensures
        0x2 <= code <= 0xd ==> key_is(code, extended, seq!['1', '2', '3', '4', '5', '6', '7', '8', '9', '0', '-', '='][code - 0x2]),
        0x10 <= code <= 0x1b ==> key_is(code, extended, seq!['q', 'w', 'e', 'r', 't', 'y', 'u', 'i', 'o', 'p', '[', ']'][code - 0x10]),
        0x1e <= code <= 0x29 ==> key_is(code, extended, seq!['a', 's', 'd', 'f', 'g', 'h', 'j', 'k', 'l', ';', '\'', '`'][code - 0x1e]),
        0x2b <= code <= 0x35 ==> key_is(code, extended, seq!['\\', 'z', 'x', 'c', 'v', 'b', 'n', 'm', ',', '.', '/'][code - 0x2b]),
{
    if false {
    } else if code == 0x2 {
        reveal_strlit("1");
        assert("1"@ =~= seq!['1']);
        lemma_key_is(code, extended, '1');
    } else if code == 0x3 {
        reveal_strlit("2");
        assert("2"@ =~= seq!['2']);
        lemma_key_is(code, extended, '2');
    } else if code == 0x4 {
        reveal_strlit("3");
        assert("3"@ =~= seq!['3']);
        lemma_key_is(code, extended, '3');
    } else if code == 0x5 {
        reveal_strlit("4");
        assert("4"@ =~= seq!['4']);
        lemma_key_is(code, extended, '4');
    } else if code == 0x6 {
        reveal_strlit("5");
        assert("5"@ =~= seq!['5']);
        lemma_key_is(code, extended, '5');
    } else if code == 0x7 {
        reveal_strlit("6");
        assert("6"@ =~= seq!['6']);
        lemma_key_is(code, extended, '6');
    } else if code == 0x8 {
        reveal_strlit("7");
        assert("7"@ =~= seq!['7']);
        lemma_key_is(code, extended, '7');
    } else if code == 0x9 {
        reveal_strlit("8");
        assert("8"@ =~= seq!['8']);
        lemma_key_is(code, extended, '8');
    } else if code == 0xa {
        reveal_strlit("9");
        assert("9"@ =~= seq!['9']);
        lemma_key_is(code, extended, '9');
    } else if code == 0xb {
        reveal_strlit("0");
        assert("0"@ =~= seq!['0']);
        lemma_key_is(code, extended, '0');
    } else if code == 0xc {
        reveal_strlit("-");
        assert("-"@ =~= seq!['-']);
        lemma_key_is(code, extended, '-');
    } else if code == 0xd {
        reveal_strlit("=");
        assert("="@ =~= seq!['=']);
        lemma_key_is(code, extended, '=');
    } else if code == 0x10 {
        reveal_strlit("q");
        assert("q"@ =~= seq!['q']);
        lemma_key_is(code, extended, 'q');
    } else if code == 0x11 {
        reveal_strlit("w");
        assert("w"@ =~= seq!['w']);
        lemma_key_is(code, extended, 'w');
    } else if code == 0x12 {
        reveal_strlit("e");
        assert("e"@ =~= seq!['e']);
        lemma_key_is(code, extended, 'e');
    } else if code == 0x13 {
        reveal_strlit("r");
        assert("r"@ =~= seq!['r']);
        lemma_key_is(code, extended, 'r');
    } else if code == 0x14 {
        reveal_strlit("t");
        assert("t"@ =~= seq!['t']);
        lemma_key_is(code, extended, 't');
    } else if code == 0x15 {
        reveal_strlit("y");
        assert("y"@ =~= seq!['y']);
        lemma_key_is(code, extended, 'y');
    } else if code == 0x16 {
        reveal_strlit("u");
        assert("u"@ =~= seq!['u']);
        lemma_key_is(code, extended, 'u');
    } else if code == 0x17 {
        reveal_strlit("i");
        assert("i"@ =~= seq!['i']);
        lemma_key_is(code, extended, 'i');
    } else if code == 0x18 {
        reveal_strlit("o");
        assert("o"@ =~= seq!['o']);
        lemma_key_is(code, extended, 'o');
    } else if code == 0x19 {
        reveal_strlit("p");
        assert("p"@ =~= seq!['p']);
        lemma_key_is(code, extended, 'p');
    } else if code == 0x1a {
        reveal_strlit("[");
        assert("["@ =~= seq!['[']);
        lemma_key_is(code, extended, '[');
    } else if code == 0x1b {
        reveal_strlit("]");
        assert("]"@ =~= seq![']']);
        lemma_key_is(code, extended, ']');
    } else if code == 0x1e {
        reveal_strlit("a");
        assert("a"@ =~= seq!['a']);
        lemma_key_is(code, extended, 'a');
    } else if code == 0x1f {
        reveal_strlit("s");
        assert("s"@ =~= seq!['s']);
        lemma_key_is(code, extended, 's');
    } else if code == 0x20 {
        reveal_strlit("d");
        assert("d"@ =~= seq!['d']);
        lemma_key_is(code, extended, 'd');
    } else if code == 0x21 {
        reveal_strlit("f");
        assert("f"@ =~= seq!['f']);
        lemma_key_is(code, extended, 'f');
    } else if code == 0x22 {
        reveal_strlit("g");
        assert("g"@ =~= seq!['g']);
        lemma_key_is(code, extended, 'g');
    } else if code == 0x23 {
        reveal_strlit("h");
        assert("h"@ =~= seq!['h']);
        lemma_key_is(code, extended, 'h');
    } else if code == 0x24 {
        reveal_strlit("j");
        assert("j"@ =~= seq!['j']);
        lemma_key_is(code, extended, 'j');
    } else if code == 0x25 {
        reveal_strlit("k");
        assert("k"@ =~= seq!['k']);
        lemma_key_is(code, extended, 'k');
    } else if code == 0x26 {
        reveal_strlit("l");
        assert("l"@ =~= seq!['l']);
        lemma_key_is(code, extended, 'l');
    } else if code == 0x27 {
        reveal_strlit(";");
        assert(";"@ =~= seq![';']);
        lemma_key_is(code, extended, ';');
    } else if code == 0x28 {
        reveal_strlit("'");
        assert("'"@ =~= seq!['\'']);
        lemma_key_is(code, extended, '\'');
    } else if code == 0x29 {
        reveal_strlit("`");
        assert("`"@ =~= seq!['`']);
        lemma_key_is(code, extended, '`');
    } else if code == 0x2b {
        reveal_strlit("\\");
        assert("\\"@ =~= seq!['\\']);
        lemma_key_is(code, extended, '\\');
    } else if code == 0x2c {
        reveal_strlit("z");
        assert("z"@ =~= seq!['z']);
        lemma_key_is(code, extended, 'z');
    } else if code == 0x2d {
        reveal_strlit("x");
        assert("x"@ =~= seq!['x']);
        lemma_key_is(code, extended, 'x');
    } else if code == 0x2e {
        reveal_strlit("c");
        assert("c"@ =~= seq!['c']);
        lemma_key_is(code, extended, 'c');
    } else if code == 0x2f {
        reveal_strlit("v");
        assert("v"@ =~= seq!['v']);
        lemma_key_is(code, extended, 'v');
    } else if code == 0x30 {
        reveal_strlit("b");
        assert("b"@ =~= seq!['b']);
        lemma_key_is(code, extended, 'b');
    } else if code == 0x31 {
        reveal_strlit("n");
        assert("n"@ =~= seq!['n']);
        lemma_key_is(code, extended, 'n');
    } else if code == 0x32 {
        reveal_strlit("m");
        assert("m"@ =~= seq!['m']);
        lemma_key_is(code, extended, 'm');
    } else if code == 0x33 {
        reveal_strlit(",");
        assert(","@ =~= seq![',']);
        lemma_key_is(code, extended, ',');
    } else if code == 0x34 {
        reveal_strlit(".");
        assert("."@ =~= seq!['.']);
        lemma_key_is(code, extended, '.');
    } else if code == 0x35 {
        reveal_strlit("/");
        assert("/"@ =~= seq!['/']);
        lemma_key_is(code, extended, '/');
    }
}

} // verus!
