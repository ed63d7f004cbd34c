use cappuccinos::arch::port::PortWrite;
use cappuccinos::arch::x86_64::interrupts::IdtEntry;
use cappuccinos::arch::x86_common::pic::ChainedPics;
use cappuccinos::drivers::keyboard::basic::{self, KeyboardState};
use cappuccinos::drivers::video::Framebuffer;
use cappuccinos::drivers::keyboard::{init, parse_key as read_scancode, set_leds, Key};
use cappuccinos::usr::shell::{
    capitalize_non_alphabetical, handle_key as shell_handle_key, init_shell, parse_key as shell_parse_key, parse_keypad_keys,
    parse_mod_key, parse_unicode_keys, prompt, ModStatus, ModStatusBits, Modifier,
};
use cappuccinos::usr::text::{char_of_ascii, chars_to_string, to_ascii_uppercase};
use cappuccinos::usr::tty::{
    apply_color_codes, color_to_hex, exec, exec_checked, handle_key, parse_byte_digits, parse_color_codes,
    parse_escaped_char, parse_input, parse_memory_address, parse_unsigned_from, parse_words, Console, ConsoleOp, Cursor,
    InputBuffer, ShellAction,
};

fn puts_text(a: &ShellAction) -> Option<&str> {
    match a {
        ShellAction::Puts(s) => Some(s.as_str()),
        _ => None,
    }
}

#[test]
fn echo_prints_its_first_argument() {
    let r = exec("echo hello");
    assert_eq!(r.len(), 2);
    assert_eq!(puts_text(&r[0]), Some("hello"));
    assert_eq!(puts_text(&r[1]), Some("\n"));
    let r = exec("  echo \"two words\" more ");
    assert_eq!(puts_text(&r[0]), Some("two words"));
    let r = exec("echo");
    assert_eq!(puts_text(&r[0]), Some(""));
    assert!(exec("").is_empty());
    assert!(exec("   ").is_empty());
}

#[test]
fn memory_commands() {
    assert!(matches!(exec("memstat")[..], [ShellAction::MemStat]));
    assert!(matches!(exec("memfill")[..], [ShellAction::MemFill]));
    assert!(matches!(exec("memalloc 64")[..], [ShellAction::MemAlloc(64)]));
    assert!(matches!(
        exec("memalloc -d 0x1000 64")[..],
        [ShellAction::MemDealloc { address: 0x1000, size: 64 }]
    ));
    assert_eq!(
        puts_text(&exec("memalloc")[0]),
        Some("Allocation size is required. See --help for detailed instructions.\n")
    );
    assert_eq!(
        puts_text(&exec("memalloc lots")[0]),
        Some("Provided argument is not a number. See --help for detailed instructions.\n")
    );
    assert_eq!(puts_text(&exec("memalloc 1 2")[0]), Some("Malformed input. See --help for detailed instructions.\n"));
    assert!(puts_text(&exec("memalloc --help")[0]).unwrap().starts_with("memalloc ALLOCATION_SIZE [OPTIONS]"));
    assert!(matches!(exec("memtest 0x10")[..], [ShellAction::MemTest(16)]));
    assert_eq!(puts_text(&exec("memtest 16")[0]), Some("Argument provided is not a memory address.\n"));
    assert_eq!(puts_text(&exec("memtest")[0]), Some("Memory address to test is required.\n"));
}

#[test]
fn poke_writes_and_reports() {
    let r = exec("poke 0x10 5");
    assert_eq!(r.len(), 2);
    assert!(matches!(r[0], ShellAction::Poke { address: 16, value: 5 }));
    match &r[1] {
        ShellAction::Unknown { command, args } => {
            assert_eq!(command, "poke");
            assert_eq!(args, &vec![String::from("0x10"), String::from("5")]);
        },
        _ => panic!("expected the debug print"),
    }
    assert_eq!(puts_text(&exec("poke 0x10")[0]), Some("poke: usage error: memory address & value required!\n"));
    assert_eq!(puts_text(&exec("poke 10 5")[0]), Some("First argument provided is not a memory address.\n"));
    // a value that is not a number is not survived
    assert!(exec_checked("poke 0x10 five").is_none());
    assert!(exec_checked("memstat").is_some());
}

#[test]
fn other_commands() {
    assert!(matches!(exec("clear")[..], [ShellAction::Clear]));
    assert!(matches!(exec("test")[..], [ShellAction::SyscallTest]));
    match &exec("read /boot/kernel.elf")[..] {
        [ShellAction::Read(p)] => assert_eq!(p, "/boot/kernel.elf"),
        _ => panic!("expected a read"),
    }
    assert_eq!(puts_text(&exec("read")[0]), Some("read: usage error: at least one argument is required!\n"));
    match &exec("frobnicate a 'b c'")[..] {
        [ShellAction::Unknown { command, args }] => {
            assert_eq!(command, "frobnicate");
            assert_eq!(args, &vec![String::from("a"), String::from("b c")]);
        },
        _ => panic!("expected an unknown command"),
    }
}

#[test]
fn command_lines_split_into_words() {
    let (c, a) = parse_input("  ls  -la 'a b' ");
    assert_eq!(c, "ls");
    assert_eq!(a, vec![String::from("-la"), String::from("a b")]);
    let (c, a) = parse_words("say a\\nb \"x'y\"");
    assert_eq!(c, "say");
    assert_eq!(a, vec![String::from("a\nb"), String::from("x'y")]);
    let (c, a) = parse_words("");
    assert_eq!(c, "");
    assert!(a.is_empty());
    assert_eq!(parse_escaped_char('n'), '\n');
    assert_eq!(parse_escaped_char('t'), '\t');
    assert_eq!(parse_escaped_char('q'), 'q');
}

#[test]
fn numbers_and_addresses() {
    assert_eq!(parse_memory_address("0xFF"), Some(255));
    assert_eq!(parse_memory_address("0xdeadBEEF"), Some(0xDEADBEEF));
    assert_eq!(parse_memory_address("FF"), None);
    assert_eq!(parse_memory_address("0xG"), None);
    assert_eq!(parse_unsigned_from("x42", 1, 10, 100), Some(42));
    assert_eq!(parse_unsigned_from("x420", 1, 10, 100), None);
    assert_eq!(parse_byte_digits(&"255".chars().collect()), Some(255));
    assert_eq!(parse_byte_digits(&"256".chars().collect()), None);
    assert_eq!(parse_byte_digits(&vec![]), None);
}

#[test]
fn colour_escapes() {
    assert_eq!(parse_color_codes(&"1;31".chars().collect()), vec![1, 31]);
    assert_eq!(parse_color_codes(&"300;44".chars().collect()), vec![44]);
    assert_eq!(color_to_hex(1), 0xCD0000);
    assert_eq!(color_to_hex(67), 0xFFFFFF);
    assert_eq!(color_to_hex(8), 0);
    let mut c = Cursor::new();
    apply_color_codes(&mut c, &vec![31, 44]);
    assert_eq!((c.fg, c.bg), (0xCD0000, 0x0000EE));
    apply_color_codes(&mut c, &vec![0]);
    assert_eq!((c.fg, c.bg), (0xbababa, 0));
}

#[test]
fn cursor_moves() {
    let mut c = Cursor::new();
    c.set_pos(79, 0);
    assert!(!c.move_right(80, 25));
    assert_eq!((c.cx, c.cy), (0, 1));
    c.set_pos(79, 24);
    assert!(c.move_right(80, 25));
    assert_eq!((c.cx, c.cy), (0, 24));
    c.move_left(80);
    assert_eq!((c.cx, c.cy), (79, 23));
    // right then left, away from the last column, comes back
    c.set_pos(10, 5);
    let before = c;
    c.move_right(80, 25);
    c.move_left(80);
    assert_eq!(c, before);
    c.set_color(1, 2);
    assert_eq!((c.fg, c.bg), (1, 2));
}

fn graphical_console() -> Console {
    let mut con = Console::new();
    con.reinit(true, Some((640, 480)), false);
    con
}

#[test]
fn console_draws_and_echoes() {
    let mut con = graphical_console();
    assert_eq!((con.columns, con.rows), (80, 30));
    let f = con.get_features();
    assert!(f.serial_output && f.graphical_output && !f.doubled_buffered);
    let ops = con.puts("hi\n");
    let fg = 0xbababa;
    assert_eq!(
        ops,
        vec![
            ConsoleOp::Serial('h'),
            ConsoleOp::PutChar { character: 'h', x: 0, y: 0, fg, bg: 0 },
            ConsoleOp::Serial('i'),
            ConsoleOp::PutChar { character: 'i', x: 1, y: 0, fg, bg: 0 },
            ConsoleOp::Serial('\r'),
            ConsoleOp::Serial('\n'),
        ]
    );
    assert_eq!((con.cursor.cx, con.cursor.cy), (0, 1));
}

#[test]
fn console_colour_escape_and_backspace() {
    let mut con = graphical_console();
    let ops = con.puts("\0[31mX\u{8}");
    assert_eq!(
        ops,
        vec![
            ConsoleOp::Serial('X'),
            ConsoleOp::PutChar { character: 'X', x: 0, y: 0, fg: 0xCD0000, bg: 0 },
            ConsoleOp::Serial('\u{8}'),
            ConsoleOp::Serial(' '),
            ConsoleOp::Serial('\u{8}'),
            ConsoleOp::PutChar { character: ' ', x: 0, y: 0, fg: 0xCD0000, bg: 0 },
        ]
    );
    // the colours go back to the defaults after each string
    assert_eq!((con.cursor.fg, con.cursor.bg), (0xbababa, 0));
    assert_eq!(con.clear_screen(), 0);
    assert_eq!((con.cursor.cx, con.cursor.cy), (0, 0));
}

#[test]
fn serial_only_console_sends_text_as_it_is() {
    let mut con = Console::new();
    con.reinit(true, None, false);
    let ops = con.puts("ab c");
    assert_eq!(ops, vec![ConsoleOp::Serial('a'), ConsoleOp::Serial('b'), ConsoleOp::Serial(' '), ConsoleOp::Serial('c')]);
    assert_eq!((con.cursor.cx, con.cursor.cy), (0, 0));
}

#[test]
fn last_row_newline_scrolls() {
    let mut con = graphical_console();
    con.cursor.set_pos(5, 29);
    let ops = con.puts("\n");
    assert_eq!(ops, vec![ConsoleOp::Serial('\r'), ConsoleOp::Serial('\n'), ConsoleOp::Scroll]);
    assert_eq!((con.cursor.cx, con.cursor.cy), (0, 29));
}

fn key(name: &'static str, character: Option<char>) -> Key<'static> {
    Key { pressed: true, name, character }
}

#[test]
fn input_line_editing() {
    let mut input = InputBuffer::new();
    let r = handle_key(key("a", Some('a')), &mut input);
    assert_eq!(puts_text(&r[0]), Some("a"));
    assert_eq!(input.as_str(), "a");
    let r = handle_key(key("Backspace", Some('\u{8}')), &mut input);
    assert_eq!(puts_text(&r[0]), Some("\u{8}"));
    assert_eq!(input.as_str(), "");
    // nothing to remove
    assert!(handle_key(key("Backspace", Some('\u{8}')), &mut input).is_empty());
    handle_key(key("l", Some('l')), &mut input);
    handle_key(key("s", Some('s')), &mut input);
    let r = handle_key(key("Enter", Some('\n')), &mut input);
    assert_eq!(r.len(), 3);
    assert_eq!(puts_text(&r[0]), Some("\r\n"));
    assert!(matches!(&r[1], ShellAction::Execute(s) if s == "ls"));
    assert_eq!(puts_text(&r[2]), Some("> "));
    assert_eq!(input.as_str(), "");
    handle_key(key("x", Some('x')), &mut input);
    let r = handle_key(key("c", Some('\u{3}')), &mut input);
    assert_eq!(puts_text(&r[0]), Some("^C\r\n"));
    assert_eq!(input.as_str(), "");
    assert!(matches!(handle_key(key("CurLeft", None), &mut input)[..], [ShellAction::MoveLeft]));
    assert!(matches!(handle_key(key("CurRight", None), &mut input)[..], [ShellAction::MoveRight]));
    assert!(handle_key(key("CurUp", None), &mut input).is_empty());
    assert!(handle_key(Key { pressed: false, name: "a", character: Some('a') }, &mut input).is_empty());
    let mut b = InputBuffer::new();
    b.push(b'h');
    b.push(b'i');
    b.pop();
    assert_eq!(b.as_str(), "h");
    b.clear();
    b.pop();
    assert_eq!(b.as_str(), "");
}

#[test]
fn modifiers_and_lights() {
    let mut mods = ModStatusBits::new();
    assert_eq!(mods.set_modifier_key(Modifier::Caps, true), 0b100);
    assert!(mods.get_status().caps);
    assert_eq!(mods.set_modifier_key(Modifier::NumLock, true), 0b110);
    assert_eq!(mods.set_modifier_key(Modifier::Caps, false), 0b010);
    assert!(!mods.get_status().caps);
    let s = ModStatus { win: true, ctrl: false, alt: true, shift: false, caps: true, num_lock: false, scr_lock: true };
    let b = s.to_byte();
    assert!(b < 128);
    let mut bits = ModStatusBits::new();
    bits.status = b;
    let back = bits.get_status();
    assert!(back.win && !back.ctrl && back.alt && !back.shift && back.caps && !back.num_lock && back.scr_lock);
    // caps lock pressed twice leaves the lights as they were
    let mut mods = ModStatusBits::new();
    parse_mod_key(&key("CapsLock", None), &mut mods);
    assert_eq!(parse_mod_key(&key("CapsLock", None), &mut mods), Some(0));
    assert_eq!(parse_mod_key(&key("F1", None), &mut mods), None);
    assert_eq!(parse_mod_key(&Key { pressed: false, name: "CapsLock", character: None }, &mut mods), None);
}

#[test]
fn shell_reads_keys_under_modifiers() {
    let mut mods = ModStatusBits::new();
    let mut input = InputBuffer::new();
    let (leds, _) = shell_handle_key(key("LShift", None), &mut mods, &mut input);
    assert_eq!(leds, Some(0));
    assert!(mods.get_status().shift);
    let (_, r) = shell_handle_key(key("a", Some('a')), &mut mods, &mut input);
    assert_eq!(puts_text(&r[0]), Some("A"));
    let (_, r) = shell_handle_key(key("1", Some('1')), &mut mods, &mut input);
    assert_eq!(puts_text(&r[0]), Some("!"));
    assert_eq!(input.as_str(), "A!");
    shell_handle_key(Key { pressed: false, name: "LShift", character: None }, &mut mods, &mut input);
    assert!(!mods.get_status().shift);
    // the keypad without num lock
    let k = shell_parse_key(key("Keypad 7", Some('7')), &mods);
    assert_eq!((k.name, k.character), ("Home", None));
    let k = parse_keypad_keys(key("Keypad 5", Some('5')));
    assert_eq!((k.name, k.character), ("Keypad 5", None));
    mods.set_modifier_key(Modifier::NumLock, true);
    let k = shell_parse_key(key("Keypad 7", Some('7')), &mods);
    assert_eq!(k.character, Some('7'));
    mods.set_modifier_key(Modifier::Ctrl, true);
    let k = shell_parse_key(key("c", Some('c')), &mods);
    assert_eq!(k.character, Some('\u{3}'));
    assert_eq!(parse_unicode_keys(&key("x", Some('x'))), 'x');
    assert_eq!(capitalize_non_alphabetical('/'), '?');
    assert_eq!(capitalize_non_alphabetical('a'), 'a');
    assert_eq!(prompt(), "> ");
}

#[test]
fn scancode_set_one() {
    let mut extended = false;
    let k = read_scancode(0x1E, &mut extended).unwrap();
    assert!(k.pressed);
    assert_eq!((k.name, k.character), ("a", Some('a')));
    let k = read_scancode(0x9E, &mut extended).unwrap();
    assert!(!k.pressed);
    assert_eq!(k.name, "a");
    assert!(read_scancode(0xE0, &mut extended).is_none());
    assert!(extended);
    let k = read_scancode(0x48, &mut extended).unwrap();
    assert_eq!((k.name, k.character), ("CurUp", None));
    assert!(read_scancode(0xE0, &mut extended).is_none());
    let k = read_scancode(0x48, &mut extended).unwrap();
    assert_eq!((k.name, k.character), ("Keypad 8", Some('8')));
    assert!(read_scancode(0x59, &mut extended).is_none());
    assert_eq!(set_leds(4), (PortWrite::Byte(0x60, 0xED), PortWrite::Byte(0x60, 4)));
    let mut idt = vec![IdtEntry::new(); 256];
    let w = init(&mut idt, &ChainedPics::new(32, 40), 0x1000).unwrap();
    assert_eq!(w.len(), 5);
    assert_eq!(w[0], PortWrite::Byte(0x64, 0xA7));
    assert_eq!(w[4], PortWrite::Byte(0x64, 0xAE));
    assert_eq!(idt[33].base_lo, 0x1000);
}

#[test]
fn basic_driver_latches_modifiers() {
    let mut st = KeyboardState::new();
    let k = basic::parse_key(0x1E, &mut st).unwrap();
    assert_eq!((k.key, k.printable, k.mod_key), ("a", true, false));
    let k = basic::parse_key(0x2A, &mut st).unwrap();
    assert_eq!((k.key, k.mod_key, k.pressed), ("LShift", true, true));
    assert_eq!(basic::parse_key(0x1E, &mut st).unwrap().key, "A");
    assert_eq!(basic::parse_key(0x02, &mut st).unwrap().key, "!");
    let k = basic::parse_key(0xAA, &mut st).unwrap();
    assert_eq!((k.key, k.pressed), ("LShift", false));
    assert_eq!(basic::parse_key(0x1E, &mut st).unwrap().key, "a");
    // caps lock and shift cancel out
    basic::parse_key(0x3A, &mut st);
    assert_eq!(basic::parse_key(0x1E, &mut st).unwrap().key, "A");
    basic::parse_key(0x36, &mut st);
    assert_eq!(basic::parse_key(0x1E, &mut st).unwrap().key, "a");
    // caps lock twice leaves the state as it was
    let before = st;
    basic::parse_key(0x3A, &mut st);
    basic::parse_key(0x3A, &mut st);
    assert_eq!(st, before);
}

#[test]
fn basic_driver_keypad_and_extended_keys() {
    let mut st = KeyboardState::new();
    assert!(basic::parse_key(0x4C, &mut st).is_none());
    let k = basic::parse_key(0x48, &mut st).unwrap();
    assert_eq!((k.key, k.printable), ("CurUp", false));
    basic::parse_key(0x45, &mut st);
    assert!(st.statuses.num_lock);
    assert_eq!(basic::parse_key(0x4C, &mut st).unwrap().key, "5");
    assert_eq!(basic::parse_key(0x48, &mut st).unwrap().key, "8");
    let k = basic::parse_key(0xE0, &mut st).unwrap();
    assert_eq!((k.key, k.pressed), ("E0", false));
    assert!(st.extended);
    assert_eq!(basic::parse_key(0x48, &mut st).unwrap().key, "CurUp");
    // Home does not look at the prefix
    assert_eq!(basic::parse_key(0x47, &mut st).unwrap().key, "7");
    let k = basic::parse_key(0x1D, &mut st).unwrap();
    assert_eq!((k.key, k.mod_key), ("RCtrl", false));
    assert!(st.statuses.ctrl);
    assert_eq!(basic::parse_key(0x58, &mut st).unwrap().key, "F10");
    assert_eq!(basic::parse_key(0x10, &mut st).unwrap().key, "a");
    assert!(basic::parse_key(0x59, &mut st).is_none());
    let mut idt = vec![IdtEntry::new(); 256];
    let w = basic::init_keyboard(&mut idt, &ChainedPics::new(32, 40), 0x2000);
    assert_eq!(w, vec![PortWrite::Byte(0x20, 0x20)]);
    assert_eq!(idt[33].base_lo, 0x2000);
}

#[test]
fn text_helpers() {
    assert_eq!(to_ascii_uppercase('q'), 'Q');
    assert_eq!(to_ascii_uppercase('é'), 'é');
    assert_eq!(char_of_ascii(65), 'A');
    assert_eq!(chars_to_string(&vec!['h', 'i']), "hi");
}

#[test]
fn console_scrolls_through_its_back_buffer() {
    let fb = Framebuffer::new(32, 16, 0, 4, 32);
    let mut con = Console::new();
    con.reinit(false, Some((4 * 8, 32)), true);
    let mut screen = vec![5u32; 4 * 32];
    let mut back: Vec<u32> = (0..128).collect();
    con.scroll_console(fb, &mut screen, &mut back);
    let expected: Vec<u32> = (64..128).chain(std::iter::repeat(0).take(64)).collect();
    assert_eq!(back, expected);
    assert_eq!(screen, expected);
    // without a back buffer the screen scrolls itself
    let mut plain = Console::new();
    plain.reinit(false, Some((32, 32)), false);
    let mut screen: Vec<u32> = (0..128).collect();
    let mut unused = vec![1u32; 128];
    plain.scroll_console(fb, &mut screen, &mut unused);
    assert_eq!(screen, expected);
    assert_eq!(unused, vec![1u32; 128]);
}

#[test]
fn shell_start_prompts_and_sets_up_the_keyboard() {
    let mut idt = vec![IdtEntry::new(); 256];
    let (p, kbd) = init_shell(&mut idt, &ChainedPics::new(32, 40), 0x3000);
    assert_eq!(p, "> ");
    assert_eq!(kbd.unwrap().len(), 5);
    assert_eq!(idt[33].base_lo, 0x3000);
}

#[test]
fn puts_refuses_a_row_past_the_last() {
    let mut c = Console::new();
    c.reinit(false, Some((80, 160)), false);
    assert!(c.puts_checked("ab\n").is_some());
    c.cursor = Cursor { cx: 0, cy: 0, fg: 0xbababa, bg: 0 };
    // a backspace from the top left wraps the row, and a newline then overflows
    let before = (c.cursor, c.columns, c.rows, c.feature_bits);
    assert!(c.puts_checked("\u{8}\n").is_none());
    assert_eq!((c.cursor, c.columns, c.rows, c.feature_bits), before);
}

#[test]
fn unicode_white_space_is_trimmed() {
    let (command, args) = parse_input("\u{3000}\techo a\u{a0}b\u{2029}\u{85}");
    assert_eq!(command, "echo");
    assert_eq!(args, vec!["a\u{a0}b".to_string()]);
}
