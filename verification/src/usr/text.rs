//! Text primitives the console and the shell need, over the characters a
//! string holds.
use vstd::prelude::*;

verus! {

/// Whether the characters of `s` from `offset` on start with those of
/// `part`.
fn chars_match_at(s: &str, part: &str, offset: usize) -> (r: bool)
    requires
        offset as nat + part@.len() <= s@.len(),
    ensures
        r == (s@.subrange(offset as int, offset + part@.len()) == part@),
{
    let n = part.unicode_len();
    let total = s.unicode_len();
    let mut i: usize = 0;
    while i < n
        invariant
            n == part@.len(),
            total == s@.len(),
            offset as nat + n <= s@.len(),
            0 <= i <= n,
            forall|k: int| 0 <= k < i ==> s@[offset + k] == part@[k],
        decreases n - i,
    {
        if s.get_char(offset + i) != part.get_char(i) {
            proof {
                assert(s@.subrange(offset as int, offset + part@.len())[i as int] != part@[i as int]);
            }
            return false;
        }
        i = i + 1;
    }
    proof {
        assert(s@.subrange(offset as int, offset + part@.len()) =~= part@);
    }
    true
}

/// Whether `prefix` is a prefix of `s`, character by character, as
/// `str::starts_with` with a string pattern says.
pub(crate) fn str_starts_with(s: &str, prefix: &str) -> (r: bool)
    ensures
        r == prefix@.is_prefix_of(s@),
{
    if prefix.unicode_len() > s.unicode_len() {
        return false;
    }
    chars_match_at(s, prefix, 0)
}

/// Whether `suffix` is a suffix of `s`, character by character, as
/// `str::ends_with` with a string pattern says.
pub(crate) fn str_ends_with(s: &str, suffix: &str) -> (r: bool)
    ensures
        r == suffix@.is_suffix_of(s@),
{
    let n = s.unicode_len();
    let m = suffix.unicode_len();
    if m > n {
        return false;
    }
    chars_match_at(s, suffix, n - m)
}

/// Whether `a` and `b` hold the same characters, as `==` on string slices
/// says.
pub(crate) fn str_eq(a: &str, b: &str) -> (r: bool)
    ensures
        r == (a@ == b@),
{
    if a.unicode_len() != b.unicode_len() {
        return false;
    }
    let r = chars_match_at(a, b, 0);
    proof {
        assert(a@.subrange(0, b@.len() as int) =~= a@);
    }
    r
}

/// `String::push`: appends `c` to `s`.
#[verifier::external_body]
pub(crate) fn push_char(s: &mut String, c: char)
    ensures
        final(s)@ == old(s)@.push(c),
{
    s.push(c)
}

/// Whether `c` has Unicode's `White_Space` property, as
/// `char::is_whitespace` tests it.
pub open spec fn unicode_space(c: char) -> bool {
    ||| '\u{9}' <= c && c <= '\u{d}'
    ||| c == ' ' || c == '\u{85}' || c == '\u{a0}' || c == '\u{1680}'
    ||| '\u{2000}' <= c && c <= '\u{200a}'
    ||| c == '\u{2028}' || c == '\u{2029}' || c == '\u{202f}' || c == '\u{205f}' || c == '\u{3000}'
}

/// `s` without its leading white space.
pub open spec fn trim_start(s: Seq<char>) -> Seq<char>
    decreases s.len(),
{
    if s.len() > 0 && unicode_space(s[0]) {
        trim_start(s.drop_first())
    } else {
        s
    }
}

/// `s` without its trailing white space.
pub open spec fn trim_end(s: Seq<char>) -> Seq<char>
    decreases s.len(),
{
    if s.len() > 0 && unicode_space(s.last()) {
        trim_end(s.drop_last())
    } else {
        s
    }
}

/// What `str::trim` leaves of `s`: `s` without its leading and trailing
/// white space.
pub open spec fn trimmed(s: Seq<char>) -> Seq<char> {
    trim_end(trim_start(s))
}

/// `str::trim`: `s` without leading and trailing white space.
#[verifier::external_body]
pub(crate) fn str_trim(s: &str) -> (r: &str)
    ensures
        r@ == trimmed(s@),
{
    s.trim()
}

/// Whether `c` is an ASCII letter.
pub open spec fn ascii_letter(c: char) -> bool {
    ('a' <= c && c <= 'z') || ('A' <= c && c <= 'Z')
}

/// Whether `c` has Unicode's `Alphabetic` property.
pub uninterp spec fn alphabetic(c: char) -> bool;

/// `char::is_alphabetic`: whether `c` has Unicode's `Alphabetic` property.
/// Among ASCII characters exactly the letters have it; the rest of the
/// Unicode table is not written out here.
#[verifier::external_body]
pub(crate) fn char_is_alphabetic(c: char) -> (r: bool)
    ensures
        r == alphabetic(c),
        c < '\u{80}' ==> (r <==> ascii_letter(c)),
{
    c.is_alphabetic()
}

/// The ASCII upper case of `c`: lower-case ASCII letters move up by 32,
/// every other character stays.
pub open spec fn ascii_upper(c: char) -> char {
    if 'a' <= c && c <= 'z' {
        ((c as u32) - 32) as char
    } else {
        c
    }
}

/// The ASCII upper case of `c`.
pub fn to_ascii_uppercase(c: char) -> (r: char)
    ensures
        r == ascii_upper(c),
{
    if 'a' <= c && c <= 'z' {
        let v = (c as u32) - 32;
        proof {
            assert(0x41 <= v <= 0x5A);
        }
        char_of_ascii(v as u8)
    } else {
        c
    }
}

/// The character of ASCII code `b`.
pub fn char_of_ascii(b: u8) -> (r: char)
    requires
        b < 128,
    ensures
        r == b as char,
{
    b as char
}

/// Whether `c` is an ASCII decimal digit.
pub open spec fn ascii_digit(c: char) -> bool {
    '0' <= c && c <= '9'
}

/// What the UTF-8 bytes `b` decode to, if they are valid UTF-8.
pub open spec fn utf8_decoded(b: Seq<u8>) -> Option<Seq<char>> {
    if vstd::utf8::valid_utf8(b) {
        Some(vstd::utf8::decode_utf8(b))
    } else {
        None
    }
}

/// `str::from_utf8`: the text the bytes `b` hold, if they are valid UTF-8;
/// bytes below 0x80 are each the ASCII character of their code.
#[verifier::external_body]
pub(crate) fn str_from_utf8(b: &[u8]) -> (r: Option<&str>)
    ensures
        match r {
            Some(s) => utf8_decoded(b@) == Some(s@),
            None => utf8_decoded(b@) is None,
        },
        (forall|i: int| 0 <= i < b@.len() ==> #[trigger] b@[i] < 0x80) ==> r is Some && r.unwrap()@ == b@.map_values(|x: u8| x as char),
{
    core::str::from_utf8(b).ok()
}


/// What the UTF-16 code units `u` decode to, if they are valid UTF-16: a
/// unit outside 0xD800..=0xDFFF is its own character; a high surrogate
/// (0xD800..=0xDBFF) followed by a low one (0xDC00..=0xDFFF) is the
/// character 0x10000 plus ten bits from each; any other surrogate makes the
/// units invalid.
pub open spec fn utf16_decoded(u: Seq<u16>) -> Option<Seq<char>>
    decreases u.len(),
{
    if u.len() == 0 {
        Some(Seq::empty())
    } else if u[0] < 0xD800 || u[0] > 0xDFFF {
        match utf16_decoded(u.drop_first()) {
            Some(rest) => Some(seq![u[0] as char] + rest),
            None => None,
        }
    } else if u[0] <= 0xDBFF && u.len() >= 2 && 0xDC00 <= u[1] && u[1] <= 0xDFFF {
        let c = 0x10000 + (u[0] - 0xD800) * 0x400 + (u[1] - 0xDC00);
        match utf16_decoded(u.subrange(2, u.len() as int)) {
            Some(rest) => Some(seq![c as char] + rest),
            None => None,
        }
    } else {
        None
    }
}

/// `String::from_utf16`: the text the code units `units` hold, if they are
/// valid UTF-16; units below 0x80 are each the ASCII character of their
/// value.
#[verifier::external_body]
pub(crate) fn string_from_utf16(units: &[u16]) -> (r: Option<String>)
    ensures
        match r {
            Some(s) => utf16_decoded(units@) == Some(s@),
            None => utf16_decoded(units@) is None,
        },
        (forall|i: int| 0 <= i < units@.len() ==> #[trigger] units@[i] < 0x80) ==> r is Some && r.unwrap()@ == units@.map_values(|x: u16| x as char),
{
    String::from_utf16(units).ok()
}


/// The characters of `s` up to its first white space.
pub open spec fn first_word(s: Seq<char>) -> Seq<char>
    decreases s.len(),
{
    if s.len() == 0 || unicode_space(s[0]) {
        Seq::empty()
    } else {
        seq![s[0]] + first_word(s.drop_first())
    }
}

/// Trimming the start shortens `s`, and leaves no white space first.
pub proof fn lemma_trim_start_len(s: Seq<char>)
    ensures
        trim_start(s).len() <= s.len(),
        trim_start(s).len() > 0 ==> !unicode_space(trim_start(s)[0]),
    decreases s.len(),
{
    if s.len() > 0 && unicode_space(s[0]) {
        lemma_trim_start_len(s.drop_first());
    }
}

/// A first word is no longer than `s`, and not empty when `s` starts with
/// a non-space.
pub proof fn lemma_first_word_len(s: Seq<char>)
    ensures
        first_word(s).len() <= s.len(),
        s.len() > 0 && !unicode_space(s[0]) ==> first_word(s).len() >= 1,
    decreases s.len(),
{
    if s.len() > 0 && !unicode_space(s[0]) {
        lemma_first_word_len(s.drop_first());
    }
}

/// The words `str::split_whitespace` cuts `s` into: the nonempty runs of
/// `s` between white space, in order.
pub open spec fn whitespace_words(s: Seq<char>) -> Seq<Seq<char>>
    decreases s.len(),
{
    let t = trim_start(s);
    let w = first_word(t);
    if t.len() == 0 {
        Seq::empty()
    } else {
        proof {
            lemma_trim_start_len(s);
            lemma_first_word_len(t);
        }
        seq![w] + whitespace_words(t.subrange(w.len() as int, t.len() as int))
    }
}

/// `str::split_whitespace`: the nonempty runs of `s` between white space,
/// in order.
#[verifier::external_body]
pub(crate) fn str_split_whitespace(s: &str) -> (r: Vec<String>)
    ensures
        r@.map_values(|x: String| x@) == whitespace_words(s@),
{
    s.split_whitespace().map(|w| w.to_string()).collect()
}


/// The string of the characters `v`.
pub fn chars_to_string(v: &Vec<char>) -> (r: String)
    ensures
        r@ == v@,
{
    let mut s = String::new();
    let mut i: usize = 0;
    while i < v.len()
        invariant
            0 <= i <= v@.len(),
            s@ == v@.subrange(0, i as int),
        decreases v@.len() - i,
    {
        push_char(&mut s, v[i]);
        proof {
            assert(s@ =~= v@.subrange(0, i + 1));
        }
        i = i + 1;
    }
    proof {
        assert(v@.subrange(0, v@.len() as int) =~= v@);
    }
    s
}

} // verus!
