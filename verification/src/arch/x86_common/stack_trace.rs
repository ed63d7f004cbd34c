//! Naming the function an instruction address falls in, from the symbol
//! table the build ships: one line per symbol, its address in hexadecimal,
//! a space, its name, in increasing address order.
use vstd::prelude::*;
use vstd::string::*;
use crate::usr::text::{str_from_utf8, utf8_decoded, chars_to_string};
use crate::usr::tty::{parse_unsigned, parse_unsigned_from};
use crate::drivers::fs::fat::{split_on, split_chars, char_views};

verus! {

/// `l` without a carriage return at its end.
pub open spec fn strip_cr(l: Seq<char>) -> Seq<char> {
    if l.len() > 0 && l.last() == '\r' { l.drop_last() } else { l }
}

/// The lines `str::lines` gives for `s`: the pieces between newlines, a
/// carriage return before a newline dropped, and no empty line after a
/// final newline.
pub open spec fn text_lines(s: Seq<char>) -> Seq<Seq<char>> {
    let p = split_on(s, '\n');
    let body = p.drop_last().map_values(|l: Seq<char>| strip_cr(l));
    if p.last().len() == 0 { body } else { body.push(p.last()) }
}

/// The first space of `l`, if it has one.
pub open spec fn first_space(l: Seq<char>) -> Option<int> {
    if exists|k: int| 0 <= k < l.len() && l[k] == ' ' {
        Some(choose|k: int| 0 <= k < l.len() && l[k] == ' ' && forall|j: int| 0 <= j < k ==> l[j] != ' ')
    } else {
        None
    }
}

/// The search of the symbol lines `lines` from line `i` for the function
/// at `fa`, `prev` being the last symbol read: lines without a space are
/// skipped; an address that does not parse fails the search; a symbol at
/// `fa` is the answer, at offset 0; on the last line its symbol is the
/// answer, at `fa` less its address; an address past `fa` on the first line
/// fails the search; `fa` strictly between the last symbol and this one
/// gives the last symbol, at the distance between the two. `None` where the
/// kernel would not survive: the lines run out, no symbol came before, or
/// `fa` lies before the last line's address.
pub open spec fn symbol_walk(lines: Seq<Seq<char>>, fa: u64, i: int, prev: Option<(Seq<char>, u64)>) -> Option<Result<(Seq<char>, u64), ()>>
    decreases lines.len() - i,
{
    if i < 0 || i >= lines.len() {
        None
    } else {
        let line = lines[i];
        match first_space(line) {
            None => symbol_walk(lines, fa, i + 1, prev),
            Some(k) => {
                let name = line.subrange(k + 1, line.len() as int);
                match parse_unsigned(line.subrange(0, k), 16, u64::MAX as nat) {
                    None => Some(Err(())),
                    Some(a) => {
                        let address = a as u64;
                        if address == fa {
                            Some(Ok((name, 0u64)))
                        } else if i == lines.len() - 1 {
                            if fa < address { None } else { Some(Ok((name, (fa - address) as u64))) }
                        } else if i == 0 {
                            if fa < address { Some(Err(())) } else { symbol_walk(lines, fa, i + 1, Some((name, address))) }
                        } else {
                            match prev {
                                None => None,
                                Some((pname, paddr)) => {
                                    if fa > paddr && fa < address {
                                        Some(Ok((pname, (address - paddr) as u64)))
                                    } else {
                                        symbol_walk(lines, fa, i + 1, Some((name, address)))
                                    }
                                },
                            }
                        }
                    },
                }
            },
        }
    }
}

/// The function the address `fa` falls in, by the symbol table `symbols`:
/// its name and the offset into it. Fails when the table is not UTF-8.
pub open spec fn function_name_of(symbols: Seq<u8>, fa: u64) -> Option<Result<(Seq<char>, u64), ()>> {
    match utf8_decoded(symbols) {
        None => Some(Err(())),
        Some(text) => symbol_walk(text_lines(text), fa, 0, None),
    }
}

/// The line `l` split at its first space, if it has one.
fn split_first_space(l: &Vec<char>) -> (r: Option<(Vec<char>, Vec<char>)>)
    ensures
        match first_space(l@) {
            None => r is None,
            Some(k) => r matches Some((a, b)) && a@ == l@.subrange(0, k) && b@ == l@.subrange(k + 1, l@.len() as int),
        },
{
    let mut k: usize = 0;
    while k < l.len()
        invariant
            0 <= k <= l@.len(),
            forall|j: int| 0 <= j < k ==> l@[j] != ' ',
        decreases l@.len() - k,
    {
        if l[k] == ' ' {
            let mut a: Vec<char> = Vec::new();
            let mut b: Vec<char> = Vec::new();
            let mut j: usize = 0;
            while j < k
                invariant
                    0 <= j <= k < l@.len(),
                    a@ == l@.subrange(0, j as int),
                decreases k - j,
            {
                a.push(l[j]);
                proof {
                    assert(a@ =~= l@.subrange(0, j + 1));
                }
                j = j + 1;
            }
            let mut j = k + 1;
            while j < l.len()
                invariant
                    k + 1 <= j <= l@.len(),
                    b@ == l@.subrange(k + 1, j as int),
                decreases l@.len() - j,
            {
                b.push(l[j]);
                proof {
                    assert(b@ =~= l@.subrange(k + 1, j + 1));
                }
                j = j + 1;
            }
            proof {
                assert(l@[k as int] == ' ');
                let w = choose|w: int| 0 <= w < l@.len() && l@[w] == ' ' && forall|j: int| 0 <= j < w ==> l@[j] != ' ';
                assert(w == k);
            }
            return Some((a, b));
        }
        k = k + 1;
    }
    None
}

/// The lines of the text `t`, as `text_lines` says.
fn lines_of(t: &str) -> (r: Vec<Vec<char>>)
    ensures
        char_views(r@) == text_lines(t@),
{
    let pieces = split_chars(t, '\n');
    let ghost p = split_on(t@, '\n');
    proof {
        crate::drivers::fs::fat::lemma_split_on_nonempty(t@, '\n');
    }
    let n = pieces.len();
    let mut r: Vec<Vec<char>> = Vec::new();
    let mut i: usize = 0;
    while i + 1 < n
        invariant
            n == p.len(),
            n >= 1,
            char_views(pieces@) == p,
            0 <= i <= n - 1,
            char_views(r@) == p.subrange(0, i as int).map_values(|l: Seq<char>| strip_cr(l)),
        decreases n - i,
    {
        let piece = &pieces[i];
        proof {
            assert(char_views(pieces@)[i as int] == piece@);
        }
        let mut line: Vec<char> = Vec::new();
        let m = piece.len();
        let keep = if m > 0 && piece[m - 1] == '\r' { m - 1 } else { m };
        let mut j: usize = 0;
        while j < keep
            invariant
                0 <= j <= keep <= m == piece@.len(),
                line@ == piece@.subrange(0, j as int),
            decreases keep - j,
        {
            line.push(piece[j]);
            proof {
                assert(line@ =~= piece@.subrange(0, j + 1));
            }
            j = j + 1;
        }
        let ghost before = char_views(r@);
        r.push(line);
        proof {
            assert(line@ =~= strip_cr(piece@));
            assert(char_views(r@) =~= before.push(line@));
            assert(p.subrange(0, i + 1).map_values(|l: Seq<char>| strip_cr(l))
                =~= p.subrange(0, i as int).map_values(|l: Seq<char>| strip_cr(l)).push(strip_cr(p[i as int])));
        }
        i = i + 1;
    }
    proof {
        assert(p.subrange(0, n - 1) =~= p.drop_last());
        assert(char_views(pieces@)[n - 1] == pieces@[n - 1]@);
    }
    if pieces[n - 1].len() != 0 {
        let ghost before = char_views(r@);
        let last = pieces[n - 1].clone();
        r.push(last);
        proof {
            assert(char_views(r@) =~= before.push(last@));
        }
    }
    r
}

/// The function the address `function_address` falls in, by the symbol
/// table `symbols`: its name and the offset into it.
pub fn get_function_name(symbols: &[u8], function_address: u64) -> (r: Result<(String, u64), ()>)
    requires
        function_name_of(symbols@, function_address) is Some,
    ensures
        match function_name_of(symbols@, function_address).unwrap() {
            Ok((name, off)) => r matches Ok((s, o)) && s@ == name && o == off,
            Err(()) => r is Err,
        },
{
    match symbol_lookup(symbols, function_address) {
        Some(r) => r,
        None => Err(()),
    }
}

/// The function the address `function_address` falls in, unless the
/// kernel would not survive the search: `None` then.
pub fn get_function_name_checked(symbols: &[u8], function_address: u64) -> (r: Option<Result<(String, u64), ()>>)
    ensures
        match function_name_of(symbols@, function_address) {
            Some(Ok((name, off))) => r matches Some(Ok((s, o))) && s@ == name && o == off,
            Some(Err(())) => r matches Some(Err(())),
            None => r is None,
        },
{
    if symbol_lookup(symbols, function_address).is_some() {
        Some(get_function_name(symbols, function_address))
    } else {
        None
    }
}

/// The search `function_name_of` describes, giving `None` where it does.
pub fn symbol_lookup(symbols: &[u8], function_address: u64) -> (r: Option<Result<(String, u64), ()>>)
    ensures
        match function_name_of(symbols@, function_address) {
            Some(Ok((name, off))) => r matches Some(Ok((s, o))) && s@ == name && o == off,
            Some(Err(())) => r matches Some(Err(())),
            None => r is None,
        },
{
    let text = match str_from_utf8(symbols) {
        Some(t) => t,
        None => {
            return Some(Err(()));
        },
    };
    let lines = lines_of(text);
    let ghost ls = text_lines(text@);
    let n = lines.len();
    proof {
        assert(function_name_of(symbols@, function_address) == symbol_walk(ls, function_address, 0, None));
    }
    let mut previous: Option<(Vec<char>, u64)> = None;
    let mut i: usize = 0;
    loop
        invariant
            ls == char_views(lines@),
            n == ls.len(),
            0 <= i,
            symbol_walk(ls, function_address, 0, None) == symbol_walk(ls, function_address, i as int, match &previous {
                Some((a, b)) => Some((a@, *b)),
                None => None,
            }),
            function_name_of(symbols@, function_address) == symbol_walk(ls, function_address, 0, None),
        decreases n - i,
    {
        if i >= n {
            return None;
        }
        let line = &lines[i];
        proof {
            assert(char_views(lines@)[i as int] == line@);
        }
        match split_first_space(line) {
            None => {
                i = i + 1;
            },
            Some((addr_chars, name)) => {
                let addr_text = chars_to_string(&addr_chars);
                proof {
                    assert(addr_text@.subrange(0, addr_text@.len() as int) =~= addr_text@);
                }
                let address = match parse_unsigned_from(addr_text.as_str(), 0, 16, u64::MAX) {
                    Some(a) => a,
                    None => {
                        return Some(Err(()));
                    },
                };
                if address == function_address {
                    return Some(Ok((chars_to_string(&name), 0)));
                }
                if i == n - 1 {
                    if function_address < address {
                        return None;
                    }
                    return Some(Ok((chars_to_string(&name), function_address - address)));
                }
                if i == 0 {
                    if function_address < address {
                        return Some(Err(()));
                    }
                    previous = Some((name, address));
                    i = i + 1;
                    continue;
                }
                match &previous {
                    None => {
                        return None;
                    },
                    Some((pname, paddr)) => {
                        if function_address > *paddr && function_address < address {
                            return Some(Ok((chars_to_string(pname), address - *paddr)));
                        }
                    },
                }
                previous = Some((name, address));
                i = i + 1;
            },
        }
    }
}

} // verus!
