//! A small JSON reader and writer, just large enough for the two documents
//! the tool exchanges: the persisted history file and a repository tree
//! response.
//!
//! The grammar is given by the spec functions below, which the executable
//! functions are proved to follow exactly. Strings know the short escapes
//! `\" \\ \/ \n \r \t \b \f` and `\uXXXX` with four hex digits, a
//! surrogate pair standing for one supplementary character; a lone surrogate
//! or any other escape is rejected. Numbers follow the JSON number grammar
//! and are never interpreted. Whitespace may stand between any two tokens;
//! a trailing comma before `]` or `}` is rejected.

use vstd::prelude::*;

verus! {

/// Relies on std's String::push: appends one character at the end.
#[verifier::external_body]
pub(crate) fn push_char(s: &mut String, c: char)
    ensures
        final (s)@ == old(s)@.push(c),
{
    s.push(c);
}

/// JSON whitespace.
pub open spec fn is_ws(c: char) -> bool {
    c == ' ' || c == '\n' || c == '\r' || c == '\t'
}

/// The first position at or after `i` that holds no whitespace.
pub open spec fn ws_end(s: Seq<char>, i: int) -> int
    decreases s.len() - i,
{
    if 0 <= i && i < s.len() && is_ws(s[i]) {
        ws_end(s, i + 1)
    } else {
        i
    }
}

/// The character written by an escape code, if the code is known.
pub open spec fn unesc(c: char) -> Option<char> {
    if c == '"' {
        Some('"')
    } else if c == '\\' {
        Some('\\')
    } else if c == '/' {
        Some('/')
    } else if c == 'n' {
        Some('\n')
    } else if c == 'r' {
        Some('\r')
    } else if c == 't' {
        Some('\t')
    } else if c == 'b' {
        Some('\u{8}')
    } else if c == 'f' {
        Some('\u{c}')
    } else {
        None
    }
}

/// How one character is written inside a string literal.
pub open spec fn esc_char(c: char) -> Seq<char> {
    if c == '"' {
        seq!['\\', '"']
    } else if c == '\\' {
        seq!['\\', '\\']
    } else if c == '\n' {
        seq!['\\', 'n']
    } else if c == '\r' {
        seq!['\\', 'r']
    } else if c == '\t' {
        seq!['\\', 't']
    } else if c == '\u{8}' {
        seq!['\\', 'b']
    } else if c == '\u{c}' {
        seq!['\\', 'f']
    } else {
        seq![c]
    }
}

/// How a whole string value is written, without the surrounding quotes.
pub open spec fn esc_str(s: Seq<char>) -> Seq<char>
    decreases s.len(),
{
    if s.len() == 0 {
        Seq::empty()
    } else {
        esc_char(s[0]) + esc_str(s.drop_first())
    }
}

/// How a whole string value is written, quotes included.
pub open spec fn quoted(s: Seq<char>) -> Seq<char> {
    seq!['"'] + esc_str(s) + seq!['"']
}

/// Relies on std's char::from_u32: `Some` exactly on Unicode scalar values
/// (below the surrogate range, or above it and at most 0x10FFFF), returning
/// the character with that value.
pub assume_specification[ char::from_u32 ](u: u32) -> (r: Option<char>)
    ensures
        (match r {
            Some(c) => (u < 0xD800 || (0xE000 <= u && u <= 0x10FFFF)) && c as u32 == u,
            None => !(u < 0xD800 || (0xE000 <= u && u <= 0x10FFFF)),
        }),
;

/// A hexadecimal digit.
pub open spec fn is_hex_digit(c: char) -> bool {
    ('0' <= c && c <= '9') || ('a' <= c && c <= 'f') || ('A' <= c && c <= 'F')
}

/// The value of one hexadecimal digit.
pub open spec fn hex_val(c: char) -> int {
    if '0' <= c && c <= '9' {
        (c as u32) - ('0' as u32)
    } else if 'a' <= c && c <= 'f' {
        (c as u32) - ('a' as u32) + 10
    } else {
        (c as u32) - ('A' as u32) + 10
    }
}

/// The value of the four hexadecimal digits at `i`, if they are there.
pub open spec fn hex4(s: Seq<char>, i: int) -> Option<int> {
    if 0 <= i && i + 4 <= s.len() && is_hex_digit(s[i]) && is_hex_digit(s[i + 1]) && is_hex_digit(
        s[i + 2],
    ) && is_hex_digit(s[i + 3]) {
        Some(
            hex_val(s[i]) * 0x1000 + hex_val(s[i + 1]) * 0x100 + hex_val(s[i + 2]) * 0x10 + hex_val(
                s[i + 3],
            ),
        )
    } else {
        None
    }
}

/// Reads a string body beginning at `i` (just past the opening quote),
/// returning the unescaped text and the position just past the closing
/// quote.
pub open spec fn str_body(s: Seq<char>, i: int, acc: Seq<char>) -> Option<(Seq<char>, int)>
    decreases s.len() - i,
{
    if i < 0 || i >= s.len() {
        None
    } else if s[i] == '"' {
        Some((acc, i + 1))
    } else if s[i] == '\\' {
        if i + 1 >= s.len() {
            None
        } else if s[i + 1] == 'u' {
            match hex4(s, i + 2) {
                Some(u) => {
                    if 0xD800 <= u && u <= 0xDBFF {
                        if i + 12 <= s.len() && s[i + 6] == '\\' && s[i + 7] == 'u' {
                            match hex4(s, i + 8) {
                                Some(u2) => {
                                    if 0xDC00 <= u2 && u2 <= 0xDFFF {
                                        str_body(
                                            s,
                                            i + 12,
                                            acc.push(
                                                (((0x10000 + (u - 0xD800) * 0x400 + (u2 - 0xDC00))
                                                    as u32) as char),
                                            ),
                                        )
                                    } else {
                                        None
                                    }
                                },
                                None => None,
                            }
                        } else {
                            None
                        }
                    } else if 0xDC00 <= u && u <= 0xDFFF {
                        None
                    } else {
                        str_body(s, i + 6, acc.push(((u as u32) as char)))
                    }
                },
                None => None,
            }
        } else {
            match unesc(s[i + 1]) {
                Some(c) => str_body(s, i + 2, acc.push(c)),
                None => None,
            }
        }
    } else {
        str_body(s, i + 1, acc.push(s[i]))
    }
}

/// A decimal digit.
pub open spec fn is_digit(c: char) -> bool {
    '0' <= c && c <= '9'
}

/// The first position at or after `i` holding no decimal digit.
pub open spec fn digits_end(s: Seq<char>, i: int) -> int
    decreases s.len() - i,
{
    if 0 <= i && i < s.len() && is_digit(s[i]) {
        digits_end(s, i + 1)
    } else {
        i
    }
}

/// The end of the number token beginning at `i`, by the JSON number grammar:
/// an optional minus, an integer part without a leading zero, an optional
/// fraction, an optional exponent.
pub open spec fn num_token_end(s: Seq<char>, i: int) -> Option<int> {
    let a = if 0 <= i && i < s.len() && s[i] == '-' {
        i + 1
    } else {
        i
    };
    if !(0 <= a && a < s.len() && is_digit(s[a])) {
        None
    } else {
        let b = if s[a] == '0' {
            a + 1
        } else {
            digits_end(s, a)
        };
        let c0 = if b < s.len() && s[b] == '.' {
            if b + 1 < s.len() && is_digit(s[b + 1]) {
                Some(digits_end(s, b + 1))
            } else {
                None::<int>
            }
        } else {
            Some(b)
        };
        match c0 {
            None => None,
            Some(c1) => {
                if c1 < s.len() && (s[c1] == 'e' || s[c1] == 'E') {
                    let e0 = if c1 + 1 < s.len() && (s[c1 + 1] == '+' || s[c1 + 1] == '-') {
                        c1 + 2
                    } else {
                        c1 + 1
                    };
                    if e0 < s.len() && is_digit(s[e0]) {
                        Some(digits_end(s, e0))
                    } else {
                        None
                    }
                } else {
                    Some(c1)
                }
            },
        }
    }
}

/// Whether the text `t` stands at position `i` of `s`.
pub open spec fn match_at(s: Seq<char>, i: int, t: Seq<char>) -> bool {
    0 <= i && i + t.len() <= s.len() && s.subrange(i, i + t.len()) == t
}

/// Reads past one JSON value beginning at `i`, returning the position just
/// after it.
pub open spec fn skip_value(s: Seq<char>, i: int) -> Option<int>
    decreases s.len() - i, 0int,
{
    if i < 0 || i >= s.len() {
        None
    } else if s[i] == '"' {
        match str_body(s, i + 1, Seq::empty()) {
            Some((_t, j)) => Some(j),
            None => None,
        }
    } else if s[i] == '{' {
        skip_members(s, i + 1, true)
    } else if s[i] == '[' {
        skip_elems(s, i + 1, true)
    } else if s[i] == 't' {
        if match_at(s, i, seq!['t', 'r', 'u', 'e']) {
            Some(i + 4)
        } else {
            None
        }
    } else if s[i] == 'f' {
        if match_at(s, i, seq!['f', 'a', 'l', 's', 'e']) {
            Some(i + 5)
        } else {
            None
        }
    } else if s[i] == 'n' {
        if match_at(s, i, seq!['n', 'u', 'l', 'l']) {
            Some(i + 4)
        } else {
            None
        }
    } else if s[i] == '-' || is_digit(s[i]) {
        num_token_end(s, i)
    } else {
        None
    }
}

/// Reads past the elements of an array, entered just after `[` (with `first`
/// true) or just after a comma, returning the position just after the
/// closing `]`.
pub open spec fn skip_elems(s: Seq<char>, i: int, first: bool) -> Option<int>
    decreases s.len() - i, 1int,
{
    if i < 0 || i > s.len() {
        None
    } else {
        let j = ws_end(s, i);
        if !(i <= j && j < s.len()) {
            None
        } else if s[j] == ']' {
            if first {
                Some(j + 1)
            } else {
                None
            }
        } else {
            match skip_value(s, j) {
                Some(k) => {
                    if !(j < k && k <= s.len()) {
                        None
                    } else {
                        let m = ws_end(s, k);
                        if !(k <= m && m < s.len()) {
                            None
                        } else if s[m] == ',' {
                            skip_elems(s, m + 1, false)
                        } else if s[m] == ']' {
                            Some(m + 1)
                        } else {
                            None
                        }
                    }
                },
                None => None,
            }
        }
    }
}

/// Reads past the members of an object, entered just after `{` (with `first`
/// true) or just after a comma, returning the position just after the
/// closing `}`.
pub open spec fn skip_members(s: Seq<char>, i: int, first: bool) -> Option<int>
    decreases s.len() - i, 1int,
{
    if i < 0 || i > s.len() {
        None
    } else {
        let j = ws_end(s, i);
        if !(i <= j && j < s.len()) {
            None
        } else if s[j] == '}' {
            if first {
                Some(j + 1)
            } else {
                None
            }
        } else if s[j] != '"' {
            None
        } else {
            match str_body(s, j + 1, Seq::empty()) {
                Some((_key, k)) => {
                    if !(j < k && k <= s.len()) {
                        None
                    } else {
                        let m = ws_end(s, k);
                        if !(k <= m && m < s.len()) {
                            None
                        } else if s[m] != ':' {
                            None
                        } else if !(m + 1 <= ws_end(s, m + 1) && ws_end(s, m + 1) <= s.len()) {
                            None
                        } else {
                            match skip_value(s, ws_end(s, m + 1)) {
                                Some(w) => {
                                    if !(m < w && w <= s.len()) {
                                        None
                                    } else {
                                        let q = ws_end(s, w);
                                        if !(w <= q && q < s.len()) {
                                            None
                                        } else if s[q] == ',' {
                                            skip_members(s, q + 1, false)
                                        } else if s[q] == '}' {
                                            Some(q + 1)
                                        } else {
                                            None
                                        }
                                    }
                                },
                                None => None,
                            }
                        }
                    }
                },
                None => None,
            }
        }
    }
}

/// Runs to the end of the whitespace beginning at `i`.
pub(crate) fn ws_end_x(s: &str, i: usize) -> (j: usize)
    requires
        i <= s@.len(),
    ensures
        j as int == ws_end(s@, i as int),
        i <= j <= s@.len(),
    decreases s@.len() - i,
{
    if i < s.unicode_len() {
        let c = s.get_char(i);
        if c == ' ' || c == '\n' || c == '\r' || c == '\t' {
            ws_end_x(s, i + 1)
        } else {
            i
        }
    } else {
        i
    }
}

/// Reads a string body as `str_body` does.
pub(crate) fn str_body_x(s: &str, i: usize, acc: String) -> (r: Option<(String, usize)>)
    requires
        i <= s@.len(),
    ensures
        (match r {
            Some(p) => str_body(s@, i as int, acc@) == Some((p.0@, p.1 as int)) && i < p.1 <= s@.len(),
            None => str_body(s@, i as int, acc@) is None,
        }),
    decreases s@.len() - i,
{
    let n = s.unicode_len();
    if i >= n {
        None
    } else {
        let c = s.get_char(i);
        if c == '"' {
            Some((acc, i + 1))
        } else if c == '\\' {
            if i + 1 < n {
                let e = s.get_char(i + 1);
                if e == 'u' {
                    return match hex4_x(s, i + 2) {
                        Some(u) => {
                            if 0xD800 <= u && u <= 0xDBFF {
                                if n - i >= 12 && s.get_char(i + 6) == '\\' && s.get_char(i + 7)
                                    == 'u' {
                                    match hex4_x(s, i + 8) {
                                        Some(u2) => {
                                            if 0xDC00 <= u2 && u2 <= 0xDFFF {
                                                let scalar: u32 = 0x10000 + (u - 0xD800) * 0x400 + (
                                                u2 - 0xDC00);
                                                match char::from_u32(scalar) {
                                                    Some(ch) => {
                                                        proof {
                                                            vstd::utf8::char_u32_cast(ch, scalar);
                                                        }
                                                        let mut acc2 = acc;
                                                        push_char(&mut acc2, ch);
                                                        str_body_x(s, i + 12, acc2)
                                                    },
                                                    None => {
                                                        proof {
                                                            assert(false);
                                                        }
                                                        None
                                                    },
                                                }
                                            } else {
                                                None
                                            }
                                        },
                                        None => None,
                                    }
                                } else {
                                    None
                                }
                            } else if 0xDC00 <= u && u <= 0xDFFF {
                                None
                            } else {
                                match char::from_u32(u) {
                                    Some(ch) => {
                                        proof {
                                            vstd::utf8::char_u32_cast(ch, u);
                                        }
                                        let mut acc2 = acc;
                                        push_char(&mut acc2, ch);
                                        str_body_x(s, i + 6, acc2)
                                    },
                                    None => {
                                        proof {
                                            assert(false);
                                        }
                                        None
                                    },
                                }
                            }
                        },
                        None => None,
                    };
                }
                let u: Option<char> = if e == '"' {
                    Some('"')
                } else if e == '\\' {
                    Some('\\')
                } else if e == '/' {
                    Some('/')
                } else if e == 'n' {
                    Some('\n')
                } else if e == 'r' {
                    Some('\r')
                } else if e == 't' {
                    Some('\t')
                } else if e == 'b' {
                    Some('\u{8}')
                } else if e == 'f' {
                    Some('\u{c}')
                } else {
                    None
                };
                match u {
                    Some(c2) => {
                        let mut acc2 = acc;
                        push_char(&mut acc2, c2);
                        str_body_x(s, i + 2, acc2)
                    },
                    None => None,
                }
            } else {
                None
            }
        } else {
            let mut acc2 = acc;
            push_char(&mut acc2, c);
            str_body_x(s, i + 1, acc2)
        }
    }
}

/// The value of one hexadecimal digit.
fn hex_val_x(c: char) -> (r: u32)
    requires
        is_hex_digit(c),
    ensures
        r as int == hex_val(c),
        r <= 15,
{
    if '0' <= c && c <= '9' {
        c as u32 - '0' as u32
    } else if 'a' <= c && c <= 'f' {
        c as u32 - 'a' as u32 + 10
    } else {
        c as u32 - 'A' as u32 + 10
    }
}

/// The value of the four hexadecimal digits at `i`, as `hex4` gives it.
fn hex4_x(s: &str, i: usize) -> (r: Option<u32>)
    requires
        i <= s@.len(),
    ensures
        (match r {
            Some(u) => hex4(s@, i as int) == Some(u as int) && u <= 0xFFFF,
            None => hex4(s@, i as int) is None,
        }),
{
    let n = s.unicode_len();
    if n - i < 4 {
        return None;
    }
    let c0 = s.get_char(i);
    let c1 = s.get_char(i + 1);
    let c2 = s.get_char(i + 2);
    let c3 = s.get_char(i + 3);
    if is_hex_digit_x(c0) && is_hex_digit_x(c1) && is_hex_digit_x(c2) && is_hex_digit_x(c3) {
        Some(hex_val_x(c0) * 0x1000 + hex_val_x(c1) * 0x100 + hex_val_x(c2) * 0x10 + hex_val_x(c3))
    } else {
        None
    }
}

/// Whether `c` is a hexadecimal digit.
fn is_hex_digit_x(c: char) -> (r: bool)
    ensures
        r == is_hex_digit(c),
{
    ('0' <= c && c <= '9') || ('a' <= c && c <= 'f') || ('A' <= c && c <= 'F')
}

/// Runs to the end of the digits beginning at `i`.
fn digits_end_x(s: &str, i: usize) -> (j: usize)
    requires
        i <= s@.len(),
    ensures
        j as int == digits_end(s@, i as int),
        i <= j <= s@.len(),
    decreases s@.len() - i,
{
    if i < s.unicode_len() {
        let c = s.get_char(i);
        if '0' <= c && c <= '9' {
            digits_end_x(s, i + 1)
        } else {
            i
        }
    } else {
        i
    }
}

/// Finds the end of the number token at `i`, as `num_token_end` gives it.
fn num_token_end_x(s: &str, i: usize) -> (r: Option<usize>)
    requires
        i <= s@.len(),
    ensures
        (match r {
            Some(k) => num_token_end(s@, i as int) == Some(k as int) && k <= s@.len(),
            None => num_token_end(s@, i as int) is None,
        }),
{
    let n = s.unicode_len();
    let a = if i < n && s.get_char(i) == '-' {
        i + 1
    } else {
        i
    };
    if !(a < n) {
        return None;
    }
    let ca = s.get_char(a);
    if !('0' <= ca && ca <= '9') {
        return None;
    }
    let b = if ca == '0' {
        a + 1
    } else {
        digits_end_x(s, a)
    };
    let c1 = if b < n && s.get_char(b) == '.' {
        if b + 1 < n {
            let cf = s.get_char(b + 1);
            if '0' <= cf && cf <= '9' {
                Some(digits_end_x(s, b + 1))
            } else {
                None
            }
        } else {
            None
        }
    } else {
        Some(b)
    };
    match c1 {
        None => None,
        Some(c2) => {
            if c2 < n {
                let ce = s.get_char(c2);
                if ce == 'e' || ce == 'E' {
                    let e0 = if c2 + 1 < n {
                        let cs = s.get_char(c2 + 1);
                        if cs == '+' || cs == '-' {
                            c2 + 2
                        } else {
                            c2 + 1
                        }
                    } else {
                        c2 + 1
                    };
                    if e0 < n {
                        let cd = s.get_char(e0);
                        if '0' <= cd && cd <= '9' {
                            Some(digits_end_x(s, e0))
                        } else {
                            None
                        }
                    } else {
                        None
                    }
                } else {
                    Some(c2)
                }
            } else {
                Some(c2)
            }
        },
    }
}

/// Reads past one JSON value as `skip_value` does.
pub(crate) fn skip_value_x(s: &str, i: usize) -> (r: Option<usize>)
    requires
        i <= s@.len(),
    ensures
        (match r {
            Some(k) => skip_value(s@, i as int) == Some(k as int) && k <= s@.len(),
            None => skip_value(s@, i as int) is None,
        }),
    decreases s@.len() - i, 0int,
{
    let n = s.unicode_len();
    if i >= n {
        None
    } else {
        let c = s.get_char(i);
        if c == '"' {
            match str_body_x(s, i + 1, String::new()) {
                Some(p) => Some(p.1),
                None => None,
            }
        } else if c == '{' {
            skip_members_x(s, i + 1, true)
        } else if c == '[' {
            skip_elems_x(s, i + 1, true)
        } else if c == 't' {
            if n - i >= 4 && s.get_char(i + 1) == 'r' && s.get_char(i + 2) == 'u' && s.get_char(
                i + 3,
            ) == 'e' {
                proof {
                    assert(s@.subrange(i as int, i + 4) =~= seq!['t', 'r', 'u', 'e']);
                }
                Some(i + 4)
            } else {
                proof {
                    if match_at(s@, i as int, seq!['t', 'r', 'u', 'e']) {
                        assert(s@.subrange(i as int, i + 4)[1] == 'r');
                        assert(s@.subrange(i as int, i + 4)[2] == 'u');
                        assert(s@.subrange(i as int, i + 4)[3] == 'e');
                    }
                }
                None
            }
        } else if c == 'f' {
            if n - i >= 5 && s.get_char(i + 1) == 'a' && s.get_char(i + 2) == 'l' && s.get_char(
                i + 3,
            ) == 's' && s.get_char(i + 4) == 'e' {
                proof {
                    assert(s@.subrange(i as int, i + 5) =~= seq!['f', 'a', 'l', 's', 'e']);
                }
                Some(i + 5)
            } else {
                proof {
                    if match_at(s@, i as int, seq!['f', 'a', 'l', 's', 'e']) {
                        assert(s@.subrange(i as int, i + 5)[1] == 'a');
                        assert(s@.subrange(i as int, i + 5)[2] == 'l');
                        assert(s@.subrange(i as int, i + 5)[3] == 's');
                        assert(s@.subrange(i as int, i + 5)[4] == 'e');
                    }
                }
                None
            }
        } else if c == 'n' {
            if n - i >= 4 && s.get_char(i + 1) == 'u' && s.get_char(i + 2) == 'l' && s.get_char(
                i + 3,
            ) == 'l' {
                proof {
                    assert(s@.subrange(i as int, i + 4) =~= seq!['n', 'u', 'l', 'l']);
                }
                Some(i + 4)
            } else {
                proof {
                    if match_at(s@, i as int, seq!['n', 'u', 'l', 'l']) {
                        assert(s@.subrange(i as int, i + 4)[1] == 'u');
                        assert(s@.subrange(i as int, i + 4)[2] == 'l');
                        assert(s@.subrange(i as int, i + 4)[3] == 'l');
                    }
                }
                None
            }
        } else if c == '-' || ('0' <= c && c <= '9') {
            num_token_end_x(s, i)
        } else {
            None
        }
    }
}

/// Reads past the elements of an array as `skip_elems` does.
pub(crate) fn skip_elems_x(s: &str, i: usize, first: bool) -> (r: Option<usize>)
    requires
        i <= s@.len(),
    ensures
        (match r {
            Some(k) => skip_elems(s@, i as int, first) == Some(k as int) && k <= s@.len(),
            None => skip_elems(s@, i as int, first) is None,
        }),
    decreases s@.len() - i, 1int,
{
    let n = s.unicode_len();
    let j = ws_end_x(s, i);
    if j >= n {
        None
    } else if s.get_char(j) == ']' {
        if first {
            Some(j + 1)
        } else {
            None
        }
    } else {
        match skip_value_x(s, j) {
            Some(k) => {
                if !(j < k && k <= n) {
                    None
                } else {
                    let m = ws_end_x(s, k);
                    if m >= n {
                        None
                    } else if s.get_char(m) == ',' {
                        skip_elems_x(s, m + 1, false)
                    } else if s.get_char(m) == ']' {
                        Some(m + 1)
                    } else {
                        None
                    }
                }
            },
            None => None,
        }
    }
}

/// Reads past the members of an object as `skip_members` does.
pub(crate) fn skip_members_x(s: &str, i: usize, first: bool) -> (r: Option<usize>)
    requires
        i <= s@.len(),
    ensures
        (match r {
            Some(k) => skip_members(s@, i as int, first) == Some(k as int) && k <= s@.len(),
            None => skip_members(s@, i as int, first) is None,
        }),
    decreases s@.len() - i, 1int,
{
    let n = s.unicode_len();
    let j = ws_end_x(s, i);
    if j >= n {
        None
    } else if s.get_char(j) == '}' {
        if first {
            Some(j + 1)
        } else {
            None
        }
    } else if s.get_char(j) != '"' {
        None
    } else {
        match str_body_x(s, j + 1, String::new()) {
            Some(key) => {
                let k = key.1;
                let m = ws_end_x(s, k);
                if m >= n {
                    None
                } else if s.get_char(m) != ':' {
                    None
                } else {
                    let v = ws_end_x(s, m + 1);
                    match skip_value_x(s, v) {
                        Some(w) => {
                            if !(m < w && w <= n) {
                                None
                            } else {
                                let q = ws_end_x(s, w);
                                if q >= n {
                                    None
                                } else if s.get_char(q) == ',' {
                                    skip_members_x(s, q + 1, false)
                                } else if s.get_char(q) == '}' {
                                    Some(q + 1)
                                } else {
                                    None
                                }
                            }
                        },
                        None => None,
                    }
                }
            },
            None => None,
        }
    }
}

/// The view of an optional owned string.
pub open spec fn opt_view(o: Option<String>) -> Option<Seq<char>> {
    match o {
        Some(s) => Some(s@),
        None => None,
    }
}

/// Reads the members of an object with two required string-valued keys `k1`
/// and `k2`, entered just after `{` or a comma. The keys may come in either
/// order, each at most once; members under other keys are read past and
/// dropped; both keys must be present when the object closes.
#[verifier::opaque]
pub open spec fn two_str_members(
    s: Seq<char>,
    i: int,
    k1: Seq<char>,
    k2: Seq<char>,
    v1: Option<Seq<char>>,
    v2: Option<Seq<char>>,
) -> Option<((Seq<char>, Seq<char>), int)>
    decreases s.len() - i,
{
    if !(0 <= i && i <= s.len()) {
        None
    } else {
        let j = ws_end(s, i);
        if !(i <= j && j < s.len()) {
            None
        } else if s[j] != '"' {
            None
        } else {
            match str_body(s, j + 1, Seq::empty()) {
                Some((key, k)) => {
                    if !(j < k && k <= s.len()) {
                        None
                    } else {
                        let m = ws_end(s, k);
                        if !(k <= m && m < s.len() && s[m] == ':') {
                            None
                        } else {
                            let v = ws_end(s, m + 1);
                            if !(m < v && v < s.len()) {
                                None
                            } else if key == k1 || key == k2 {
                                if s[v] != '"' {
                                    None
                                } else {
                                    match str_body(s, v + 1, Seq::empty()) {
                                        Some((val, w)) => {
                                            if !(v < w && w <= s.len()) {
                                                None
                                            } else if (key == k1 && v1 is Some) || (key != k1
                                                && v2 is Some) {
                                                None
                                            } else {
                                                let v1n = if key == k1 {
                                                    Some(val)
                                                } else {
                                                    v1
                                                };
                                                let v2n = if key == k1 {
                                                    v2
                                                } else {
                                                    Some(val)
                                                };
                                                let q = ws_end(s, w);
                                                if !(w <= q && q < s.len()) {
                                                    None
                                                } else if s[q] == ',' {
                                                    two_str_members(s, q + 1, k1, k2, v1n, v2n)
                                                } else if s[q] == '}' {
                                                    match (v1n, v2n) {
                                                        (Some(a), Some(b)) => Some(((a, b), q + 1)),
                                                        _ => None,
                                                    }
                                                } else {
                                                    None
                                                }
                                            }
                                        },
                                        None => None,
                                    }
                                }
                            } else {
                                match skip_value(s, v) {
                                    Some(w) => {
                                        if !(v < w && w <= s.len()) {
                                            None
                                        } else {
                                            let q = ws_end(s, w);
                                            if !(w <= q && q < s.len()) {
                                                None
                                            } else if s[q] == ',' {
                                                two_str_members(s, q + 1, k1, k2, v1, v2)
                                            } else if s[q] == '}' {
                                                match (v1, v2) {
                                                    (Some(a), Some(b)) => Some(((a, b), q + 1)),
                                                    _ => None,
                                                }
                                            } else {
                                                None
                                            }
                                        }
                                    },
                                    None => None,
                                }
                            }
                        }
                    }
                },
                None => None,
            }
        }
    }
}

/// Reads an object's members as `two_str_members` does.
pub(crate) fn two_str_members_x(
    s: &str,
    i: usize,
    k1: &str,
    k2: &str,
    v1: Option<String>,
    v2: Option<String>,
) -> (r: Option<((String, String), usize)>)
    requires
        i <= s@.len(),
    ensures
        (match r {
            Some(p) => two_str_members(s@, i as int, k1@, k2@, opt_view(v1), opt_view(v2)) == Some(
                ((p.0.0@, p.0.1@), p.1 as int),
            ) && i < p.1 <= s@.len(),
            None => two_str_members(s@, i as int, k1@, k2@, opt_view(v1), opt_view(v2)) is None,
        }),
    decreases s@.len() - i,
{
    proof {
        reveal(two_str_members);
    }
    let n = s.unicode_len();
    let j = ws_end_x(s, i);
    if j >= n {
        return None;
    }
    if s.get_char(j) != '"' {
        return None;
    }
    match str_body_x(s, j + 1, String::new()) {
        Some(key) => {
            let k = key.1;
            let m = ws_end_x(s, k);
            if !(m < n && s.get_char(m) == ':') {
                return None;
            }
            let v = ws_end_x(s, m + 1);
            if v >= n {
                return None;
            }
            let k1s = String::from_str(k1);
            let k2s = String::from_str(k2);
            let is_k1 = key.0 == k1s;
            let is_k2 = key.0 == k2s;
            if is_k1 || is_k2 {
                if s.get_char(v) != '"' {
                    return None;
                }
                match str_body_x(s, v + 1, String::new()) {
                    Some(val) => {
                        let w = val.1;
                        if is_k1 && v1.is_some() {
                            return None;
                        }
                        if !is_k1 && v2.is_some() {
                            return None;
                        }
                        let (v1n, v2n) = if is_k1 {
                            (Some(val.0), v2)
                        } else {
                            (v1, Some(val.0))
                        };
                        let q = ws_end_x(s, w);
                        if q >= n {
                            return None;
                        }
                        let cq = s.get_char(q);
                        if cq == ',' {
                            two_str_members_x(s, q + 1, k1, k2, v1n, v2n)
                        } else if cq == '}' {
                            match (v1n, v2n) {
                                (Some(a), Some(b)) => Some(((a, b), q + 1)),
                                _ => None,
                            }
                        } else {
                            None
                        }
                    },
                    None => None,
                }
            } else {
                match skip_value_x(s, v) {
                    Some(w) => {
                        if !(v < w && w <= n) {
                            return None;
                        }
                        let q = ws_end_x(s, w);
                        if q >= n {
                            return None;
                        }
                        let cq = s.get_char(q);
                        if cq == ',' {
                            two_str_members_x(s, q + 1, k1, k2, v1, v2)
                        } else if cq == '}' {
                            match (v1, v2) {
                                (Some(a), Some(b)) => Some(((a, b), q + 1)),
                                _ => None,
                            }
                        } else {
                            None
                        }
                    },
                    None => None,
                }
            }
        },
        None => None,
    }
}

} // verus!
