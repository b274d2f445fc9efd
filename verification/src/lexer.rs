//! Reading the small parts of the text: blank space, strings, numbers and
//! the two truth words.

use vstd::prelude::*;
use crate::chars::{
    all_in, blank, hex_digit, lemma_run_end_bounds, name_start, run_end, scan_run, CharClass,
};
use crate::number::{digit_of, lemma_float_slice, read_nat, scan_float, scan_sign};
use crate::syntax::{
    comment_end, is_false_word, is_true_word, line_end, line_of, clip, parse_number, parse_scalar,
    parse_string, signed32, signed64, skip_blank, unescape,
};
use crate::value::{Float, Format, Value};

verus! {

/// Finds the next line feed at or after `i`.
pub fn scan_line(s: &Vec<char>, i: usize) -> (j: usize)
    requires
        i <= s.len(),
    ensures
        j == line_end(s@, i as int),
        i <= j <= s.len(),
{
    let mut j: usize = i;
    while j < s.len() && s[j] != '\n'
        invariant
            i <= j <= s.len(),
            line_end(s@, i as int) == line_end(s@, j as int),
        decreases s.len() - j,
    {
        j += 1;
    }
    j
}

/// Finds the position past the next `*/` at or after `i`.
pub fn scan_comment(s: &Vec<char>, i: usize) -> (j: usize)
    requires
        i <= s.len(),
    ensures
        j == comment_end(s@, i as int),
        i <= j <= s.len(),
{
    let mut j: usize = i;
    loop
        invariant
            i <= j <= s.len(),
            comment_end(s@, i as int) == comment_end(s@, j as int),
        decreases s.len() - j,
    {
        if j >= s.len() {
            return j;
        }
        if j + 1 >= s.len() {
            return j + 1;
        }
        if s[j] == '*' && s[j + 1] == '/' {
            return j + 2;
        }
        j += 1;
    }
}

/// Runs over blank space and comments from `i` on.
pub fn scan_blank(s: &Vec<char>, i: usize) -> (j: usize)
    requires
        i <= s.len(),
    ensures
        j == skip_blank(s@, i as int),
        i <= j <= s.len(),
{
    let mut j: usize = i;
    loop
        invariant
            i <= j <= s.len(),
            skip_blank(s@, i as int) == skip_blank(s@, j as int),
        decreases s.len() - j,
    {
        if j >= s.len() {
            return j;
        }
        let c = s[j];
        if blank(c) {
            j += 1;
        } else if c == '#' {
            j = scan_line(s, j + 1);
        } else if c == '/' && j + 1 < s.len() && s[j + 1] == '/' {
            j = scan_line(s, j + 2);
        } else if c == '/' && j + 1 < s.len() && s[j + 1] == '*' {
            j = scan_comment(s, j + 2);
        } else {
            return j;
        }
    }
}

/// The character that a backslash and `c` stand for.
fn read_escape(c: char) -> (r: Option<char>)
    ensures
        r == unescape(c),
{
    if c == '"' {
        Some('"')
    } else if c == '\\' {
        Some('\\')
    } else if c == 'n' {
        Some('\n')
    } else if c == 'r' {
        Some('\r')
    } else if c == 't' {
        Some('\t')
    } else if c == 'f' {
        Some('\x0c')
    } else {
        None
    }
}

/// Reads the inside of a string from `i` up to the closing quote.
pub fn read_string(s: &Vec<char>, i: usize) -> (r: Option<(String, usize)>)
    requires
        i <= s.len(),
    ensures
        match r {
            Some((t, e)) => parse_string(s@, i as int, Seq::empty()) == Some((t@, e as int)) && i
                < e <= s.len(),
            None => parse_string(s@, i as int, Seq::empty()) is None,
        },
{
    let mut acc = String::new();
    let mut k: usize = i;
    loop
        invariant
            i <= k <= s.len(),
            parse_string(s@, i as int, Seq::empty()) == parse_string(s@, k as int, acc@),
        decreases s.len() - k,
    {
        if k >= s.len() {
            return None;
        }
        let c = s[k];
        if c == '"' {
            return Some((acc, k + 1));
        } else if c == '\\' {
            if k + 1 >= s.len() {
                return None;
            }
            let d = s[k + 1];
            if d == 'x' {
                if s.len() - k > 3 && hex_digit(s[k + 2]) && hex_digit(s[k + 3]) {
                    let code: u8 = digit_of(s[k + 2]) * 16 + digit_of(s[k + 3]);
                    acc.push(code as char);
                    k += 4;
                } else {
                    return None;
                }
            } else {
                match read_escape(d) {
                    Some(e) => {
                        acc.push(e);
                        k += 2;
                    },
                    None => {
                        return None;
                    },
                }
            }
        } else {
            acc.push(c);
            k += 1;
        }
    }
}

/// Whether `s[i..e]` is the word `true`, in any mix of cases.
fn true_word(s: &Vec<char>, i: usize, e: usize) -> (r: bool)
    requires
        i <= e <= s.len(),
    ensures
        r == is_true_word(s@.subrange(i as int, e as int)),
{
    let ghost w = s@.subrange(i as int, e as int);
    if e - i != 4 {
        return false;
    }
    assert(w[0] == s@[i as int] && w[1] == s@[i + 1] && w[2] == s@[i + 2] && w[3] == s@[i + 3]);
    (s[i] == 't' || s[i] == 'T') && (s[i + 1] == 'r' || s[i + 1] == 'R') && (s[i + 2] == 'u'
        || s[i + 2] == 'U') && (s[i + 3] == 'e' || s[i + 3] == 'E')
}

/// Whether `s[i..e]` is the word `false`, in any mix of cases.
fn false_word(s: &Vec<char>, i: usize, e: usize) -> (r: bool)
    requires
        i <= e <= s.len(),
    ensures
        r == is_false_word(s@.subrange(i as int, e as int)),
{
    let ghost w = s@.subrange(i as int, e as int);
    if e - i != 5 {
        return false;
    }
    assert(w[0] == s@[i as int] && w[1] == s@[i + 1] && w[2] == s@[i + 2] && w[3] == s@[i + 3]
        && w[4] == s@[i + 4]);
    (s[i] == 'f' || s[i] == 'F') && (s[i + 1] == 'a' || s[i + 1] == 'A') && (s[i + 2] == 'l'
        || s[i + 2] == 'L') && (s[i + 3] == 's' || s[i + 3] == 'S') && (s[i + 4] == 'e' || s[i
        + 4] == 'E')
}

/// The 64-bit integer with the bits of `n`.
fn bits64(n: u64) -> (v: i64)
    ensures
        v == signed64(n as nat),
{
    if n >= 0x8000_0000_0000_0000 {
        ((n - 0x8000_0000_0000_0000) as i64) + i64::MIN
    } else {
        n as i64
    }
}

/// The 32-bit integer with the bits of `n`.
fn bits32(n: u64) -> (v: i32)
    requires
        n <= u32::MAX,
    ensures
        v == signed32(n as nat),
{
    if n >= 0x8000_0000 {
        (n as i64 - 0x1_0000_0000) as i32
    } else {
        n as i32
    }
}

/// The digits `s[a..b]` are all of `class`.
proof fn lemma_run_all_in(s: Seq<char>, a: int, class: CharClass)
    requires
        0 <= a <= s.len(),
    ensures
        all_in(s.subrange(a, run_end(s, a, class)), class),
{
    lemma_run_end_bounds(s, a, class);
    let b = run_end(s, a, class);
    let t = s.subrange(a, b);
    assert forall|k: int| 0 <= k < t.len() implies class.holds(#[trigger] t[k]) by {
        assert(t[k] == s[a + k]);
    }
}

/// Reads the number that starts at `i`.
pub fn read_number(s: &Vec<char>, i: usize) -> (r: Option<(Value, Format, usize)>)
    requires
        i <= s.len(),
    ensures
        match r {
            Some((v, f, e)) => {
                &&& parse_number(s@, i as int) matches Some(tok)
                &&& tok.value == v@
                &&& tok.format == f
                &&& tok.end == e
                &&& i < e <= s.len()
                &&& v@.wf()
                &&& f == Format::Hex ==> v@.is_integer()
            },
            None => parse_number(s@, i as int) is None,
        },
{
    if s.len() - i > 2 && s[i] == '0' && (s[i + 1] == 'x' || s[i + 1] == 'X') && hex_digit(
        s[i + 2],
    ) {
        let e = scan_run(s, i + 2, CharClass::HexDigit);
        proof {
            lemma_run_all_in(s@, i + 2, CharClass::HexDigit);
        }
        let long = e < s.len() && s[e] == 'L';
        match read_nat(s, i + 2, e, 16) {
            None => None,
            Some(n) => {
                if long {
                    Some((Value::Int64(bits64(n)), Format::Hex, e + 1))
                } else if n <= 0xFFFF_FFFF {
                    Some((Value::Int32(bits32(n)), Format::Hex, e))
                } else {
                    Some((Value::Int64(bits64(n)), Format::Hex, e))
                }
            },
        }
    } else {
        match scan_float(s, i) {
            Some(e) => {
                proof {
                    lemma_float_slice(s@, i as int);
                }
                match Float::from_slice(s, i, e) {
                    Some(f) => Some((Value::Float64(f), Format::Decimal, e)),
                    None => None,
                }
            },
            None => {
                let a = scan_sign(s, i);
                let b = scan_run(s, a, CharClass::Digit);
                if b <= a {
                    return None;
                }
                proof {
                    lemma_run_all_in(s@, a as int, CharClass::Digit);
                }
                let negative = a > i && s[i] == '-';
                let long = b < s.len() && s[b] == 'L';
                let end = if long {
                    b + 1
                } else {
                    b
                };
                match read_nat(s, a, b, 10) {
                    None => None,
                    Some(n) => {
                        let v: i64 = if negative {
                            if n > 0x8000_0000_0000_0000 {
                                return None;
                            } else if n == 0x8000_0000_0000_0000 {
                                i64::MIN
                            } else {
                                -(n as i64)
                            }
                        } else {
                            if n > 0x7FFF_FFFF_FFFF_FFFF {
                                return None;
                            } else {
                                n as i64
                            }
                        };
                        if !long && v >= -0x8000_0000 && v <= 0x7FFF_FFFF {
                            Some((Value::Int32(v as i32), Format::Decimal, end))
                        } else {
                            Some((Value::Int64(v), Format::Decimal, end))
                        }
                    },
                }
            },
        }
    }
}

/// Reads the scalar that starts at `i`.
pub fn read_scalar(s: &Vec<char>, i: usize) -> (r: Option<(Value, Format, usize)>)
    requires
        i <= s.len(),
    ensures
        match r {
            Some((v, f, e)) => {
                &&& parse_scalar(s@, i as int) matches Some(tok)
                &&& tok.value == v@
                &&& tok.format == f
                &&& tok.end == e
                &&& i < e <= s.len()
                &&& v@.wf()
                &&& f == Format::Hex ==> v@.is_integer()
            },
            None => parse_scalar(s@, i as int) is None,
        },
{
    if i >= s.len() {
        return None;
    }
    let c = s[i];
    if c == '"' {
        match read_string(s, i + 1) {
            Some((t, e)) => Some((Value::Str(t), Format::Decimal, e)),
            None => None,
        }
    } else if name_start(c) {
        let e = scan_run(s, i, CharClass::NameChar);
        proof {
            lemma_run_end_bounds(s@, i as int, CharClass::NameChar);
        }
        if true_word(s, i, e) {
            Some((Value::Bool(true), Format::Decimal, e))
        } else if false_word(s, i, e) {
            Some((Value::Bool(false), Format::Decimal, e))
        } else {
            None
        }
    } else {
        read_number(s, i)
    }
}

/// A place in a text together with the number of its line, so that the
/// lines of later places can be counted on from it.
pub struct Cursor {
    pub pos: usize,
    pub line: usize,
}

impl Cursor {
    /// The cursor holds the line of its place in `s`.
    pub open spec fn tracks(self, s: Seq<char>) -> bool {
        self.pos <= s.len() && self.line == clip(line_of(s, self.pos as int))
    }

    /// The cursor at the start of a text.
    pub fn start() -> (c: Cursor)
        ensures
            c.pos == 0,
            c.line == 1,
            forall|s: Seq<char>| c.tracks(s),
    {
        Cursor { pos: 0, line: 1 }
    }

    /// Moves on to `to` and returns the number of its line, counted from
    /// one; the largest number there is, where the count does not fit.
    pub fn advance(&mut self, s: &Vec<char>, to: usize) -> (line: usize)
        requires
            old(self).tracks(s@),
            old(self).pos <= to <= s.len(),
        ensures
            final(self).tracks(s@),
            final(self).pos == to,
            line == clip(line_of(s@, to as int)),
    {
        let mut n: usize = self.line;
        let mut k: usize = self.pos;
        while k < to
            invariant
                k <= to <= s.len(),
                n == clip(line_of(s@, k as int)),
            decreases to - k,
        {
            if s[k] == '\n' && n < usize::MAX {
                n += 1;
            }
            k += 1;
        }
        self.pos = to;
        self.line = n;
        n
    }
}

/// The number of the line that position `p` is on, counted from one; the
/// largest number there is, where the count does not fit.
pub fn line_number(s: &Vec<char>, p: usize) -> (n: usize)
    requires
        p <= s.len(),
    ensures
        n == clip(line_of(s@, p as int)),
{
    let mut c = Cursor::start();
    c.advance(s, p)
}

} // verus!
