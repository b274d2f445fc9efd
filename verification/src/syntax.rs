//! The text form of a document: how a tree is written out, and which tree a
//! text reads as.
//!
//! A document is a run of settings, `name = value;` or `name : value;`. A
//! value is a scalar, a group `{ settings }`, an array `[ scalars ]` of one
//! kind, or a list `( values )`. Blank space and the comments `# ...`,
//! `// ...` and `/* ... */` may stand between tokens.

use vstd::prelude::*;
use crate::chars::{is_blank, is_hex_digit, is_name_start, lemma_run_end_bounds, run_end, CharClass};
use crate::model::{Content, Lines, Tree};
use crate::number::{digit_char, digit_value, digits_value, float_end, render_nat, sign_end};
use crate::value::{Format, ValueView};

verus! {

/// A 32-bit integer as the unsigned number with the same bits.
pub open spec fn unsigned32(x: i32) -> nat {
    if x < 0 {
        (x + 0x1_0000_0000) as nat
    } else {
        x as nat
    }
}

/// A 64-bit integer as the unsigned number with the same bits.
pub open spec fn unsigned64(x: i64) -> nat {
    if x < 0 {
        (x + 0x1_0000_0000_0000_0000) as nat
    } else {
        x as nat
    }
}

/// The 32-bit integer with the bits of `n`.
pub open spec fn signed32(n: nat) -> i32 {
    if n >= 0x8000_0000 {
        (n - 0x1_0000_0000) as i32
    } else {
        n as i32
    }
}

/// The 64-bit integer with the bits of `n`.
pub open spec fn signed64(n: nat) -> i64 {
    if n >= 0x8000_0000_0000_0000 {
        (n - 0x1_0000_0000_0000_0000) as i64
    } else {
        n as i64
    }
}

/// An integer in decimal, with `-` before a negative one.
pub open spec fn render_int(v: int) -> Seq<char> {
    if v < 0 {
        seq!['-'] + render_nat((-v) as nat, 10)
    } else {
        render_nat(v as nat, 10)
    }
}

/// One character of a string as it stands between the quotes.
pub open spec fn escape_char(c: char) -> Seq<char> {
    if c == '"' {
        seq!['\\', '"']
    } else if c == '\\' {
        seq!['\\', '\\']
    } else if c == '\n' {
        seq!['\\', 'n']
    } else if c == '\r' {
        seq!['\\', 'r']
    } else if c == '\t' {
        seq!['\\', 't']
    } else if c == '\x0c' {
        seq!['\\', 'f']
    } else if (c as u32) < 0x20 {
        seq!['\\', 'x', digit_char((c as u32 / 16) as nat), digit_char((c as u32 % 16) as nat)]
    } else {
        seq![c]
    }
}

/// The characters `t[from..]` as they stand between the quotes.
pub open spec fn escape(t: Seq<char>, from: int) -> Seq<char>
    decreases t.len() - from,
{
    if 0 <= from < t.len() {
        escape_char(t[from]) + escape(t, from + 1)
    } else {
        Seq::empty()
    }
}

/// A scalar as it is written out. Integers of 64 bits end in `L`; with
/// `hex` an integer is written in hexadecimal, by its bits.
pub open spec fn render_scalar(v: ValueView, hex: bool) -> Seq<char> {
    match v {
        ValueView::Int32(x) => if hex {
            seq!['0', 'x'] + render_nat(unsigned32(x), 16)
        } else {
            render_int(x as int)
        },
        ValueView::Int64(x) => if hex {
            seq!['0', 'x'] + render_nat(unsigned64(x), 16) + seq!['L']
        } else {
            render_int(x as int) + seq!['L']
        },
        ValueView::Float64(t) => t,
        ValueView::Bool(b) => if b {
            seq!['t', 'r', 'u', 'e']
        } else {
            seq!['f', 'a', 'l', 's', 'e']
        },
        ValueView::Str(t) => seq!['"'] + escape(t, 0) + seq!['"'],
    }
}

/// `n` copies of `c`.
pub open spec fn repeat(c: char, n: nat) -> Seq<char> {
    Seq::new(n, |i: int| c)
}

/// The blank space before a line at nesting depth `depth`: `tab` spaces
/// for each level, or one tab each where `tab` is zero.
pub open spec fn indent(depth: nat, tab: nat) -> Seq<char> {
    if tab == 0 {
        repeat('\t', depth)
    } else {
        repeat(' ', depth * tab)
    }
}

/// Whether the integer scalar is written in hexadecimal: when it says so
/// itself, or the document does by default.
pub open spec fn in_hex(t: Tree, default_format: Format) -> bool {
    t.content matches Content::Scalar(v) && v.is_integer() && (t.format == Format::Hex
        || default_format == Format::Hex)
}

/// A value as it is written out at nesting depth `depth`.
pub open spec fn render_value(t: Tree, depth: nat, tab: nat, default_format: Format) -> Seq<char>
    decreases t, 0nat,
{
    match t.content {
        Content::Scalar(v) => render_scalar(v, in_hex(t, default_format)),
        Content::Group => seq!['{', '\n'] + render_members(
            t.children,
            0,
            depth + 1,
            tab,
            default_format,
        ) + indent(depth, tab) + seq!['}'],
        Content::Array => seq!['['] + render_elements(t.children, 0, depth, tab, default_format)
            + seq![' ', ']'],
        Content::List => seq!['('] + render_elements(t.children, 0, depth, tab, default_format)
            + seq![' ', ')'],
    }
}

/// The members `ts[from..]` of a group, one to a line.
pub open spec fn render_members(
    ts: Seq<Tree>,
    from: int,
    depth: nat,
    tab: nat,
    default_format: Format,
) -> Seq<char>
    decreases ts, ts.len() - from,
{
    if 0 <= from < ts.len() {
        render_member(ts[from], depth, tab, default_format) + render_members(
            ts,
            from + 1,
            depth,
            tab,
            default_format,
        )
    } else {
        Seq::empty()
    }
}

/// One member of a group on its line: the name, `:` for a group and `=`
/// for anything else, the value, and `;`.
pub open spec fn render_member(t: Tree, depth: nat, tab: nat, default_format: Format) -> Seq<char>
    decreases t, 1nat,
{
    indent(depth, tab) + (match t.name {
        Some(n) => n,
        None => Seq::empty(),
    }) + (if t.content is Group {
        seq![' ', ':', ' ']
    } else {
        seq![' ', '=', ' ']
    }) + render_value(t, depth, tab, default_format) + seq![';', '\n']
}

/// The elements `ts[from..]` of an array or a list, each after a space and
/// with a comma between two.
pub open spec fn render_elements(
    ts: Seq<Tree>,
    from: int,
    depth: nat,
    tab: nat,
    default_format: Format,
) -> Seq<char>
    decreases ts, ts.len() - from,
{
    if 0 <= from < ts.len() {
        seq![' '] + render_value(ts[from], depth, tab, default_format) + (if from + 1 < ts.len() {
            seq![',']
        } else {
            Seq::empty()
        }) + render_elements(ts, from + 1, depth, tab, default_format)
    } else {
        Seq::empty()
    }
}

/// A whole document as text: the members of the root, not indented.
pub open spec fn render_document(t: Tree, tab: nat, default_format: Format) -> Seq<char> {
    render_members(t.children, 0, 0, tab, default_format)
}

/// The position of the next line feed at or after `i`, or the end.
pub open spec fn line_end(s: Seq<char>, i: int) -> int
    decreases s.len() - i,
{
    if 0 <= i < s.len() && s[i] != '\n' {
        line_end(s, i + 1)
    } else {
        i
    }
}

/// The position just past the next `*/` at or after `i`, or the end.
pub open spec fn comment_end(s: Seq<char>, i: int) -> int
    decreases s.len() - i,
{
    if 0 <= i && i + 1 < s.len() {
        if s[i] == '*' && s[i + 1] == '/' {
            i + 2
        } else {
            comment_end(s, i + 1)
        }
    } else if 0 <= i < s.len() {
        i + 1
    } else {
        i
    }
}

pub proof fn lemma_line_end(s: Seq<char>, i: int)
    requires
        0 <= i <= s.len(),
    ensures
        i <= line_end(s, i) <= s.len(),
    decreases s.len() - i,
{
    if i < s.len() && s[i] != '\n' {
        lemma_line_end(s, i + 1);
    }
}

pub proof fn lemma_comment_end(s: Seq<char>, i: int)
    requires
        0 <= i <= s.len(),
    ensures
        i <= comment_end(s, i) <= s.len(),
    decreases s.len() - i,
{
    if i + 1 < s.len() && !(s[i] == '*' && s[i + 1] == '/') {
        lemma_comment_end(s, i + 1);
    }
}

/// The position of the first character at or after `i` that is neither
/// blank nor part of a comment.
pub open spec fn skip_blank(s: Seq<char>, i: int) -> int
    decreases s.len() - i,
{
    if i < 0 || i >= s.len() {
        i
    } else if is_blank(s[i]) {
        skip_blank(s, i + 1)
    } else if s[i] == '#' {
        proof {
            lemma_line_end(s, i + 1);
        }
        skip_blank(s, line_end(s, i + 1))
    } else if s[i] == '/' && i + 1 < s.len() && s[i + 1] == '/' {
        proof {
            lemma_line_end(s, i + 2);
        }
        skip_blank(s, line_end(s, i + 2))
    } else if s[i] == '/' && i + 1 < s.len() && s[i + 1] == '*' {
        proof {
            lemma_comment_end(s, i + 2);
        }
        skip_blank(s, comment_end(s, i + 2))
    } else {
        i
    }
}

pub proof fn lemma_skip_blank(s: Seq<char>, i: int)
    requires
        0 <= i <= s.len(),
    ensures
        i <= skip_blank(s, i) <= s.len(),
    decreases s.len() - i,
{
    if i >= s.len() {
    } else if is_blank(s[i]) {
        lemma_skip_blank(s, i + 1);
    } else if s[i] == '#' {
        lemma_line_end(s, i + 1);
        lemma_skip_blank(s, line_end(s, i + 1));
    } else if s[i] == '/' && i + 1 < s.len() && s[i + 1] == '/' {
        lemma_line_end(s, i + 2);
        lemma_skip_blank(s, line_end(s, i + 2));
    } else if s[i] == '/' && i + 1 < s.len() && s[i + 1] == '*' {
        lemma_comment_end(s, i + 2);
        lemma_skip_blank(s, comment_end(s, i + 2));
    }
}

/// The character that a backslash and `c` stand for in a string, for the
/// escapes of one letter.
pub open spec fn unescape(c: char) -> Option<char> {
    if c == '"' {
        Some('"')
    } else if c == '\\' {
        Some('\\')
    } else if c == 'n' {
        Some('\n')
    } else if c == 'r' {
        Some('\r')
    } else if c == 't' {
        Some('\t')
    } else if c == 'f' {
        Some('\x0c')
    } else {
        None
    }
}

/// Reads the inside of a string from `i` up to the closing quote: the
/// characters read after `acc`, and the position past the quote. `None`
/// where the quote is missing or an escape is not one of `\"`, `\\`, `\n`,
/// `\r`, `\t`, `\f` and `\x` with two hexadecimal digits.
pub open spec fn parse_string(s: Seq<char>, i: int, acc: Seq<char>) -> Option<(Seq<char>, int)>
    decreases s.len() - i,
{
    if i < 0 || i >= s.len() {
        None
    } else if s[i] == '"' {
        Some((acc, i + 1))
    } else if s[i] == '\\' {
        if i + 1 >= s.len() {
            None
        } else if s[i + 1] == 'x' {
            if i + 3 < s.len() && is_hex_digit(s[i + 2]) && is_hex_digit(s[i + 3]) {
                parse_string(
                    s,
                    i + 4,
                    acc.push((digit_value(s[i + 2]) * 16 + digit_value(s[i + 3])) as u8 as char),
                )
            } else {
                None
            }
        } else {
            match unescape(s[i + 1]) {
                Some(c) => parse_string(s, i + 2, acc.push(c)),
                None => None,
            }
        }
    } else {
        parse_string(s, i + 1, acc.push(s[i]))
    }
}

/// `w` is the word `true`, in any mix of cases.
pub open spec fn is_true_word(w: Seq<char>) -> bool {
    &&& w.len() == 4
    &&& (w[0] == 't' || w[0] == 'T')
    &&& (w[1] == 'r' || w[1] == 'R')
    &&& (w[2] == 'u' || w[2] == 'U')
    &&& (w[3] == 'e' || w[3] == 'E')
}

/// `w` is the word `false`, in any mix of cases.
pub open spec fn is_false_word(w: Seq<char>) -> bool {
    &&& w.len() == 5
    &&& (w[0] == 'f' || w[0] == 'F')
    &&& (w[1] == 'a' || w[1] == 'A')
    &&& (w[2] == 'l' || w[2] == 'L')
    &&& (w[3] == 's' || w[3] == 'S')
    &&& (w[4] == 'e' || w[4] == 'E')
}

/// A hexadecimal integer starts at `i`: `0x` or `0X` and a digit.
pub open spec fn hex_starts(s: Seq<char>, i: int) -> bool {
    &&& 0 <= i && i + 2 < s.len()
    &&& s[i] == '0'
    &&& (s[i + 1] == 'x' || s[i + 1] == 'X')
    &&& is_hex_digit(s[i + 2])
}

/// A scalar read from the text: its value, how it was written, and where
/// it ends.
pub struct Token {
    pub value: ValueView,
    pub format: Format,
    pub end: int,
}

/// Reads the number that starts at `i`.
///
/// A hexadecimal integer gives the integer with its bits, of 32 bits where
/// they suffice and no `L` follows. Digits with a point or an exponent are
/// a floating-point literal. Plain digits, after an optional sign, are a
/// decimal integer: of 32 bits where it fits and no `L` follows, else of
/// 64. `None` where no number starts at `i` or the integer does not fit in
/// 64 bits.
pub open spec fn parse_number(s: Seq<char>, i: int) -> Option<Token> {
    if hex_starts(s, i) {
        let e = run_end(s, i + 2, CharClass::HexDigit);
        let n = digits_value(s.subrange(i + 2, e), 16);
        let long = e < s.len() && s[e] == 'L';
        if n > u64::MAX {
            None
        } else if long {
            Some(Token { value: ValueView::Int64(signed64(n)), format: Format::Hex, end: e + 1 })
        } else if n <= u32::MAX {
            Some(Token { value: ValueView::Int32(signed32(n)), format: Format::Hex, end: e })
        } else {
            Some(Token { value: ValueView::Int64(signed64(n)), format: Format::Hex, end: e })
        }
    } else {
        match float_end(s, i) {
            Some(e) => Some(
                Token {
                    value: ValueView::Float64(s.subrange(i, e)),
                    format: Format::Decimal,
                    end: e,
                },
            ),
            None => {
                let a = sign_end(s, i);
                let b = run_end(s, a, CharClass::Digit);
                let n = digits_value(s.subrange(a, b), 10);
                let v = if a > i && s[i] == '-' {
                    -(n as int)
                } else {
                    n as int
                };
                let long = b < s.len() && s[b] == 'L';
                if i < 0 || b <= a || v < i64::MIN || v > i64::MAX {
                    None
                } else if long {
                    Some(
                        Token {
                            value: ValueView::Int64(v as i64),
                            format: Format::Decimal,
                            end: b + 1,
                        },
                    )
                } else if i32::MIN <= v <= i32::MAX {
                    Some(
                        Token { value: ValueView::Int32(v as i32), format: Format::Decimal, end: b },
                    )
                } else {
                    Some(
                        Token { value: ValueView::Int64(v as i64), format: Format::Decimal, end: b },
                    )
                }
            },
        }
    }
}

/// Reads the scalar that starts at `i`: a string in double quotes, the
/// words `true` and `false`, or a number.
pub open spec fn parse_scalar(s: Seq<char>, i: int) -> Option<Token> {
    if i < 0 || i >= s.len() {
        None
    } else if s[i] == '"' {
        match parse_string(s, i + 1, Seq::empty()) {
            Some((t, e)) => Some(
                Token { value: ValueView::Str(t), format: Format::Decimal, end: e },
            ),
            None => None,
        }
    } else if is_name_start(s[i]) {
        let e = run_end(s, i, CharClass::NameChar);
        let w = s.subrange(i, e);
        if is_true_word(w) {
            Some(Token { value: ValueView::Bool(true), format: Format::Decimal, end: e })
        } else if is_false_word(w) {
            Some(Token { value: ValueView::Bool(false), format: Format::Decimal, end: e })
        } else {
            None
        }
    } else {
        parse_number(s, i)
    }
}

/// A tree without a name.
pub open spec fn nameless(content: Content, format: Format, children: Seq<Tree>) -> Tree {
    Tree { name: None, content, format, children }
}

/// One of `ts` is called `name`.
pub open spec fn has_name(ts: Seq<Tree>, name: Seq<char>) -> bool {
    exists|k: int| 0 <= k < ts.len() && (#[trigger] ts[k]).name == Some(name)
}

/// Whether `t` may follow the elements `acc` in an array: it is a scalar,
/// of the kind of the first element.
pub open spec fn fits_array(acc: Seq<Tree>, t: Tree) -> bool {
    &&& t.content is Scalar
    &&& acc.len() > 0 ==> acc[0].content.scalar_kind() == t.content.scalar_kind()
}

/// What reading gives: the trees read, in order, and where reading
/// stopped; or the position at which the text went wrong.
pub type Parsed<T> = Result<(T, int), int>;

/// Reads the value that starts at `i`, where `i` is past any blank space.
pub open spec fn parse_value(s: Seq<char>, i: int) -> Parsed<Tree>
    decreases s.len() - i, 0nat,
{
    if i < 0 || i >= s.len() {
        Err(i)
    } else if s[i] == '{' {
        match parse_settings(s, i + 1, Seq::empty(), true) {
            Ok((kids, e)) => Ok((nameless(Content::Group, Format::Decimal, kids), e)),
            Err(p) => Err(p),
        }
    } else if s[i] == '[' {
        match parse_elements(s, i + 1, Seq::empty(), true) {
            Ok((kids, e)) => Ok((nameless(Content::Array, Format::Decimal, kids), e)),
            Err(p) => Err(p),
        }
    } else if s[i] == '(' {
        match parse_elements(s, i + 1, Seq::empty(), false) {
            Ok((kids, e)) => Ok((nameless(Content::List, Format::Decimal, kids), e)),
            Err(p) => Err(p),
        }
    } else {
        match parse_scalar(s, i) {
            Some(tok) => Ok((nameless(Content::Scalar(tok.value), tok.format, Seq::empty()), tok.end)),
            None => Err(i),
        }
    }
}

/// Reads settings from `i` on, after those in `acc`: up to the closing
/// brace where `nested`, else up to the end of the text. A name that was
/// used before in the same run is an error, as is anything that is no
/// setting. The `;` or `,` after a setting may be left out.
pub open spec fn parse_settings(s: Seq<char>, i: int, acc: Seq<Tree>, nested: bool) -> Parsed<
    Seq<Tree>,
>
    decreases s.len() - i, 1nat,
{
    if i < 0 || i > s.len() {
        Err(i)
    } else {
        let j = skip_blank(s, i);
        if j >= s.len() {
            if nested {
                Err(j)
            } else {
                Ok((acc, j))
            }
        } else if s[j] == '}' {
            if nested {
                Ok((acc, j + 1))
            } else {
                Err(j)
            }
        } else if !is_name_start(s[j]) {
            Err(j)
        } else {
            let e = run_end(s, j, CharClass::NameChar);
            let name = s.subrange(j, e);
            let k = skip_blank(s, e);
            if has_name(acc, name) {
                Err(j)
            } else if k >= s.len() || (s[k] != ':' && s[k] != '=') {
                Err(k)
            } else {
                let v = skip_blank(s, k + 1);
                proof {
                    lemma_skip_blank(s, i);
                    lemma_run_end_bounds(s, j, CharClass::NameChar);
                    lemma_skip_blank(s, e);
                    lemma_skip_blank(s, k + 1);
                }
                match parse_value(s, v) {
                    Err(p) => Err(p),
                    Ok((t, m)) => if m <= v || m > s.len() {
                        Err(m)
                    } else {
                        let n = skip_blank(s, m);
                        let next = if n < s.len() && (s[n] == ';' || s[n] == ',') {
                            n + 1
                        } else {
                            n
                        };
                        proof {
                            lemma_skip_blank(s, m);
                        }
                        parse_settings(s, next, acc.push(Tree { name: Some(name), ..t }), nested)
                    },
                }
            }
        }
    }
}

/// Reads the elements of an array (`array`) or a list from `i` on, after
/// those in `acc`, up to the closing bracket. Elements are parted by
/// commas; the elements of an array are scalars of one kind.
pub open spec fn parse_elements(s: Seq<char>, i: int, acc: Seq<Tree>, array: bool) -> Parsed<
    Seq<Tree>,
>
    decreases s.len() - i, 1nat,
{
    let close = if array {
        ']'
    } else {
        ')'
    };
    if i < 0 || i > s.len() {
        Err(i)
    } else {
        let j = skip_blank(s, i);
        if j >= s.len() {
            Err(j)
        } else if s[j] == close {
            Ok((acc, j + 1))
        } else {
            proof {
                lemma_skip_blank(s, i);
            }
            match parse_value(s, j) {
                Err(p) => Err(p),
                Ok((t, m)) => if m <= j || m > s.len() {
                    Err(m)
                } else {
                    let n = skip_blank(s, m);
                    proof {
                        lemma_skip_blank(s, m);
                    }
                    if array && !fits_array(acc, t) {
                        Err(j)
                    } else if n >= s.len() {
                        Err(n)
                    } else if s[n] == close {
                        Ok((acc.push(t), n + 1))
                    } else if s[n] == ',' {
                        parse_elements(s, n + 1, acc.push(t), array)
                    } else {
                        Err(n)
                    }
                },
            }
        }
    }
}

/// The tree that a text reads as: a nameless group of the settings in it.
/// An error holds the position at which the text went wrong.
pub open spec fn parse_document(s: Seq<char>) -> Result<Tree, int> {
    match parse_settings(s, 0, Seq::empty(), false) {
        Ok((kids, _)) => Ok(nameless(Content::Group, Format::Decimal, kids)),
        Err(p) => Err(p),
    }
}

/// The number of the line that position `p` of `s` is on, counted from
/// one.
pub open spec fn line_of(s: Seq<char>, p: int) -> nat
    decreases p,
{
    if p <= 0 {
        1
    } else if p <= s.len() && s[p - 1] == '\n' {
        line_of(s, p - 1) + 1
    } else {
        line_of(s, p - 1)
    }
}

/// Where the settings inside the value that starts at `i` were read from.
/// A scalar has none inside.
pub open spec fn value_lines(s: Seq<char>, i: int) -> Seq<Lines>
    decreases s.len() - i, 0nat,
{
    if i < 0 || i >= s.len() {
        Seq::empty()
    } else if s[i] == '{' {
        settings_lines(s, i + 1, true)
    } else if s[i] == '[' {
        elements_lines(s, i + 1, true)
    } else if s[i] == '(' {
        elements_lines(s, i + 1, false)
    } else {
        Seq::empty()
    }
}

/// Where the settings from `i` on were read from: each on the line on
/// which its name starts.
pub open spec fn settings_lines(s: Seq<char>, i: int, nested: bool) -> Seq<Lines>
    decreases s.len() - i, 1nat,
{
    if i < 0 || i > s.len() {
        Seq::empty()
    } else {
        let j = skip_blank(s, i);
        if j >= s.len() || s[j] == '}' || !is_name_start(s[j]) {
            Seq::empty()
        } else {
            let e = run_end(s, j, CharClass::NameChar);
            let k = skip_blank(s, e);
            if k >= s.len() || (s[k] != ':' && s[k] != '=') {
                Seq::empty()
            } else {
                let v = skip_blank(s, k + 1);
                proof {
                    lemma_skip_blank(s, i);
                    lemma_run_end_bounds(s, j, CharClass::NameChar);
                    lemma_skip_blank(s, e);
                    lemma_skip_blank(s, k + 1);
                }
                match parse_value(s, v) {
                    Err(_) => Seq::empty(),
                    Ok((_, m)) => if m <= v || m > s.len() {
                        Seq::empty()
                    } else {
                        let n = skip_blank(s, m);
                        let next = if n < s.len() && (s[n] == ';' || s[n] == ',') {
                            n + 1
                        } else {
                            n
                        };
                        proof {
                            lemma_skip_blank(s, m);
                        }
                        seq![Lines { line: clip(line_of(s, j)), children: value_lines(s, v) }]
                            + settings_lines(s, next, nested)
                    },
                }
            }
        }
    }
}

/// Where the elements of an array or a list from `i` on were read from:
/// each on the line on which its value starts.
pub open spec fn elements_lines(s: Seq<char>, i: int, array: bool) -> Seq<Lines>
    decreases s.len() - i, 1nat,
{
    let close = if array {
        ']'
    } else {
        ')'
    };
    if i < 0 || i > s.len() {
        Seq::empty()
    } else {
        let j = skip_blank(s, i);
        if j >= s.len() || s[j] == close {
            Seq::empty()
        } else {
            proof {
                lemma_skip_blank(s, i);
            }
            match parse_value(s, j) {
                Err(_) => Seq::empty(),
                Ok((_, m)) => if m <= j || m > s.len() {
                    Seq::empty()
                } else {
                    let n = skip_blank(s, m);
                    proof {
                        lemma_skip_blank(s, m);
                    }
                    seq![Lines { line: clip(line_of(s, j)), children: value_lines(s, j) }] + (if n
                        < s.len() && s[n] == ',' {
                        elements_lines(s, n + 1, array)
                    } else {
                        Seq::empty()
                    })
                },
            }
        }
    }
}

/// Where the settings of a whole text were read from.
pub open spec fn document_lines(s: Seq<char>) -> Seq<Lines> {
    settings_lines(s, 0, false)
}

/// `n` as a machine number, or the largest one where `n` does not fit.
pub open spec fn clip(n: nat) -> usize {
    if n > usize::MAX {
        usize::MAX
    } else {
        n as usize
    }
}

} // verus!
