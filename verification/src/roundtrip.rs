//! Why a document that is written out reads back as itself.

use vstd::prelude::*;
use crate::chars::{
    is_blank, is_digit, is_hex_digit, is_name_start, lemma_run_end, lemma_run_end_bounds,
    lemma_run_end_window, run_end, CharClass,
};
use crate::model::{root_wf, siblings_wf, tree_wf, value_wf, Content, Tree};
use crate::number::{
    digit_char, digit_value, exponent_end, float_end, is_float_literal, lemma_render_nat,
    render_nat, sign_end,
};
use crate::syntax::{
    escape, escape_char, has_name, hex_starts, in_hex, indent, nameless, parse_document,
    parse_elements, parse_number, parse_scalar, parse_settings, parse_string, parse_value,
    render_document, render_elements, render_int, render_member, render_members, render_scalar,
    render_value, signed32, signed64, skip_blank, unsigned32, unsigned64, Token,
};
use crate::value::{Format, ValueView};

verus! {

/// The text `s` holds `r` from position `i` on.
pub open spec fn at(s: Seq<char>, i: int, r: Seq<char>) -> bool {
    &&& 0 <= i
    &&& i + r.len() <= s.len()
    &&& forall|k: int| 0 <= k < r.len() ==> s[i + k] == #[trigger] r[k]
}

/// A character that ends any scalar before it.
pub open spec fn is_stop(c: char) -> bool {
    c == ';' || c == ',' || c == ' '
}

/// A character that may open a value as it is written out: it is no blank
/// space, opens no comment and closes nothing.
pub open spec fn opens_value(c: char) -> bool {
    &&& !is_blank(c)
    &&& c != '#'
    &&& c != '/'
    &&& c != '}'
    &&& c != ']'
    &&& c != ')'
}

/// A text that holds two parts one after the other holds each of them.
pub proof fn lemma_at_concat(s: Seq<char>, i: int, a: Seq<char>, b: Seq<char>)
    requires
        at(s, i, a + b),
    ensures
        at(s, i, a),
        at(s, i + a.len(), b),
{
    let r = a + b;
    assert forall|k: int| 0 <= k < a.len() implies s[i + k] == #[trigger] a[k] by {
        assert(r[k] == a[k]);
    }
    assert forall|k: int| 0 <= k < b.len() implies s[i + a.len() + k] == #[trigger] b[k] by {
        assert(r[a.len() + k] == b[k]);
    }
}

/// What a text holds at a position is that stretch of the text.
pub proof fn lemma_at_subrange(s: Seq<char>, i: int, r: Seq<char>)
    requires
        at(s, i, r),
    ensures
        s.subrange(i, i + r.len()) == r,
{
    let t = s.subrange(i, i + r.len());
    assert forall|k: int| 0 <= k < r.len() implies t[k] == r[k] by {
        assert(s[i + k] == r[k]);
    }
    assert(t =~= r);
}

/// Blank space is skipped up to the first character that is neither blank
/// nor the start of a comment.
pub proof fn lemma_skip_blank_run(s: Seq<char>, i: int, j: int)
    requires
        0 <= i <= j <= s.len(),
        forall|k: int| i <= k < j ==> is_blank(#[trigger] s[k]),
        j < s.len() ==> !is_blank(s[j]) && s[j] != '#' && s[j] != '/',
    ensures
        skip_blank(s, i) == j,
    decreases j - i,
{
    if i < j {
        assert(is_blank(s[i]));
        lemma_skip_blank_run(s, i + 1, j);
    }
}

/// The blank space of an indentation is skipped.
pub proof fn lemma_skip_indent(s: Seq<char>, i: int, depth: nat, tab: nat)
    requires
        at(s, i, indent(depth, tab)),
        i + indent(depth, tab).len() < s.len() ==> {
            let c = s[i + indent(depth, tab).len()];
            !is_blank(c) && c != '#' && c != '/'
        },
    ensures
        skip_blank(s, i) == i + indent(depth, tab).len(),
{
    let r = indent(depth, tab);
    assert forall|k: int| i <= k < i + r.len() implies is_blank(#[trigger] s[k]) by {
        assert(s[i + (k - i)] == r[k - i]);
    }
    lemma_skip_blank_run(s, i, i + r.len());
}

/// The digit that is worth `d` is a digit worth `d`.
pub proof fn lemma_digit_char(d: nat)
    requires
        d < 16,
    ensures
        is_hex_digit(digit_char(d)),
        digit_value(digit_char(d)) == d,
        d < 10 ==> is_digit(digit_char(d)),
{
}

/// A decimal integer, written out and followed by a character that is no
/// digit, reads back: as 32 bits where `L` does not follow.
proof fn lemma_decimal(s: Seq<char>, i: int, v: int, long: bool)
    requires
        i64::MIN <= v <= i64::MAX,
        !long ==> i32::MIN <= v <= i32::MAX,
        at(s, i, render_int(v)),
        i + render_int(v).len() < s.len(),
        long ==> s[i + render_int(v).len()] == 'L',
        !long ==> is_stop(s[i + render_int(v).len()]),
    ensures
        parse_number(s, i) == Some(
            Token {
                value: if long {
                    ValueView::Int64(v as i64)
                } else {
                    ValueView::Int32(v as i32)
                },
                format: Format::Decimal,
                end: i + render_int(v).len() + if long {
                    1int
                } else {
                    0int
                },
            },
        ),
        opens_value(s[i]),
        s[i] != '{' && s[i] != '[' && s[i] != '(' && s[i] != '"' && !is_name_start(s[i]),
{
    let r = render_int(v);
    let n: nat = if v < 0 {
        (-v) as nat
    } else {
        v as nat
    };
    let digits = render_nat(n, 10);
    lemma_render_nat(n, 10);
    let a = if v < 0 {
        i + 1
    } else {
        i
    };
    let b = i + r.len();
    if v < 0 {
        lemma_at_concat(s, i, seq!['-'], digits);
        assert(seq!['-'][0] == '-');
        assert(s[i + 0] == '-');
    }
    assert(at(s, a, digits));
    assert(b == a + digits.len());
    assert forall|k: int| a <= k < b implies CharClass::Digit.holds(#[trigger] s[k]) by {
        assert(s[a + (k - a)] == digits[k - a]);
        assert(CharClass::Digit.holds(digits[k - a]));
    }
    assert(is_digit(s[a]));
    assert(sign_end(s, i) == a);
    lemma_run_end(s, a, b, CharClass::Digit);
    assert(!hex_starts(s, i)) by {
        if v >= 0 && i + 2 < s.len() {
            if 1 < digits.len() {
                assert(is_digit(s[i + 1]));
            }
        }
    }
    assert(exponent_end(s, b) == b);
    assert(float_end(s, i) is None);
    lemma_at_subrange(s, a, digits);
}

/// A hexadecimal integer, written out by its bits and followed by a
/// character that is no digit, reads back.
proof fn lemma_hex(s: Seq<char>, i: int, n: nat, long: bool)
    requires
        n <= u64::MAX,
        !long ==> n <= u32::MAX,
        at(s, i, seq!['0', 'x'] + render_nat(n, 16)),
        i + 2 + render_nat(n, 16).len() < s.len(),
        long ==> s[i + 2 + render_nat(n, 16).len()] == 'L',
        !long ==> is_stop(s[i + 2 + render_nat(n, 16).len()]),
    ensures
        parse_number(s, i) == Some(
            Token {
                value: if long {
                    ValueView::Int64(signed64(n))
                } else {
                    ValueView::Int32(signed32(n))
                },
                format: Format::Hex,
                end: i + 2 + render_nat(n, 16).len() + if long {
                    1int
                } else {
                    0int
                },
            },
        ),
        s[i] == '0',
{
    let digits = render_nat(n, 16);
    lemma_render_nat(n, 16);
    let head = seq!['0', 'x'];
    lemma_at_concat(s, i, head, digits);
    assert(head[0] == '0' && head[1] == 'x');
    assert(s[i + 0] == '0' && s[i + 1] == 'x');
    let a = i + 2;
    let b = a + digits.len();
    assert forall|k: int| a <= k < b implies CharClass::HexDigit.holds(#[trigger] s[k]) by {
        assert(s[a + (k - a)] == digits[k - a]);
        assert(CharClass::HexDigit.holds(digits[k - a]));
    }
    assert(is_hex_digit(s[a]));
    lemma_run_end(s, a, b, CharClass::HexDigit);
    lemma_at_subrange(s, a, digits);
}

/// A run of `class` that fills a window of the text up to its end, with
/// a character outside the class after the window, ends with the window.
proof fn lemma_run_from_window(s: Seq<char>, i: int, e: int, a: int, class: CharClass)
    requires
        0 <= i <= a <= e <= s.len(),
        e < s.len() ==> !class.holds(s[e]),
    ensures
        run_end(s, a, class) == run_end(s.subrange(i, e), a - i, class) + i,
{
    lemma_run_end_window(s, i, e, a, class);
    lemma_run_end_bounds(s, a, class);
    if run_end(s, a, class) > e {
        assert(class.holds(s[e]));
    }
}

/// A floating-point literal, followed by a character that ends it, reads
/// back as itself.
proof fn lemma_float(s: Seq<char>, i: int, t: Seq<char>)
    requires
        is_float_literal(t),
        at(s, i, t),
        i + t.len() < s.len(),
        is_stop(s[i + t.len()]),
    ensures
        parse_number(s, i) == Some(
            Token { value: ValueView::Float64(t), format: Format::Decimal, end: i + t.len() },
        ),
        opens_value(s[i]),
        s[i] != '{' && s[i] != '[' && s[i] != '(' && s[i] != '"' && !is_name_start(s[i]),
{
    let e = i + t.len();
    lemma_at_subrange(s, i, t);
    assert(s.subrange(i, e) == t);
    let ta = sign_end(t, 0);
    lemma_run_end_bounds(t, ta, CharClass::Digit);
    let tb = run_end(t, ta, CharClass::Digit);
    assert(t.len() > 0);
    assert(s[i + 0] == t[0]);
    assert(sign_end(s, i) == ta + i);
    lemma_run_from_window(s, i, e, ta + i, CharClass::Digit);
    assert(run_end(s, ta + i, CharClass::Digit) == tb + i);
    if tb < t.len() {
        assert(s[i + tb] == t[tb]);
    }
    if tb < t.len() && t[tb] == '.' {
        lemma_run_end_bounds(t, tb + 1, CharClass::Digit);
        let tc = run_end(t, tb + 1, CharClass::Digit);
        lemma_run_from_window(s, i, e, tb + 1 + i, CharClass::Digit);
        lemma_exponent_from_window(s, i, e, tc + i);
    } else {
        lemma_exponent_from_window(s, i, e, tb + i);
    }
    assert(float_end(s, i) == Some(e));
    assert(!hex_starts(s, i)) by {
        if t.len() >= 2 && t[0] == '0' && (t[1] == 'x' || t[1] == 'X') {
            assert(ta == 0);
            assert(is_digit(t[0]));
            assert(run_end(t, 1, CharClass::Digit) == 1);
            assert(tb == 1);
        }
        if i + 1 < e {
            assert(s[i + 1] == t[1]);
        }
    }
    assert(opens_value(s[i]) && !is_name_start(s[i]) && s[i] != '"' && s[i] != '{' && s[i] != '['
        && s[i] != '(') by {
        if ta == 0 {
            if tb == 0 {
                assert(t[0] == '.');
            } else {
                assert(is_digit(t[0]));
            }
        }
    }
}

/// An exponent seen through a window of the text that is followed by a
/// character that ends it is the exponent in the text.
proof fn lemma_exponent_from_window(s: Seq<char>, i: int, e: int, c: int)
    requires
        0 <= i <= c <= e < s.len(),
        is_stop(s[e]),
    ensures
        exponent_end(s, c) == exponent_end(s.subrange(i, e), c - i) + i,
{
    let t = s.subrange(i, e);
    if c < e {
        assert(t[c - i] == s[c]);
        if s[c] == 'e' || s[c] == 'E' {
            if c + 1 < e {
                assert(t[c + 1 - i] == s[c + 1]);
            }
            let a = sign_end(s, c + 1);
            assert(sign_end(t, c + 1 - i) == a - i);
            lemma_run_from_window(s, i, e, a, CharClass::Digit);
        }
    }
}

/// One character of a string, written out between the quotes, reads back
/// as itself.
proof fn lemma_string_char(s: Seq<char>, i: int, c: char, acc: Seq<char>)
    requires
        at(s, i, escape_char(c)),
    ensures
        parse_string(s, i, acc) == parse_string(s, i + escape_char(c).len(), acc.push(c)),
{
    let r = escape_char(c);
    assert(s[i + 0] == r[0]);
    if r.len() > 1 {
        assert(s[i + 1] == r[1]);
    }
    if c == '"' || c == '\\' || c == '\n' || c == '\r' || c == '\t' || c == '\x0c' {
    } else if (c as u32) < 0x20 {
        let hi = (c as u32 / 16) as nat;
        let lo = (c as u32 % 16) as nat;
        assert(s[i + 2] == r[2]);
        assert(s[i + 3] == r[3]);
        lemma_digit_char(hi);
        lemma_digit_char(lo);
        assert((hi * 16 + lo) as u8 as char == c);
    } else {
    }
}

/// The characters of a string, written out between the quotes and
/// followed by the closing quote, read back as themselves.
proof fn lemma_string(s: Seq<char>, i: int, t: Seq<char>, from: int, acc: Seq<char>)
    requires
        0 <= from <= t.len(),
        at(s, i, escape(t, from) + seq!['"']),
        acc == t.subrange(0, from),
    ensures
        parse_string(s, i, acc) == Some((t, i + escape(t, from).len() + 1)),
    decreases t.len() - from,
{
    if from < t.len() {
        let c = t[from];
        let rest = escape(t, from + 1);
        assert(escape(t, from) + seq!['"'] =~= escape_char(c) + (rest + seq!['"']));
        lemma_at_concat(s, i, escape_char(c), rest + seq!['"']);
        lemma_string_char(s, i, c, acc);
        assert(acc.push(c) =~= t.subrange(0, from + 1));
        lemma_string(s, i + escape_char(c).len(), t, from + 1, acc.push(c));
    } else {
        assert(escape(t, from) =~= Seq::<char>::empty());
        assert((escape(t, from) + seq!['"'])[0] == '"');
        assert(s[i + 0] == '"');
        assert(acc =~= t);
    }
}

/// A scalar, written out and followed by a character that ends it, reads
/// back as itself, in the format it was written in.
pub proof fn lemma_scalar(s: Seq<char>, i: int, v: ValueView, hex: bool)
    requires
        v.wf(),
        hex ==> v.is_integer(),
        at(s, i, render_scalar(v, hex)),
        i + render_scalar(v, hex).len() < s.len(),
        is_stop(s[i + render_scalar(v, hex).len()]),
    ensures
        parse_scalar(s, i) == Some(
            Token {
                value: v,
                format: if hex {
                    Format::Hex
                } else {
                    Format::Decimal
                },
                end: i + render_scalar(v, hex).len(),
            },
        ),
        opens_value(s[i]),
        s[i] != '{' && s[i] != '[' && s[i] != '(',
        render_scalar(v, hex).len() > 0,
{
    let r = render_scalar(v, hex);
    match v {
        ValueView::Int32(x) => {
            if hex {
                lemma_hex(s, i, unsigned32(x), false);
            } else {
                lemma_decimal(s, i, x as int, false);
            }
        },
        ValueView::Int64(x) => {
            if hex {
                let body = seq!['0', 'x'] + render_nat(unsigned64(x), 16);
                lemma_at_concat(s, i, body, seq!['L']);
                assert(seq!['L'][0] == 'L');
                assert(s[i + body.len() + 0] == 'L');
                lemma_hex(s, i, unsigned64(x), true);
            } else {
                let body = render_int(x as int);
                lemma_at_concat(s, i, body, seq!['L']);
                assert(seq!['L'][0] == 'L');
                assert(s[i + body.len() + 0] == 'L');
                lemma_decimal(s, i, x as int, true);
            }
        },
        ValueView::Float64(t) => {
            lemma_float(s, i, t);
        },
        ValueView::Bool(b) => {
            let e = i + r.len();
            assert forall|k: int| i <= k < e implies CharClass::NameChar.holds(#[trigger] s[k]) by {
                assert(s[i + (k - i)] == r[k - i]);
            }
            assert(s[i + 0] == r[0]);
            lemma_run_end(s, i, e, CharClass::NameChar);
            lemma_at_subrange(s, i, r);
        },
        ValueView::Str(t) => {
            let body = escape(t, 0) + seq!['"'];
            assert(r =~= seq!['"'] + body);
            lemma_at_concat(s, i, seq!['"'], body);
            assert(seq!['"'][0] == '"');
            assert(s[i + 0] == '"');
            assert(t.subrange(0, 0) =~= Seq::<char>::empty());
            lemma_string(s, i + 1, t, 0, Seq::empty());
        },
    }
}

/// The tree as it reads back after it was written out with the default
/// format `f`: an integer that was written in hexadecimal says so itself.
pub open spec fn settle(t: Tree, f: Format) -> Tree
    decreases t,
{
    Tree {
        name: t.name,
        content: t.content,
        format: if in_hex(t, f) {
            Format::Hex
        } else {
            t.format
        },
        children: Seq::new(
            t.children.len(),
            |k: int|
                if 0 <= k < t.children.len() {
                    settle(t.children[k], f)
                } else {
                    arbitrary()
                },
        ),
    }
}

/// Each of `ts` as it reads back.
pub open spec fn settle_all(ts: Seq<Tree>, f: Format) -> Seq<Tree> {
    Seq::new(ts.len(), |k: int| settle(ts[k], f))
}

/// The children of a tree as it reads back are its children as they read
/// back.
pub proof fn lemma_settle_children(t: Tree, f: Format)
    ensures
        settle(t, f).children == settle_all(t.children, f),
{
    assert(settle(t, f).children =~= settle_all(t.children, f));
}

/// Written out with decimal as the default format, a well-formed tree
/// reads back unchanged.
pub proof fn lemma_settle_decimal(t: Tree)
    requires
        value_wf(t),
    ensures
        settle(t, Format::Decimal) == t,
    decreases t,
{
    assert forall|k: int| 0 <= k < t.children.len() implies settle(
        #[trigger] t.children[k],
        Format::Decimal,
    ) == t.children[k] by {
        assert(tree_wf(t.children[k], t.content));
        lemma_settle_decimal(t.children[k]);
    }
    assert(settle(t, Format::Decimal).children =~= t.children);
}

/// Reading settings starts after the blank space before them.
proof fn lemma_settings_shift(s: Seq<char>, i: int, acc: Seq<Tree>, nested: bool)
    requires
        0 <= i < s.len(),
        is_blank(s[i]),
    ensures
        parse_settings(s, i, acc, nested) == parse_settings(s, i + 1, acc, nested),
{
}

/// A value, written out and followed by a character that ends it, reads
/// back as itself, without a name.
proof fn lemma_value_rt(s: Seq<char>, i: int, t: Tree, depth: nat, tab: nat, f: Format)
    requires
        value_wf(t),
        at(s, i, render_value(t, depth, tab, f)),
        i + render_value(t, depth, tab, f).len() < s.len(),
        is_stop(s[i + render_value(t, depth, tab, f).len()]),
    ensures
        parse_value(s, i) == Ok::<(Tree, int), int>(
            (Tree { name: None, ..settle(t, f) }, i + render_value(t, depth, tab, f).len()),
        ),
        opens_value(s[i]),
        render_value(t, depth, tab, f).len() > 0,
    decreases t, 0nat,
{
    let r = render_value(t, depth, tab, f);
    lemma_settle_children(t, f);
    match t.content {
        Content::Scalar(v) => {
            lemma_scalar(s, i, v, in_hex(t, f));
            assert(settle(t, f).children =~= Seq::<Tree>::empty());
        },
        Content::Group => {
            let members = render_members(t.children, 0, depth + 1, tab, f);
            let ind = indent(depth, tab);
            let open = seq!['{', '\n'];
            let close = seq!['}'];
            assert(r == open + members + ind + close);
            lemma_at_concat(s, i, open + members + ind, close);
            lemma_at_concat(s, i, open + members, ind);
            lemma_at_concat(s, i, open, members);
            assert(open[0] == '{' && open[1] == '\n');
            assert(s[i + 0] == '{' && s[i + 1] == '\n');
            let q = i + 2 + members.len();
            assert(close[0] == '}');
            assert(s[q + ind.len() + 0] == '}');
            lemma_settings_shift(s, i + 1, Seq::empty(), true);
            assert(settle_all(t.children, f).subrange(0, 0) =~= Seq::<Tree>::empty());
            lemma_members_rt(s, i + 2, t.children, 0, depth + 1, tab, f, true);
            lemma_skip_indent(s, q, depth, tab);
        },
        Content::Array => {
            let elements = render_elements(t.children, 0, depth, tab, f);
            let open = seq!['['];
            let close = seq![' ', ']'];
            assert(r == open + elements + close);
            assert(r =~= open + (elements + close));
            lemma_at_concat(s, i, open, elements + close);
            assert(open[0] == '[');
            assert(s[i + 0] == '[');
            assert(settle_all(t.children, f).subrange(0, 0) =~= Seq::<Tree>::empty());
            lemma_elements_rt(s, i + 1, t.children, 0, depth, tab, f, true);
        },
        Content::List => {
            let elements = render_elements(t.children, 0, depth, tab, f);
            let open = seq!['('];
            let close = seq![' ', ')'];
            assert(r == open + elements + close);
            assert(r =~= open + (elements + close));
            lemma_at_concat(s, i, open, elements + close);
            assert(open[0] == '(');
            assert(s[i + 0] == '(');
            assert(settle_all(t.children, f).subrange(0, 0) =~= Seq::<Tree>::empty());
            lemma_elements_rt(s, i + 1, t.children, 0, depth, tab, f, false);
        },
    }
}

/// The members of a group from `from` on, written out, read back as
/// themselves after the members before them.
proof fn lemma_members_rt(
    s: Seq<char>,
    i: int,
    ts: Seq<Tree>,
    from: int,
    depth: nat,
    tab: nat,
    f: Format,
    nested: bool,
)
    requires
        0 <= from <= ts.len(),
        at(s, i, render_members(ts, from, depth, tab, f)),
        siblings_wf(ts, Content::Group),
        forall|k: int| 0 <= k < ts.len() ==> tree_wf(#[trigger] ts[k], Content::Group),
    ensures
        parse_settings(s, i, settle_all(ts, f).subrange(0, from), nested) == parse_settings(
            s,
            i + render_members(ts, from, depth, tab, f).len(),
            settle_all(ts, f),
            nested,
        ),
    decreases ts, ts.len() - from,
{
    let all = settle_all(ts, f);
    let acc = all.subrange(0, from);
    if from >= ts.len() {
        assert(acc =~= all);
        assert(render_members(ts, from, depth, tab, f) =~= Seq::<char>::empty());
    } else {
        let t = ts[from];
        assert(tree_wf(t, Content::Group));
        let name = t.name.unwrap();
        let ind = indent(depth, tab);
        let sep = if t.content is Group {
            seq![' ', ':', ' ']
        } else {
            seq![' ', '=', ' ']
        };
        let value = render_value(t, depth, tab, f);
        let end = seq![';', '\n'];
        let member = render_member(t, depth, tab, f);
        let rest = render_members(ts, from + 1, depth, tab, f);
        assert(member == ind + name + sep + value + end);
        lemma_at_concat(s, i, member, rest);
        lemma_at_concat(s, i, ind + name + sep + value, end);
        lemma_at_concat(s, i, ind + name + sep, value);
        lemma_at_concat(s, i, ind + name, sep);
        lemma_at_concat(s, i, ind, name);
        let j = i + ind.len();
        let e = j + name.len();
        let v = e + 3;
        let m = v + value.len();
        assert(sep[0] == ' ' && sep[2] == ' ' && (sep[1] == ':' || sep[1] == '='));
        assert(s[e + 0] == sep[0] && s[e + 1] == sep[1] && s[e + 2] == sep[2]);
        assert(end[0] == ';' && end[1] == '\n');
        assert(s[m + 0] == ';' && s[m + 1] == '\n');
        assert(s[j + 0] == name[0]);
        lemma_skip_indent(s, i, depth, tab);
        assert forall|k: int| j <= k < e implies CharClass::NameChar.holds(#[trigger] s[k]) by {
            assert(s[j + (k - j)] == name[k - j]);
        }
        lemma_run_end(s, j, e, CharClass::NameChar);
        lemma_at_subrange(s, j, name);
        assert(!has_name(acc, name)) by {
            assert forall|k: int| 0 <= k < acc.len() implies (#[trigger] acc[k]).name != Some(
                name,
            ) by {
                assert(acc[k] == settle(ts[k], f));
                assert(ts[k].name != ts[from].name);
            }
        }
        lemma_skip_blank_run(s, e, e + 1);
        lemma_value_rt(s, v, t, depth, tab, f);
        lemma_skip_blank_run(s, e + 2, v);
        lemma_skip_blank_run(s, m, m);
        let read = Tree { name: None, ..settle(t, f) };
        assert(Tree { name: Some(name), ..read } == settle(t, f));
        assert(acc.push(settle(t, f)) =~= all.subrange(0, from + 1));
        assert(parse_settings(s, i, acc, nested) == parse_settings(
            s,
            m + 1,
            all.subrange(0, from + 1),
            nested,
        ));
        lemma_settings_shift(s, m + 1, all.subrange(0, from + 1), nested);
        lemma_members_rt(s, m + 2, ts, from + 1, depth, tab, f, nested);
    }
}

/// The elements of an array or a list from `from` on, written out and
/// followed by the closing bracket, read back as themselves after the
/// elements before them.
proof fn lemma_elements_rt(
    s: Seq<char>,
    i: int,
    ts: Seq<Tree>,
    from: int,
    depth: nat,
    tab: nat,
    f: Format,
    array: bool,
)
    requires
        0 <= from <= ts.len(),
        from == ts.len() ==> ts.len() == 0,
        at(
            s,
            i,
            render_elements(ts, from, depth, tab, f) + seq![
                ' ',
                if array {
                    ']'
                } else {
                    ')'
                },
            ],
        ),
        siblings_wf(
            ts,
            if array {
                Content::Array
            } else {
                Content::List
            },
        ),
        forall|k: int|
            0 <= k < ts.len() ==> tree_wf(
                #[trigger] ts[k],
                if array {
                    Content::Array
                } else {
                    Content::List
                },
            ),
    ensures
        parse_elements(s, i, settle_all(ts, f).subrange(0, from), array) == Ok::<
            (Seq<Tree>, int),
            int,
        >((settle_all(ts, f), i + render_elements(ts, from, depth, tab, f).len() + 2)),
    decreases ts, ts.len() - from,
{
    let close = if array {
        ']'
    } else {
        ')'
    };
    let parent = if array {
        Content::Array
    } else {
        Content::List
    };
    let tail = seq![' ', close];
    let all = settle_all(ts, f);
    let acc = all.subrange(0, from);
    let elements = render_elements(ts, from, depth, tab, f);
    lemma_at_concat(s, i, elements, tail);
    assert(tail[0] == ' ' && tail[1] == close);
    if from >= ts.len() {
        assert(elements =~= Seq::<char>::empty());
        assert(s[i + 0] == ' ' && s[i + 1] == close);
        lemma_skip_blank_run(s, i, i + 1);
        assert(acc =~= all);
    } else {
        let t = ts[from];
        assert(tree_wf(t, parent));
        let value = render_value(t, depth, tab, f);
        let comma = if from + 1 < ts.len() {
            seq![',']
        } else {
            Seq::<char>::empty()
        };
        let rest = render_elements(ts, from + 1, depth, tab, f);
        assert(elements == seq![' '] + value + comma + rest);
        lemma_at_concat(s, i, seq![' '] + value + comma, rest);
        lemma_at_concat(s, i, seq![' '] + value, comma);
        lemma_at_concat(s, i, seq![' '], value);
        assert(seq![' '][0] == ' ');
        assert(s[i + 0] == ' ');
        let j = i + 1;
        let m = j + value.len();
        if from + 1 < ts.len() {
            assert(comma[0] == ',');
            assert(s[m + 0] == ',');
        } else {
            assert(rest =~= Seq::<char>::empty());
            assert(s[i + elements.len() + 0] == ' ');
            assert(s[i + elements.len() + 1] == close);
        }
        lemma_value_rt(s, j, t, depth, tab, f);
        lemma_skip_blank_run(s, i, j);
        let read = Tree { name: None, ..settle(t, f) };
        assert(read == settle(t, f));
        assert(acc.push(read) =~= all.subrange(0, from + 1));
        if array {
            assert(t.content is Scalar);
            if acc.len() > 0 {
                assert(acc[0] == settle(ts[0], f));
                assert(ts[from].content.scalar_kind() == ts[0].content.scalar_kind());
            }
        }
        if from + 1 < ts.len() {
            lemma_skip_blank_run(s, m, m);
            assert(elements + tail =~= (seq![' '] + value + comma) + (rest + tail));
            lemma_at_concat(s, i, seq![' '] + value + comma, rest + tail);
            lemma_elements_rt(s, m + 1, ts, from + 1, depth, tab, f, array);
        } else {
            lemma_skip_blank_run(s, m, m + 1);
            assert(all.subrange(0, from + 1) =~= all);
        }
    }
}

/// A well-formed document, written out and read again, is the document
/// it was: the same settings with the same names, kinds and values in the
/// same order. A format is kept too, but for this: where integers are in
/// hexadecimal by default, each integer reads back as one that says so
/// itself.
pub proof fn lemma_round_trip(t: Tree, tab: nat, f: Format)
    requires
        root_wf(t),
    ensures
        parse_document(render_document(t, tab, f)) == Ok::<Tree, int>(settle(t, f)),
        f == Format::Decimal ==> parse_document(render_document(t, tab, f)) == Ok::<Tree, int>(t),
{
    let s = render_document(t, tab, f);
    assert(at(s, 0, s));
    assert(settle_all(t.children, f).subrange(0, 0) =~= Seq::<Tree>::empty());
    lemma_members_rt(s, 0, t.children, 0, 0, tab, f, false);
    lemma_settle_children(t, f);
    assert(skip_blank(s, s.len() as int) == s.len());
    assert(settle(t, f) == nameless(Content::Group, Format::Decimal, settle_all(t.children, f)));
    if f == Format::Decimal {
        lemma_settle_decimal(t);
    }
}

} // verus!
