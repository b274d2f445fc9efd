//! Writing a document out as text.

use vstd::prelude::*;
use crate::chars::{from_chars, to_chars};
use crate::config::{Config, Payload};

use crate::number::{char_of_digit, push_nat};
use crate::syntax::{
    escape, escape_char, in_hex, indent, render_document, render_elements, render_int,
    render_member, render_members, render_scalar, render_value, repeat,
};
use crate::value::{Format, Value};

verus! {

/// Appends `n` copies of `c`.
fn push_repeat(out: &mut Vec<char>, c: char, n: usize)
    ensures
        final(out)@ == old(out)@ + repeat(c, n as nat),
{
    let mut k: usize = 0;
    assert(old(out)@ + repeat(c, 0) =~= old(out)@);
    while k < n
        invariant
            k <= n,
            out@ == old(out)@ + repeat(c, k as nat),
        decreases n - k,
    {
        out.push(c);
        assert(out@ =~= old(out)@ + repeat(c, (k + 1) as nat));
        k += 1;
    }
}

/// Appends the blank space that opens a line at nesting depth `depth`.
fn push_indent(out: &mut Vec<char>, depth: usize, tab: u8)
    ensures
        final(out)@ == old(out)@ + indent(depth as nat, tab as nat),
{
    if tab == 0 {
        push_repeat(out, '\t', depth);
    } else {
        let mut d: usize = 0;
        assert(old(out)@ + repeat(' ', 0) =~= old(out)@);
        while d < depth
            invariant
                d <= depth,
                tab > 0,
                out@ == old(out)@ + repeat(' ', (d * tab) as nat),
            decreases depth - d,
        {
            let ghost before = out@;
            push_repeat(out, ' ', tab as usize);
            proof {
                assert((d + 1) * tab == d * tab + tab) by (nonlinear_arith);
                assert(d * tab >= 0) by (nonlinear_arith)
                    requires
                        d >= 0,
                        tab >= 0,
                ;
                assert(before + repeat(' ', tab as nat) =~= old(out)@ + repeat(
                    ' ',
                    ((d + 1) * tab) as nat,
                ));
            }
            d += 1;
        }
    }
}

/// Appends a copy of `text`.
fn push_all(out: &mut Vec<char>, text: &Vec<char>)
    ensures
        final(out)@ == old(out)@ + text@,
{
    let mut k: usize = 0;
    assert(old(out)@ + text@.subrange(0, 0) =~= old(out)@);
    while k < text.len()
        invariant
            k <= text.len(),
            out@ == old(out)@ + text@.subrange(0, k as int),
        decreases text.len() - k,
    {
        out.push(text[k]);
        assert(out@ =~= old(out)@ + text@.subrange(0, k + 1));
        k += 1;
    }
    assert(text@.subrange(0, text.len() as int) =~= text@);
}

/// Appends one character of a string as it stands between the quotes.
fn push_escaped(out: &mut Vec<char>, c: char)
    ensures
        final(out)@ == old(out)@ + escape_char(c),
{
    if c == '"' {
        out.push('\\');
        out.push('"');
    } else if c == '\\' {
        out.push('\\');
        out.push('\\');
    } else if c == '\n' {
        out.push('\\');
        out.push('n');
    } else if c == '\r' {
        out.push('\\');
        out.push('r');
    } else if c == '\t' {
        out.push('\\');
        out.push('t');
    } else if c == '\x0c' {
        out.push('\\');
        out.push('f');
    } else if (c as u32) < 0x20 {
        let code = c as u32;
        out.push('\\');
        out.push('x');
        out.push(char_of_digit((code / 16) as u8));
        out.push(char_of_digit((code % 16) as u8));
    } else {
        out.push(c);
    }
    assert(out@ =~= old(out)@ + escape_char(c));
}

/// Appends an integer in decimal.
fn push_int(out: &mut Vec<char>, v: i64)
    ensures
        final(out)@ == old(out)@ + render_int(v as int),
{
    if v < 0 {
        out.push('-');
        let magnitude: u64 = ((-(v + 1)) as u64) + 1;
        push_nat(out, magnitude, 10);
        assert(out@ =~= old(out)@ + render_int(v as int));
    } else {
        push_nat(out, v as u64, 10);
    }
}

/// Appends a scalar as it is written out.
pub fn push_scalar(out: &mut Vec<char>, value: &Value, hex: bool)
    ensures
        final(out)@ == old(out)@ + render_scalar(value@, hex),
{
    match value {
        Value::Int32(x) => {
            if hex {
                out.push('0');
                out.push('x');
                let bits: u64 = if *x < 0 {
                    (*x as i64 + 0x1_0000_0000) as u64
                } else {
                    *x as u64
                };
                push_nat(out, bits, 16);
            } else {
                push_int(out, *x as i64);
            }
        },
        Value::Int64(x) => {
            if hex {
                out.push('0');
                out.push('x');
                let bits: u64 = if *x < 0 {
                    ((*x - i64::MIN) as u64) + 0x8000_0000_0000_0000
                } else {
                    *x as u64
                };
                push_nat(out, bits, 16);
            } else {
                push_int(out, *x);
            }
            out.push('L');
        },
        Value::Float64(f) => {
            let text = f.text();
            let chars = to_chars(text.as_str());
            push_all(out, &chars);
        },
        Value::Bool(b) => {
            if *b {
                out.push('t');
                out.push('r');
                out.push('u');
                out.push('e');
            } else {
                out.push('f');
                out.push('a');
                out.push('l');
                out.push('s');
                out.push('e');
            }
        },
        Value::Str(s) => {
            let chars = to_chars(s.as_str());
            out.push('"');
            let ghost start = out@;
            let mut k: usize = 0;
            while k < chars.len()
                invariant
                    k <= chars.len(),
                    start + escape(chars@, 0) == out@ + escape(chars@, k as int),
                decreases chars.len() - k,
            {
                let ghost before = out@;
                push_escaped(out, chars[k]);
                assert(before + escape(chars@, k as int) =~= out@ + escape(chars@, k + 1));
                k += 1;
            }
            assert(out@ + escape(chars@, k as int) =~= out@);
            out.push('"');
        },
    }
    assert(out@ =~= old(out)@ + render_scalar(value@, hex));
}

impl Config {
    /// Appends the value of the setting at `i` as it is written out at
    /// nesting depth `depth`.
    fn push_value(&self, out: &mut Vec<char>, i: usize, depth: usize)
        requires
            self.wf(),
            self@.live(i as int),
            depth <= i,
        ensures
            final(out)@ == old(out)@ + render_value(
                self@.tree_at(i as int),
                depth as nat,
                self@.tab_width as nat,
                self@.default_format,
            ),
        decreases self@.nodes.len() - i, 3nat,
    {
        proof {
            self@.lemma_tree_at(i as int);
        }
        let ghost t = self@.tree_at(i as int);
        match self.payload_at(i) {
            Payload::Scalar(v) => {
                let integer = match v {
                    Value::Int32(_) => true,
                    Value::Int64(_) => true,
                    _ => false,
                };
                let hex = integer && (self.format_at(i) == Format::Hex || self.default_format()
                    == Format::Hex);
                assert(hex == in_hex(t, self@.default_format));
                push_scalar(out, v, hex);
            },
            Payload::Group => {
                out.push('{');
                out.push('\n');
                self.push_members(out, i, depth + 1);
                push_indent(out, depth, self.tab_width() as u8);
                out.push('}');
            },
            Payload::Array => {
                out.push('[');
                self.push_elements(out, i, depth);
                out.push(' ');
                out.push(']');
            },
            Payload::List => {
                out.push('(');
                self.push_elements(out, i, depth);
                out.push(' ');
                out.push(')');
            },
        }
        assert(out@ =~= old(out)@ + render_value(
            t,
            depth as nat,
            self@.tab_width as nat,
            self@.default_format,
        ));
    }

    /// Appends the members of the group at `i`, one to a line, at nesting
    /// depth `depth`.
    fn push_members(&self, out: &mut Vec<char>, i: usize, depth: usize)
        requires
            self.wf(),
            self@.live(i as int),
            depth <= i + 1,
        ensures
            final(out)@ == old(out)@ + render_members(
                self@.tree_at(i as int).children,
                0,
                depth as nat,
                self@.tab_width as nat,
                self@.default_format,
            ),
        decreases self@.nodes.len() - i, 1nat,
    {
        proof {
            self@.lemma_tree_at(i as int);
        }
        let ghost ts = self@.tree_at(i as int).children;
        let ghost tab = self@.tab_width as nat;
        let ghost fmt = self@.default_format;
        let kids = self.children_at(i);
        let mut k: usize = 0;
        while k < kids.len()
            invariant
                self.wf(),
                self@.live(i as int),
                depth <= i + 1,
                kids@ == self@.nodes[i as int].children,
                ts == self@.tree_at(i as int).children,
                ts.len() == kids.len(),
                tab == self@.tab_width as nat,
                fmt == self@.default_format,
                k <= kids.len(),
                old(out)@ + render_members(ts, 0, depth as nat, tab, fmt) == out@ + render_members(
                    ts,
                    k as int,
                    depth as nat,
                    tab,
                    fmt,
                ),
            decreases kids.len() - k,
        {
            let ghost before = out@;
            let c = kids[k];
            proof {
                self@.lemma_tree_at(i as int);
                self@.lemma_tree_at(c as int);
                assert(ts[k as int] == self@.tree_at(c as int));
            }
            push_indent(out, depth, self.tab_width() as u8);
            match self.name_at(c) {
                Some(n) => {
                    let chars = to_chars(n.as_str());
                    push_all(out, &chars);
                },
                None => {},
            }
            out.push(' ');
            match self.payload_at(c) {
                Payload::Group => {
                    out.push(':');
                },
                _ => {
                    out.push('=');
                },
            }
            out.push(' ');
            self.push_value(out, c, depth);
            out.push(';');
            out.push('\n');
            proof {
                assert(out@ =~= before + render_member(ts[k as int], depth as nat, tab, fmt));
                assert(before + render_members(ts, k as int, depth as nat, tab, fmt) =~= out@
                    + render_members(ts, k + 1, depth as nat, tab, fmt));
            }
            k += 1;
        }
        assert(out@ + render_members(ts, k as int, depth as nat, tab, fmt) =~= out@);
    }

    /// Appends the elements of the array or list at `i`.
    fn push_elements(&self, out: &mut Vec<char>, i: usize, depth: usize)
        requires
            self.wf(),
            self@.live(i as int),
            depth <= i,
        ensures
            final(out)@ == old(out)@ + render_elements(
                self@.tree_at(i as int).children,
                0,
                depth as nat,
                self@.tab_width as nat,
                self@.default_format,
            ),
        decreases self@.nodes.len() - i, 1nat,
    {
        proof {
            self@.lemma_tree_at(i as int);
        }
        let ghost ts = self@.tree_at(i as int).children;
        let ghost tab = self@.tab_width as nat;
        let ghost fmt = self@.default_format;
        let kids = self.children_at(i);
        let mut k: usize = 0;
        while k < kids.len()
            invariant
                self.wf(),
                self@.live(i as int),
                depth <= i,
                kids@ == self@.nodes[i as int].children,
                ts == self@.tree_at(i as int).children,
                ts.len() == kids.len(),
                tab == self@.tab_width as nat,
                fmt == self@.default_format,
                k <= kids.len(),
                old(out)@ + render_elements(ts, 0, depth as nat, tab, fmt) == out@
                    + render_elements(ts, k as int, depth as nat, tab, fmt),
            decreases kids.len() - k,
        {
            let ghost before = out@;
            let c = kids[k];
            proof {
                self@.lemma_tree_at(i as int);
                assert(ts[k as int] == self@.tree_at(c as int));
            }
            out.push(' ');
            self.push_value(out, c, depth);
            if k + 1 < kids.len() {
                out.push(',');
            }
            proof {
                assert(before + render_elements(ts, k as int, depth as nat, tab, fmt) =~= out@
                    + render_elements(ts, k + 1, depth as nat, tab, fmt));
            }
            k += 1;
        }
        assert(out@ + render_elements(ts, k as int, depth as nat, tab, fmt) =~= out@);
    }

    /// The document as text.
    ///
    /// The settings come out in the order of the tree, each member of a
    /// group on a line of its own, indented by the tab width for each
    /// level. A document without a root gives the empty text. Nothing is
    /// changed.
    pub fn serialize(&self) -> (text: String)
        requires
            self.wf(),
        ensures
            text@ == match self@.tree() {
                Some(t) => render_document(t, self@.tab_width as nat, self@.default_format),
                None => Seq::empty(),
            },
    {
        let mut out: Vec<char> = Vec::new();
        match self.root_index() {
            Some(r) => {
                self.push_members(&mut out, r, 0);
            },
            None => {},
        }
        let n = out.len();
        assert(out@.subrange(0, n as int) =~= out@);
        from_chars(&out, 0, n)
    }
}

} // verus!
