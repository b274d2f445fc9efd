//! Numerals: what a run of digits is worth, how a number is written, and
//! what a floating-point literal looks like.

use vstd::prelude::*;
use crate::chars::{
    all_in, digit, is_digit, is_hex_digit, lemma_run_end_bounds, lemma_run_end_window, run_end,
    scan_run, CharClass,
};

verus! {

/// The worth of one digit; letters count from ten.
pub open spec fn digit_value(c: char) -> nat {
    if is_digit(c) {
        (c as int - 48) as nat
    } else if 'a' <= c && c <= 'f' {
        (c as int - 87) as nat
    } else if 'A' <= c && c <= 'F' {
        (c as int - 55) as nat
    } else {
        0
    }
}

/// The digit that is worth `d`, in upper case from ten on.
pub open spec fn digit_char(d: nat) -> char {
    if d < 10 {
        (48 + d) as u8 as char
    } else {
        (55 + d) as u8 as char
    }
}

/// The number that the digits of `s` write in base `radix`.
pub open spec fn digits_value(s: Seq<char>, radix: nat) -> nat
    decreases s.len(),
{
    if s.len() == 0 {
        0
    } else {
        digits_value(s.drop_last(), radix) * radix + digit_value(s.last())
    }
}

/// The digits of `n` in base `radix`, without leading zeros.
pub open spec fn render_nat(n: nat, radix: nat) -> Seq<char>
    decreases n,
{
    if n < radix || radix < 2 {
        seq![digit_char(n)]
    } else {
        proof {
            assert(n / radix < n) by (nonlinear_arith)
                requires
                    n >= radix,
                    radix >= 2,
            ;
        }
        render_nat(n / radix, radix).push(digit_char(n % radix))
    }
}

/// The class of the digits of base ten or sixteen.
pub open spec fn radix_class(radix: nat) -> CharClass {
    if radix == 16 {
        CharClass::HexDigit
    } else {
        CharClass::Digit
    }
}

/// A written number reads back as itself, and is made of digits only.
pub proof fn lemma_render_nat(n: nat, radix: nat)
    requires
        radix == 10 || radix == 16,
    ensures
        render_nat(n, radix).len() >= 1,
        all_in(render_nat(n, radix), radix_class(radix)),
        digits_value(render_nat(n, radix), radix) == n,
    decreases n,
{
    let r = render_nat(n, radix);
    if n < radix {
        assert(r.drop_last() =~= Seq::<char>::empty());
        assert(digits_value(r.drop_last(), radix) == 0);
        assert(r.last() == digit_char(n));
        assert(digit_value(digit_char(n)) == n);
    } else {
        let q = n / radix;
        let d = n % radix;
        lemma_render_nat(q, radix);
        let head = render_nat(q, radix);
        assert(r == head.push(digit_char(d)));
        assert(r.drop_last() =~= head);
        assert(r.last() == digit_char(d));
        assert(digit_value(digit_char(d)) == d);
        assert(q * radix + d == n) by (nonlinear_arith)
            requires
                q == n / radix,
                d == n % radix,
                radix > 0,
        ;
        assert forall|i: int| 0 <= i < r.len() implies radix_class(radix).holds(#[trigger] r[i]) by {
            if i < head.len() {
                assert(r[i] == head[i]);
            }
        }
    }
}

/// A longer run of digits is worth no less than its beginning.
pub proof fn lemma_digits_value_grows(s: Seq<char>, k: int, radix: nat)
    requires
        0 <= k <= s.len(),
        radix >= 1,
    ensures
        digits_value(s.subrange(0, k), radix) <= digits_value(s, radix),
    decreases s.len() - k,
{
    if k == s.len() {
        assert(s.subrange(0, k) =~= s);
    } else {
        lemma_digits_value_grows(s.drop_last(), k, radix);
        assert(s.drop_last().subrange(0, k) =~= s.subrange(0, k));
        let v = digits_value(s.drop_last(), radix);
        assert(v * radix >= v) by (nonlinear_arith)
            requires
                radix >= 1,
                v >= 0,
        ;
    }
}

/// The worth of the digit `c`.
pub fn digit_of(c: char) -> (d: u8)
    requires
        is_hex_digit(c),
    ensures
        d == digit_value(c),
        d < 16,
        is_digit(c) ==> d < 10,
{
    if digit(c) {
        (c as u32 - 48) as u8
    } else if c >= 'a' && c <= 'f' {
        (c as u32 - 87) as u8
    } else {
        (c as u32 - 55) as u8
    }
}

/// The digit that is worth `d`.
pub fn char_of_digit(d: u8) -> (c: char)
    requires
        d < 16,
    ensures
        c == digit_char(d as nat),
{
    if d < 10 {
        (d + 48) as char
    } else {
        (d + 55) as char
    }
}

/// Appends the digits of `n` in base `radix` to `out`.
pub fn push_nat(out: &mut Vec<char>, n: u64, radix: u64)
    requires
        radix == 10 || radix == 16,
    ensures
        final(out)@ == old(out)@ + render_nat(n as nat, radix as nat),
    decreases n,
{
    if n < radix {
        out.push(char_of_digit(n as u8));
        assert(old(out)@.push(digit_char(n as nat)) =~= old(out)@ + render_nat(
            n as nat,
            radix as nat,
        ));
    } else {
        push_nat(out, n / radix, radix);
        out.push(char_of_digit((n % radix) as u8));
        assert((old(out)@ + render_nat((n / radix) as nat, radix as nat)).push(
            digit_char((n % radix) as nat),
        ) =~= old(out)@ + render_nat(n as nat, radix as nat));
    }
}

/// Reads the digits `s[i..j]` in base `radix`; `None` when the number does
/// not fit in 64 bits.
pub fn read_nat(s: &Vec<char>, i: usize, j: usize, radix: u64) -> (r: Option<u64>)
    requires
        i <= j <= s.len(),
        radix == 10 || radix == 16,
        all_in(s@.subrange(i as int, j as int), radix_class(radix as nat)),
    ensures
        match r {
            Some(v) => v == digits_value(s@.subrange(i as int, j as int), radix as nat),
            None => digits_value(s@.subrange(i as int, j as int), radix as nat) > u64::MAX,
        },
{
    let ghost whole = s@.subrange(i as int, j as int);
    let mut acc: u64 = 0;
    let mut k: usize = i;
    while k < j
        invariant
            i <= k <= j <= s.len(),
            radix == 10 || radix == 16,
            whole == s@.subrange(i as int, j as int),
            all_in(whole, radix_class(radix as nat)),
            acc == digits_value(whole.subrange(0, k - i), radix as nat),
        decreases j - k,
    {
        assert(whole[k - i] == s@[k as int]);
        let d = digit_of(s[k]) as u64;
        assert(d < radix);
        proof {
            assert(whole.subrange(0, k - i + 1).drop_last() =~= whole.subrange(0, k - i));
            assert(whole.subrange(0, k - i + 1).last() == s@[k as int]);
            lemma_digits_value_grows(whole, k - i + 1, radix as nat);
        }
        if acc > (u64::MAX - d) / radix {
            assert(acc * radix + d > u64::MAX) by (nonlinear_arith)
                requires
                    acc > (u64::MAX - d) / (radix as int),
                    radix > 0,
                    d <= u64::MAX,
            ;
            return None;
        }
        assert(acc * radix + d <= u64::MAX) by (nonlinear_arith)
            requires
                acc <= (u64::MAX - d) / (radix as int),
                radix > 0,
                d <= u64::MAX,
        ;
        acc = acc * radix + d;
        k += 1;
    }
    assert(whole.subrange(0, j - i) =~= whole);
    Some(acc)
}

/// Past a sign at `i`, if there is one.
pub open spec fn sign_end(s: Seq<char>, i: int) -> int {
    if 0 <= i < s.len() && (s[i] == '-' || s[i] == '+') {
        i + 1
    } else {
        i
    }
}

/// Past an exponent at `i`: `e` or `E`, an optional sign and at least one
/// digit. Where none stands at `i`, `i` itself.
pub open spec fn exponent_end(s: Seq<char>, i: int) -> int {
    if 0 <= i < s.len() && (s[i] == 'e' || s[i] == 'E') {
        let a = sign_end(s, i + 1);
        let b = run_end(s, a, CharClass::Digit);
        if b > a {
            b
        } else {
            i
        }
    } else {
        i
    }
}

/// Where the floating-point literal that starts at `i` ends, if one starts
/// there: an optional sign, digits with a point among or after them and an
/// optional exponent, or digits and an exponent.
pub open spec fn float_end(s: Seq<char>, i: int) -> Option<int> {
    let a = sign_end(s, i);
    let b = run_end(s, a, CharClass::Digit);
    if 0 <= b < s.len() && s[b] == '.' {
        let c = run_end(s, b + 1, CharClass::Digit);
        if b > a || c > b + 1 {
            Some(exponent_end(s, c))
        } else {
            None
        }
    } else if b > a && exponent_end(s, b) > b {
        Some(exponent_end(s, b))
    } else {
        None
    }
}

/// The whole of `s` is one floating-point literal.
pub open spec fn is_float_literal(s: Seq<char>) -> bool {
    float_end(s, 0) == Some(s.len() as int)
}

/// An exponent seen through a window of the text that ends where the
/// exponent ends, or where none starts, is the same exponent.
pub proof fn lemma_exponent_window(s: Seq<char>, i: int, c: int)
    requires
        0 <= i <= c <= s.len(),
    ensures
        c <= exponent_end(s, c) <= s.len(),
        exponent_end(s.subrange(i, exponent_end(s, c)), c - i) == exponent_end(s, c) - i,
{
    let e = exponent_end(s, c);
    if c < s.len() && (s[c] == 'e' || s[c] == 'E') {
        let a = sign_end(s, c + 1);
        lemma_run_end_bounds(s, a, CharClass::Digit);
        let b = run_end(s, a, CharClass::Digit);
        if b > a {
            let t = s.subrange(i, e);
            assert(t[c - i] == s[c]);
            if c + 1 < e {
                assert(t[c + 1 - i] == s[c + 1]);
            }
            assert(sign_end(t, c + 1 - i) == a - i);
            lemma_run_end_window(s, i, e, a, CharClass::Digit);
        }
    }
}

/// The text of a floating-point literal, taken by itself, is a
/// floating-point literal.
pub proof fn lemma_float_slice(s: Seq<char>, i: int)
    requires
        0 <= i <= s.len(),
        float_end(s, i) is Some,
    ensures
        i < float_end(s, i).unwrap() <= s.len(),
        is_float_literal(s.subrange(i, float_end(s, i).unwrap())),
{
    let e = float_end(s, i).unwrap();
    let t = s.subrange(i, e);
    let a = sign_end(s, i);
    lemma_run_end_bounds(s, a, CharClass::Digit);
    let b = run_end(s, a, CharClass::Digit);
    if b < s.len() && s[b] == '.' {
        lemma_run_end_bounds(s, b + 1, CharClass::Digit);
        let c = run_end(s, b + 1, CharClass::Digit);
        lemma_exponent_window(s, i, c);
        assert(t[0] == s[i]);
        assert(sign_end(t, 0) == a - i);
        lemma_run_end_window(s, i, e, a, CharClass::Digit);
        assert(t[b - i] == s[b]);
        lemma_run_end_window(s, i, e, b + 1, CharClass::Digit);
    } else {
        lemma_exponent_window(s, i, b);
        assert(t[0] == s[i]);
        assert(sign_end(t, 0) == a - i);
        lemma_run_end_window(s, i, e, a, CharClass::Digit);
        assert(t[b - i] == s[b]);
    }
}

pub fn scan_sign(s: &Vec<char>, i: usize) -> (j: usize)
    requires
        i <= s.len(),
    ensures
        j == sign_end(s@, i as int),
        i <= j <= s.len(),
{
    if i < s.len() && (s[i] == '-' || s[i] == '+') {
        i + 1
    } else {
        i
    }
}

pub fn scan_exponent(s: &Vec<char>, i: usize) -> (j: usize)
    requires
        i <= s.len(),
    ensures
        j == exponent_end(s@, i as int),
        i <= j <= s.len(),
{
    if i < s.len() && (s[i] == 'e' || s[i] == 'E') {
        let a = scan_sign(s, i + 1);
        let b = scan_run(s, a, CharClass::Digit);
        if b > a {
            b
        } else {
            i
        }
    } else {
        i
    }
}

/// Where the floating-point literal at `i` ends, if one starts there.
pub fn scan_float(s: &Vec<char>, i: usize) -> (r: Option<usize>)
    requires
        i <= s.len(),
    ensures
        match r {
            Some(j) => float_end(s@, i as int) == Some(j as int) && i < j <= s.len(),
            None => float_end(s@, i as int) is None,
        },
{
    let a = scan_sign(s, i);
    let b = scan_run(s, a, CharClass::Digit);
    if b < s.len() && s[b] == '.' {
        let c = scan_run(s, b + 1, CharClass::Digit);
        if b > a || c > b + 1 {
            Some(scan_exponent(s, c))
        } else {
            None
        }
    } else if b > a {
        let e = scan_exponent(s, b);
        if e > b {
            Some(e)
        } else {
            None
        }
    } else {
        None
    }
}

} // verus!
