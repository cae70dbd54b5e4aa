//! The text filters the page templates use: amounts of kopecks as rubles, and text
//! escaped for a C-like string literal.
use vstd::prelude::*;
use crate::num::{decimal, lemma_decimal_digits, lemma_parse_sum_reads_written_sums, sum_overflows, sum_text, sum_value, write_decimal, write_decimal_padded, zero_pad};
use crate::text::{from_chars, push_all, to_chars};

verus! {

/// The lower-case hexadecimal digit for `d < 16`.
pub open spec fn hex_lower_char(d: nat) -> char {
    if d < 10 {
        ('0' as nat + d) as char
    } else {
        ('a' as nat + (d - 10)) as char
    }
}

/// The lower-case hexadecimal digits of `n`, without leading zeros.
pub open spec fn hex_lower(n: nat) -> Seq<char>
    decreases n,
{
    if n < 16 {
        seq![hex_lower_char(n)]
    } else {
        hex_lower(n / 16).push(hex_lower_char(n % 16))
    }
}

/// How `char::escape_default` writes `c`: tab, carriage return and line feed as
/// `\t`, `\r`, `\n`; backslash and quotes with a backslash before them; the other
/// printable ASCII characters as they are; anything else as `\u{hex}`.
pub open spec fn escaped_char(c: char) -> Seq<char> {
    if c == '\t' {
        seq!['\\', 't']
    } else if c == '\r' {
        seq!['\\', 'r']
    } else if c == '\n' {
        seq!['\\', 'n']
    } else if c == '\\' || c == '\'' || c == '"' {
        seq!['\\', c]
    } else if ' ' <= c <= '~' {
        seq![c]
    } else {
        seq!['\\', 'u', '{'] + hex_lower(c as nat) + seq!['}']
    }
}

/// How `str::escape_default` writes `s`: each character escaped in turn.
pub open spec fn escaped(s: Seq<char>) -> Seq<char>
    decreases s.len(),
{
    if s.len() == 0 {
        Seq::empty()
    } else {
        escaped(s.drop_last()) + escaped_char(s.last())
    }
}

fn hex_lower_digit(d: u32) -> (c: char)
    requires
        d < 16,
    ensures
        c == hex_lower_char(d as nat),
{
    if d == 0 { '0' }
    else if d == 1 { '1' }
    else if d == 2 { '2' }
    else if d == 3 { '3' }
    else if d == 4 { '4' }
    else if d == 5 { '5' }
    else if d == 6 { '6' }
    else if d == 7 { '7' }
    else if d == 8 { '8' }
    else if d == 9 { '9' }
    else if d == 10 { 'a' }
    else if d == 11 { 'b' }
    else if d == 12 { 'c' }
    else if d == 13 { 'd' }
    else if d == 14 { 'e' }
    else { 'f' }
}

fn write_hex_lower(n: u32) -> (r: Vec<char>)
    ensures
        r@ == hex_lower(n as nat),
    decreases n,
{
    let c = hex_lower_digit(n % 16);
    if n < 16 {
        vec![c]
    } else {
        let mut r = write_hex_lower(n / 16);
        r.push(c);
        r
    }
}

/// `c` as `char::escape_default` writes it.
fn escape_char(c: char) -> (r: Vec<char>)
    ensures
        r@ == escaped_char(c),
{
    let mut r: Vec<char> = Vec::new();
    if c == '\t' {
        r.push('\\');
        r.push('t');
    } else if c == '\r' {
        r.push('\\');
        r.push('r');
    } else if c == '\n' {
        r.push('\\');
        r.push('n');
    } else if c == '\\' || c == '\'' || c == '"' {
        r.push('\\');
        r.push(c);
    } else if ' ' <= c && c <= '~' {
        r.push(c);
    } else {
        r.push('\\');
        r.push('u');
        r.push('{');
        let h = write_hex_lower(c as u32);
        push_all(&mut r, h.as_slice());
        r.push('}');
    }
    assert(r@ =~= escaped_char(c));
    r
}

/// `s.escape_default()`, collected.
pub fn c_escape(s: &str) -> (r: String)
    ensures
        r@ == escaped(s@),
{
    let c = to_chars(s);
    let mut out: Vec<char> = Vec::new();
    let mut i: usize = 0;
    while i < c.len()
        invariant
            i <= c@.len(),
            out@ == escaped(c@.take(i as int)),
        decreases c@.len() - i,
    {
        proof {
            assert(c@.take(i + 1).drop_last() =~= c@.take(i as int));
        }
        let e = escape_char(c[i]);
        push_all(&mut out, e.as_slice());
        i = i + 1;
    }
    assert(c@.take(i as int) =~= c@);
    from_chars(out.as_slice())
}

/// The `cescape` template filter: C-style string escape.
#[derive(Clone, Copy, Debug, Default)]
pub struct CEscapeFilter;

impl CEscapeFilter {
    /// What the filter makes of a text.
    pub fn apply(&self, s: &str) -> (r: String)
        ensures
            r@ == escaped(s@),
    {
        c_escape(s)
    }
}

/// An amount of kopecks as rubles with two decimals (`12300` is `123.00`, `-5` is
/// `-0.05`), as `{:.2}` writes `x / 100.0` for an integer `x` that a double holds
/// exactly.
pub open spec fn rubles_text(x: int) -> Seq<char> {
    let m = if x < 0 { -x } else { x };
    (if x < 0 { seq!['-'] } else { Seq::empty() }) + decimal((m / 100) as nat) + seq!['.'] + zero_pad(decimal((m % 100) as nat), 2)
}

/// The `currency` template filter: kopecks to rubles (`12300` to `123.00`).
#[derive(Clone, Copy, Debug, Default)]
pub struct CurrencyFilter;

impl CurrencyFilter {
    /// What the filter makes of an integer amount of kopecks that a double holds
    /// exactly (at most 2^53 either way).
    pub fn apply_integer(&self, x: i64) -> (r: String)
        requires
            -0x20_0000_0000_0000 <= x <= 0x20_0000_0000_0000,
        ensures
            r@ == rubles_text(x as int),
    {
        let m: u64 = if x < 0 { (0 - x) as u64 } else { x as u64 };
        let mut out: Vec<char> = Vec::new();
        if x < 0 {
            out.push('-');
        }
        push_all(&mut out, write_decimal(m / 100).as_slice());
        out.push('.');
        push_all(&mut out, write_decimal_padded(m % 100, 2).as_slice());
        let r = from_chars(out.as_slice());
        assert(r@ =~= rubles_text(x as int));
        r
    }
}

/// What the `currency` filter writes reads back as the amount it was given: an amount
/// of zero or more is written as `parse_sum` reads it back, and a negative amount is a
/// minus followed by the text of the amount negated.
pub proof fn lemma_rubles_text_reads_back(x: int)
    requires
        -0xffff_ffff_ffff_ffff <= x <= 0xffff_ffff_ffff_ffff,
    ensures
        x >= 0 ==> rubles_text(x)[0] != '-' && !sum_overflows(rubles_text(x)) && sum_value(rubles_text(x)) == Some(x),
        x < 0 ==> rubles_text(x) == seq!['-'] + rubles_text(-x),
        x < 0 ==> rubles_text(x)[0] == '-' && sum_value(rubles_text(x).drop_first()) == Some(-x),
{
    if x >= 0 {
        let n = x as u64;
        assert(rubles_text(x) =~= sum_text(n as nat));
        lemma_parse_sum_reads_written_sums(n);
        lemma_decimal_digits((n / 100) as nat);
        assert(rubles_text(x)[0] == decimal((n / 100) as nat)[0]);
    } else {
        let n = (-x) as u64;
        assert(rubles_text(-x) =~= sum_text(n as nat));
        assert(rubles_text(x) =~= seq!['-'] + rubles_text(-x));
        assert(rubles_text(x).drop_first() =~= rubles_text(-x));
        lemma_parse_sum_reads_written_sums(n);
    }
}

} // verus!
