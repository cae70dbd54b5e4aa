//! Decimal numbers in text: reading them as `str::parse` does, and writing them
//! as `Display` does.
use vstd::prelude::*;
use crate::text::{all_ascii_digits, char_index, find_first, find_from, is_all_digits, lemma_find_from_bounds, matches_at, split_once, split_once_char, sub_chars};

verus! {

/// The value of a sequence of ASCII digits, most significant first.
pub open spec fn digits_value(s: Seq<char>) -> nat
    decreases s.len(),
{
    if s.len() == 0 {
        0
    } else {
        digits_value(s.drop_last()) * 10 + (s.last() as nat - '0' as nat) as nat
    }
}

/// The digits after an optional leading `+`.
pub open spec fn unsigned_body(s: Seq<char>) -> Seq<char> {
    if s.len() > 0 && s[0] == '+' {
        s.drop_first()
    } else {
        s
    }
}

/// What `str::parse` gives for an unsigned integer type whose largest value is `max`:
/// an optional `+`, then one or more ASCII digits, with a value of at most `max`.
pub open spec fn parse_unsigned(s: Seq<char>, max: nat) -> Option<nat> {
    let d = unsigned_body(s);
    if d.len() > 0 && all_ascii_digits(d) && digits_value(d) <= max {
        Some(digits_value(d))
    } else {
        None
    }
}

/// What `str::parse::<i64>` gives: an optional sign, then one or more ASCII digits,
/// with a value in the range of `i64`.
pub open spec fn parse_i64_spec(s: Seq<char>) -> Option<int> {
    if s.len() > 0 && s[0] == '-' {
        let d = s.drop_first();
        if d.len() > 0 && all_ascii_digits(d) && digits_value(d) <= 0x8000_0000_0000_0000 {
            Some(-(digits_value(d) as int))
        } else {
            None
        }
    } else {
        match parse_unsigned(s, 0x7fff_ffff_ffff_ffff) {
            Some(v) => Some(v as int),
            None => None,
        }
    }
}

pub proof fn lemma_digits_value_take_mono(s: Seq<char>, k: int)
    requires
        0 <= k <= s.len(),
        all_ascii_digits(s),
    ensures
        digits_value(s.take(k)) <= digits_value(s),
    decreases s.len(),
{
    if k < s.len() {
        let t = s.drop_last();
        assert(t.take(k) =~= s.take(k));
        assert(all_ascii_digits(t)) by {
            assert forall|i: int| 0 <= i < t.len() implies '0' <= #[trigger] t[i] <= '9' by {
                assert(t[i] == s[i]);
            }
        }
        lemma_digits_value_take_mono(t, k);
    } else {
        assert(s.take(k) =~= s);
    }
}

pub proof fn lemma_digits_value_short(s: Seq<char>)
    requires
        s.len() <= 2,
        all_ascii_digits(s),
    ensures
        digits_value(s) <= 99,
{
    if s.len() == 2 {
        let t = s.drop_last();
        assert(t.drop_last() =~= Seq::<char>::empty());
        assert('0' <= s[0] <= '9' && '0' <= s[1] <= '9');
        assert(t.last() == s[0]);
        assert(digits_value(t.drop_last()) == 0);
        assert(digits_value(t) == (s[0] as nat - '0' as nat));
        assert(s.last() == s[1]);
        assert(digits_value(s) == digits_value(t) * 10 + (s[1] as nat - '0' as nat));
    } else if s.len() == 1 {
        assert(s.drop_last() =~= Seq::<char>::empty());
        assert(digits_value(s.drop_last()) == 0);
        assert('0' <= s[0] <= '9');
        assert(s.last() == s[0]);
    }
}

/// Reads the digits `d` (all ASCII digits, at least one) as a number of at most `max`.
fn digits_to_u64(d: &[char], max: u64) -> (r: Option<u64>)
    requires
        d@.len() > 0,
        all_ascii_digits(d@),
    ensures
        r matches Some(v) ==> v == digits_value(d@) && v <= max,
        r is None ==> digits_value(d@) > max,
{
    let mut acc: u64 = 0;
    let mut i: usize = 0;
    while i < d.len()
        invariant
            i <= d.len(),
            all_ascii_digits(d@),
            acc == digits_value(d@.take(i as int)),
            acc <= max,
        decreases d.len() - i,
    {
        let c = d[i];
        assert('0' <= d@[i as int] <= '9');
        let dig: u64 = (c as u32 - '0' as u32) as u64;
        assert(d@.take(i + 1).drop_last() =~= d@.take(i as int));
        assert(d@.take(i + 1).last() == c);
        if dig > max || acc > (max - dig) / 10 {
            proof {
                assert(acc * 10 + dig > max) by (nonlinear_arith)
                    requires
                        dig > max || acc > (max - dig) / 10,
                        0 <= dig <= 9,
                        acc >= 0,
                ;
                lemma_digits_value_take_mono(d@, i + 1);
            }
            return None;
        }
        assert(acc * 10 + dig <= max) by (nonlinear_arith)
            requires
                acc <= (max - dig) / 10,
                dig <= max,
        ;
        acc = acc * 10 + dig;
        i = i + 1;
    }
    assert(d@.take(i as int) =~= d@);
    Some(acc)
}

/// `str::parse` for an unsigned integer type whose largest value is `max`.
pub fn parse_uint(s: &[char], max: u64) -> (r: Option<u64>)
    ensures
        r matches Some(v) ==> parse_unsigned(s@, max as nat) == Some(v as nat),
        r is None ==> parse_unsigned(s@, max as nat) is None,
{
    let d = if s.len() > 0 && s[0] == '+' {
        sub_chars(s, 1, s.len())
    } else {
        sub_chars(s, 0, s.len())
    };
    assert(d@ =~= unsigned_body(s@));
    if d.len() == 0 || !is_all_digits(d.as_slice()) {
        return None;
    }
    digits_to_u64(d.as_slice(), max)
}

/// `str::parse::<u64>`.
pub fn parse_u64(s: &[char]) -> (r: Option<u64>)
    ensures
        r matches Some(v) ==> parse_unsigned(s@, u64::MAX as nat) == Some(v as nat),
        r is None ==> parse_unsigned(s@, u64::MAX as nat) is None,
{
    parse_uint(s, u64::MAX)
}

/// `str::parse::<u32>`.
pub fn parse_u32(s: &[char]) -> (r: Option<u32>)
    ensures
        r matches Some(v) ==> parse_unsigned(s@, u32::MAX as nat) == Some(v as nat),
        r is None ==> parse_unsigned(s@, u32::MAX as nat) is None,
{
    match parse_uint(s, u32::MAX as u64) {
        Some(v) => Some(v as u32),
        None => None,
    }
}

/// `str::parse::<u8>`.
pub fn parse_u8(s: &[char]) -> (r: Option<u8>)
    ensures
        r matches Some(v) ==> parse_unsigned(s@, u8::MAX as nat) == Some(v as nat),
        r is None ==> parse_unsigned(s@, u8::MAX as nat) is None,
{
    match parse_uint(s, u8::MAX as u64) {
        Some(v) => Some(v as u8),
        None => None,
    }
}

/// `str::parse::<usize>`.
pub fn parse_usize(s: &[char]) -> (r: Option<usize>)
    ensures
        r matches Some(v) ==> parse_unsigned(s@, usize::MAX as nat) == Some(v as nat),
        r is None ==> parse_unsigned(s@, usize::MAX as nat) is None,
{
    match parse_uint(s, usize::MAX as u64) {
        Some(v) => Some(v as usize),
        None => None,
    }
}

/// `str::parse::<i64>`.
pub fn parse_i64(s: &[char]) -> (r: Option<i64>)
    ensures
        r matches Some(v) ==> parse_i64_spec(s@) == Some(v as int),
        r is None ==> parse_i64_spec(s@) is None,
{
    if s.len() > 0 && s[0] == '-' {
        let d = sub_chars(s, 1, s.len());
        assert(d@ =~= s@.drop_first());
        if d.len() == 0 || !is_all_digits(d.as_slice()) {
            return None;
        }
        match digits_to_u64(d.as_slice(), 0x8000_0000_0000_0000) {
            Some(v) => {
                if v == 0x8000_0000_0000_0000 {
                    Some(i64::MIN)
                } else {
                    Some(-(v as i64))
                }
            },
            None => None,
        }
    } else {
        match parse_uint(s, 0x7fff_ffff_ffff_ffff) {
            Some(v) => Some(v as i64),
            None => None,
        }
    }
}

/// The value in hundredths that `parse_sum` reads from `s`, computed without bounds:
/// `rubles[.kopecks]`, with one or two digits after the dot.
pub open spec fn sum_value(s: Seq<char>) -> Option<int> {
    match split_once_char(s, '.') {
        Some((a, b)) => {
            if b.len() > 2 || b.len() == 0 {
                None
            } else {
                match (parse_unsigned(a, u64::MAX as nat), parse_unsigned(b, u64::MAX as nat)) {
                    (Some(x), Some(y)) => Some(x * 100 + y * (if b.len() == 1 { 10int } else { 1int })),
                    _ => None,
                }
            }
        },
        None => match parse_unsigned(s, u64::MAX as nat) {
            Some(x) => Some((x * 100) as int),
            None => None,
        },
    }
}

/// Reading `s` as a sum would overflow `u64`: such a sum cannot be counted.
pub open spec fn sum_overflows(s: Seq<char>) -> bool {
    match split_once_char(s, '.') {
        Some((a, b)) => {
            !(b.len() > 2 || b.len() == 0) && match parse_unsigned(a, u64::MAX as nat) {
                Some(x) => x * 100 > u64::MAX || (sum_value(s) matches Some(v) && v > u64::MAX),
                None => false,
            }
        },
        None => sum_value(s) matches Some(v) && v > u64::MAX,
    }
}

/// Reads a sum of money in hundredths: `"12"` is 1200, `"12.5"` is 1250, `"12.05"` is 1205.
pub fn parse_sum(s: &[char]) -> (r: Option<u64>)
    requires
        !sum_overflows(s@),
    ensures
        r matches Some(v) ==> sum_value(s@) == Some(v as int),
        r is None ==> sum_value(s@) is None,
{
    match split_once(s, '.') {
        Some((a, b)) => {
            if b.len() > 2 || b.len() == 0 {
                return None;
            }
            let x = match parse_u64(a.as_slice()) {
                Some(x) => x,
                None => return None,
            };
            let hundreds = x * 100;
            let y = match parse_u64(b.as_slice()) {
                Some(y) => y,
                None => return None,
            };
            proof {
                let d = unsigned_body(b@);
                lemma_digits_value_short(d);
            }
            let scale: u64 = if b.len() == 1 { 10 } else { 1 };
            Some(hundreds + y * scale)
        },
        None => match parse_u64(s) {
            Some(x) => Some(x * 100),
            None => None,
        },
    }
}

/// Whether `parse_sum` can read `s` without overflowing `u64`.
pub fn sum_fits(s: &[char]) -> (r: bool)
    ensures
        r == !sum_overflows(s@),
{
    match split_once(s, '.') {
        Some((a, b)) => {
            if b.len() > 2 || b.len() == 0 {
                return true;
            }
            let x = match parse_u64(a.as_slice()) {
                Some(x) => x,
                None => return true,
            };
            if x > 184467440737095516 {
                return false;
            }
            let hundreds = x * 100;
            let y = match parse_u64(b.as_slice()) {
                Some(y) => y,
                None => return true,
            };
            proof {
                let d = unsigned_body(b@);
                lemma_digits_value_short(d);
            }
            let scale: u64 = if b.len() == 1 { 10 } else { 1 };
            hundreds as u128 + (y as u128) * (scale as u128) <= 0xffff_ffff_ffff_ffffu128
        },
        None => match parse_u64(s) {
            Some(x) => x <= 184467440737095516,
            None => true,
        },
    }
}

/// The ASCII digit for `d < 10`.
pub open spec fn digit_char(d: nat) -> char {
    ('0' as nat + d) as char
}

/// The decimal digits of `n`, as `Display` writes an unsigned integer.
pub open spec fn decimal(n: nat) -> Seq<char>
    decreases n,
{
    if n < 10 {
        seq![digit_char(n)]
    } else {
        decimal(n / 10).push(digit_char(n % 10))
    }
}

/// `s` padded on the left with zeros to at least `width` characters (`{:0width}`).
pub open spec fn zero_pad(s: Seq<char>, width: nat) -> Seq<char> {
    if s.len() >= width {
        s
    } else {
        Seq::new((width - s.len()) as nat, |i: int| '0') + s
    }
}

/// The decimal digits of `n`.
pub fn write_decimal(n: u64) -> (r: Vec<char>)
    ensures
        r@ == decimal(n as nat),
    decreases n,
{
    let d: u32 = (n % 10) as u32;
    let c = char_of_digit(d);
    if n < 10 {
        vec![c]
    } else {
        let mut r = write_decimal(n / 10);
        r.push(c);
        r
    }
}

/// The ASCII digit `d`.
pub fn char_of_digit(d: u32) -> (c: char)
    requires
        d < 10,
    ensures
        c == digit_char(d as nat),
{
    if d == 0 { '0' }
    else if d == 1 { '1' }
    else if d == 2 { '2' }
    else if d == 3 { '3' }
    else if d == 4 { '4' }
    else if d == 5 { '5' }
    else if d == 6 { '6' }
    else if d == 7 { '7' }
    else if d == 8 { '8' }
    else { '9' }
}

/// `n` in decimal, padded on the left with zeros to at least `width` characters.
pub fn write_decimal_padded(n: u64, width: usize) -> (r: Vec<char>)
    ensures
        r@ == zero_pad(decimal(n as nat), width as nat),
{
    let digits = write_decimal(n);
    if digits.len() >= width {
        return digits;
    }
    let mut r: Vec<char> = Vec::new();
    let pad = width - digits.len();
    let mut i: usize = 0;
    while i < pad
        invariant
            i <= pad,
            r@ == Seq::new(i as nat, |k: int| '0'),
        decreases pad - i,
    {
        r.push('0');
        i = i + 1;
        assert(r@ =~= Seq::new(i as nat, |k: int| '0'));
    }
    let mut j: usize = 0;
    while j < digits.len()
        invariant
            j <= digits.len(),
            r@ == Seq::new(pad as nat, |k: int| '0') + digits@.take(j as int),
        decreases digits.len() - j,
    {
        r.push(digits[j]);
        j = j + 1;
        assert(r@ =~= Seq::new(pad as nat, |k: int| '0') + digits@.take(j as int));
    }
    assert(digits@.take(j as int) =~= digits@);
    r
}

/// `decimal(n)` is one or more ASCII digits whose value is `n`.
pub proof fn lemma_decimal_digits(n: nat)
    ensures
        decimal(n).len() > 0,
        all_ascii_digits(decimal(n)),
        digits_value(decimal(n)) == n,
    decreases n,
{
    let d = digit_char(n % 10);
    assert(d as nat - '0' as nat == n % 10);
    if n < 10 {
        let s = decimal(n);
        assert(s.drop_last() =~= Seq::<char>::empty());
        assert(digits_value(s.drop_last()) == 0);
        assert(s.last() == d);
    } else {
        lemma_decimal_digits(n / 10);
        let s = decimal(n);
        assert(s.drop_last() =~= decimal(n / 10));
        assert(s.last() == d);
        assert(n == (n / 10) * 10 + n % 10);
        assert(all_ascii_digits(s)) by {
            assert forall|i: int| 0 <= i < s.len() implies '0' <= #[trigger] s[i] <= '9' by {
                if i < s.len() - 1 {
                    assert(s[i] == decimal(n / 10)[i]);
                }
            }
        }
    }
}

/// A text of ASCII digits holds no `c` that is no digit.
pub proof fn lemma_digits_lack_char(s: Seq<char>, c: char)
    requires
        all_ascii_digits(s),
        !('0' <= c <= '9'),
    ensures
        char_index(s, c) is None,
{
    lemma_find_from_bounds(s, seq![c], 0);
    if let Some(i) = find_first(s, seq![c]) {
        assert(s.subrange(i, i + 1)[0] == s[i]);
    }
}

/// Cutting `a + c + b` at its first `c`, where `a` holds none, gives `a` and `b`.
pub proof fn lemma_split_after_digits(a: Seq<char>, c: char, b: Seq<char>)
    requires
        all_ascii_digits(a),
        !('0' <= c <= '9'),
    ensures
        split_once_char(a + seq![c] + b, c) == Some((a, b)),
{
    let s = a + seq![c] + b;
    let n = a.len() as int;
    assert(s.subrange(n, n + 1) =~= seq![c]);
    assert(matches_at(s, seq![c], n));
    lemma_find_from_bounds(s, seq![c], 0);
    match find_from(s, seq![c], 0) {
        Some(i) => {
            if i < n {
                assert(s.subrange(i, i + 1)[0] == s[i]);
                assert(s[i] == a[i]);
            }
            assert(i == n);
        },
        None => {},
    }
    assert(s.take(n) =~= a);
    assert(s.skip(n + 1) =~= b);
}

/// Two digits, `k < 100` written with a leading zero where it has one digit.
proof fn lemma_two_digits(k: nat)
    requires
        k < 100,
    ensures
        zero_pad(decimal(k), 2).len() == 2,
        all_ascii_digits(zero_pad(decimal(k), 2)),
        digits_value(zero_pad(decimal(k), 2)) == k,
{
    lemma_decimal_digits(k);
    if k < 10 {
        let p = zero_pad(decimal(k), 2);
        assert(p =~= seq!['0', digit_char(k)]);
        assert(p.drop_last() =~= seq!['0']);
        assert(p.drop_last().drop_last() =~= Seq::<char>::empty());
        assert(digits_value(p.drop_last().drop_last()) == 0);
        assert(p.drop_last().last() == '0');
        assert(digits_value(p.drop_last()) == 0);
        assert(p.last() == digit_char(k));
    } else {
        lemma_decimal_digits(k / 10);
        assert(decimal(k).len() == 2);
    }
}

/// A sum of `n` hundredths as `format!("{}.{:02}", n / 100, n % 100)` writes it:
/// whole rubles, a dot and two digits of kopecks.
pub open spec fn sum_text(n: nat) -> Seq<char> {
    decimal(n / 100) + seq!['.'] + zero_pad(decimal(n % 100), 2)
}

/// `parse_sum` reads back what is written of a sum: for every `n`, the text
/// `sum_text(n)` is one that `parse_sum` accepts (no overflow) and it gives
/// `Some(n)`; and the whole number `n` written alone (`n.to_string()`) gives
/// `Some(n * 100)` wherever that fits a `u64`.
pub proof fn lemma_parse_sum_reads_written_sums(n: u64)
    ensures
        !sum_overflows(sum_text(n as nat)),
        sum_value(sum_text(n as nat)) == Some(n as int),
        n <= u64::MAX / 100 ==> !sum_overflows(decimal(n as nat)),
        n <= u64::MAX / 100 ==> sum_value(decimal(n as nat)) == Some(n as int * 100),
{
    let a = decimal((n / 100) as nat);
    let b = zero_pad(decimal((n % 100) as nat), 2);
    lemma_decimal_digits((n / 100) as nat);
    lemma_two_digits((n % 100) as nat);
    lemma_split_after_digits(a, '.', b);
    assert(unsigned_body(a) == a);
    assert(unsigned_body(b) == b);
    assert(parse_unsigned(a, u64::MAX as nat) == Some((n / 100) as nat));
    assert(parse_unsigned(b, u64::MAX as nat) == Some((n % 100) as nat));
    assert((n / 100) as nat * 100 + (n % 100) as nat == n as nat);
    let w = decimal(n as nat);
    lemma_decimal_digits(n as nat);
    lemma_digits_lack_char(w, '.');
    assert(unsigned_body(w) == w);
}

} // verus!
