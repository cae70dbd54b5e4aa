use vstd::prelude::*;
use vstd::string::StringSliceAdditionalSpecFns;

verus! {

/// The value of one hexadecimal digit given as an ASCII byte, either case.
pub open spec fn hex_digit_value(c: u8) -> Option<u8> {
    if 0x30 <= c <= 0x39 {
        Some((c - 0x30) as u8)
    } else if 0x41 <= c <= 0x46 {
        Some((c - 0x41 + 10) as u8)
    } else if 0x61 <= c <= 0x66 {
        Some((c - 0x61 + 10) as u8)
    } else {
        None
    }
}

/// Decodes a single hexadecimal digit (`0-9`, `A-F`, `a-f`).
pub fn decode_hex_digit(c: u8) -> (r: Option<u8>)
    ensures
        r == hex_digit_value(c),
{
    if 0x30 <= c && c <= 0x39 {
        Some(c - 0x30)
    } else if 0x41 <= c && c <= 0x46 {
        Some(c - 0x41 + 10)
    } else if 0x61 <= c && c <= 0x66 {
        Some(c - 0x61 + 10)
    } else {
        None
    }
}

/// What `decode_hex` gives for the bytes `b`: pairs of hexadecimal digits, each
/// read as one byte, high digit first; `None` for an odd length or a non-digit.
pub open spec fn hex_decoded(b: Seq<u8>) -> Option<Seq<u8>> {
    if b.len() % 2 == 0 && forall|i: int| 0 <= i < b.len() ==> #[trigger] hex_digit_value(b[i]) is Some {
        Some(Seq::new(b.len() / 2, |i: int| (hex_digit_value(b[2 * i])->0 * 16 + hex_digit_value(b[2 * i + 1])->0) as u8))
    } else {
        None
    }
}

/// Decodes the bytes of `b` as pairs of hexadecimal digits.
pub fn decode_hex_bytes(b: &[u8]) -> (r: Option<Vec<u8>>)
    ensures
        r matches Some(v) ==> hex_decoded(b@) == Some(v@),
        r is None ==> hex_decoded(b@) is None,
{
    let mut out: Vec<u8> = Vec::new();
    let mut i: usize = 0;
    while i < b.len()
        invariant
            i % 2 == 0,
            i <= b.len(),
            out@.len() == i / 2,
            forall|k: int| 0 <= k < i ==> #[trigger] hex_digit_value(b@[k]) is Some,
            forall|k: int| 0 <= k < i / 2 ==> #[trigger] out@[k] == (hex_digit_value(b@[2 * k])->0 * 16 + hex_digit_value(b@[2 * k + 1])->0) as u8,
        decreases b.len() + 1 - i,
    {
        if i + 1 >= b.len() {
            // a lone digit at the end
            assert(b@.len() % 2 == 1);
            return None;
        }
        let hi = match decode_hex_digit(b[i]) {
            Some(x) => x,
            None => return None,
        };
        let lo = match decode_hex_digit(b[i + 1]) {
            Some(x) => x,
            None => return None,
        };
        out.push(hi * 16 + lo);
        i = i + 2;
        assert(forall|k: int| 0 <= k < i ==> #[trigger] hex_digit_value(b@[k]) is Some);
    }
    assert(out@ =~= Seq::new(b@.len() / 2, |k: int| (hex_digit_value(b@[2 * k])->0 * 16 + hex_digit_value(b@[2 * k + 1])->0) as u8));
    Some(out)
}

/// Decodes a string of hexadecimal digit pairs, as found in QR codes (`code=...`).
pub fn decode_hex(s: &str) -> (r: Option<Vec<u8>>)
    ensures
        r matches Some(v) ==> hex_decoded(s.spec_bytes()) == Some(v@),
        r is None ==> hex_decoded(s.spec_bytes()) is None,
{
    decode_hex_bytes(s.as_bytes())
}

/// The uppercase hexadecimal digit for `d < 16`.
pub open spec fn hex_upper_char(d: nat) -> char {
    if d < 10 {
        ('0' as nat + d) as char
    } else {
        ('A' as nat + d - 10) as char
    }
}

/// `b` written as uppercase hexadecimal digit pairs (`{:02X}` for each byte).
pub open spec fn hex_upper(b: Seq<u8>) -> Seq<char> {
    Seq::new(2 * b.len(), |i: int| if i % 2 == 0 {
        hex_upper_char(b[i / 2] as nat / 16)
    } else {
        hex_upper_char(b[i / 2] as nat % 16)
    })
}

fn hex_upper_digit(d: u8) -> (c: char)
    requires
        d < 16,
    ensures
        c == hex_upper_char(d as nat),
{
    if d < 10 {
        ((d + 0x30) as char)
    } else {
        ((d - 10 + 0x41) as char)
    }
}

/// Writes `b` as uppercase hexadecimal digit pairs.
pub fn encode_hex_upper(b: &[u8]) -> (r: Vec<char>)
    ensures
        r@ == hex_upper(b@),
{
    let mut r: Vec<char> = Vec::new();
    let mut i: usize = 0;
    while i < b.len()
        invariant
            i <= b.len(),
            r@ == hex_upper(b@.take(i as int)),
        decreases b.len() - i,
    {
        let x = b[i];
        r.push(hex_upper_digit(x / 16));
        r.push(hex_upper_digit(x % 16));
        i = i + 1;
        assert(r@ =~= hex_upper(b@.take(i as int)));
    }
    assert(b@.take(i as int) =~= b@);
    r
}

} // verus!
