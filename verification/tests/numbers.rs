use coop_ofd::hex::{decode_hex, decode_hex_digit, encode_hex_upper};
use coop_ofd::num::{parse_i64, parse_sum, parse_u32, parse_u8, sum_fits, write_decimal, write_decimal_padded};
use coop_ofd::text::{from_chars, to_chars};

fn chars(s: &str) -> Vec<char> {
    to_chars(s)
}

#[test]
fn hex_digits_read_in_both_cases() {
    assert_eq!(decode_hex_digit(b'0'), Some(0));
    assert_eq!(decode_hex_digit(b'9'), Some(9));
    assert_eq!(decode_hex_digit(b'a'), Some(10));
    assert_eq!(decode_hex_digit(b'F'), Some(15));
    assert_eq!(decode_hex_digit(b'g'), None);
    assert_eq!(decode_hex_digit(b' '), None);
}

#[test]
fn hex_strings_decode_by_pairs() {
    assert_eq!(decode_hex("0aFF10"), Some(vec![0x0a, 0xff, 0x10]));
    assert_eq!(decode_hex(""), Some(vec![]));
    assert_eq!(decode_hex("abc"), None);
    assert_eq!(decode_hex("zz"), None);
}

#[test]
fn hex_encodes_upper_case() {
    let v = encode_hex_upper(&[0x0a, 0xff, 0x00]);
    assert_eq!(from_chars(&v), "0AFF00");
}

#[test]
fn sums_read_in_kopecks() {
    assert_eq!(parse_sum(&chars("12")), Some(1200));
    assert_eq!(parse_sum(&chars("12.5")), Some(1250));
    assert_eq!(parse_sum(&chars("12.05")), Some(1205));
    assert_eq!(parse_sum(&chars("0.99")), Some(99));
    assert_eq!(parse_sum(&chars("12.")), None);
    assert_eq!(parse_sum(&chars("1.234")), None);
    assert_eq!(parse_sum(&chars(".5")), None);
    assert_eq!(parse_sum(&chars("abc")), None);
}

#[test]
fn sums_too_large_are_told_apart() {
    assert!(sum_fits(&chars("12.05")));
    assert!(sum_fits(&chars("184467440737095516.15")));
    assert!(!sum_fits(&chars("184467440737095516.16")));
    assert!(!sum_fits(&chars("184467440737095517")));
    assert!(sum_fits(&chars("not a number")));
}

#[test]
fn integers_parse_as_std_does() {
    assert_eq!(parse_u32(&chars("4294967295")), Some(u32::MAX));
    assert_eq!(parse_u32(&chars("4294967296")), None);
    assert_eq!(parse_u32(&chars("+7")), Some(7));
    assert_eq!(parse_u32(&chars("")), None);
    assert_eq!(parse_u8(&chars("256")), None);
    assert_eq!(parse_i64(&chars("-9223372036854775808")), Some(i64::MIN));
    assert_eq!(parse_i64(&chars("-12")), Some(-12));
    assert_eq!(parse_i64(&chars("9223372036854775808")), None);
    assert_eq!(parse_i64(&chars("-")), None);
}

#[test]
fn decimals_write_as_display_does() {
    assert_eq!(from_chars(&write_decimal(0)), "0");
    assert_eq!(from_chars(&write_decimal(1205)), "1205");
    assert_eq!(from_chars(&write_decimal_padded(42, 7)), "0000042");
    assert_eq!(from_chars(&write_decimal_padded(123456789, 7)), "123456789");
}

#[test]
fn written_sums_read_back() {
    for n in [0u64, 5, 99, 100, 12305, 184467440737095516, u64::MAX] {
        let text = format!("{}.{:02}", n / 100, n % 100);
        assert_eq!(parse_sum(&to_chars(&text)), Some(n));
        if n <= u64::MAX / 100 {
            assert_eq!(parse_sum(&to_chars(&n.to_string())), Some(n * 100));
        }
    }
}
