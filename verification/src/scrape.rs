//! Reading a receipt's details off the page its QR code links to.
use vstd::prelude::*;
use crate::datetime::{chrono_datetime_parse, parse_datetime};
use crate::fields::{DATE_TIME, DOC_FISCAL_SIGN, DOC_NUM, DRIVE_NUM, PAYMENT_TYPE, TOTAL_SUM};
use crate::num::{parse_sum, parse_u32, parse_u64, parse_unsigned, sum_fits, sum_overflows, sum_value};
use crate::object::{has_tag, set_value, FieldValue, Object};
use crate::qr::{fiscal_sign_bytes, fp_bytes};
use crate::text::{all_ascii_digits, from_chars, has_prefix, is_all_digits, nth1_piece, second_piece, split_once, split_once_char, starts_with, to_chars, until, until_char};

verus! {

/// The text after the first `marker` on the page, up to the next tag
/// (`text.split(marker).nth(1)`, then `.split('<').next()`).
pub open spec fn page_value(text: Seq<char>, marker: Seq<char>) -> Option<Seq<char>> {
    match second_piece(text, marker) {
        Some(x) => Some(until_char(x, '<')),
        None => None,
    }
}

pub open spec fn drive_marker() -> Seq<char> {
    "<div>ФН №: <right>"@
}

pub open spec fn sign_marker() -> Seq<char> {
    "<div>ФП: <right>"@
}

pub open spec fn doc_marker() -> Seq<char> {
    "<div>ФД №: <right>"@
}

pub open spec fn date_marker() -> Seq<char> {
    "<div>Дата Время <right>"@
}

pub open spec fn total_marker() -> Seq<char> {
    "<big>ИТОГ <right>≡"@
}

/// The format of the date on the page.
pub open spec fn page_date_format() -> Seq<char> {
    "%d.%m.%Y %H:%M"@
}

/// The record after reading the page: the drive number (digits only), the fiscal
/// sign, the document number, a sale where the payment type is not known yet, the
/// date and the total, each where the page shows one that reads.
pub open spec fn page_record(o: Seq<(u16, FieldValue)>, text: Seq<char>) -> Seq<(u16, FieldValue)> {
    let o1 = match page_value(text, drive_marker()) {
        Some(x) => if all_ascii_digits(x) { set_value(o, DRIVE_NUM, FieldValue::Text(x)) } else { o },
        None => o,
    };
    let o2 = match page_value(text, sign_marker()) {
        Some(x) => match parse_unsigned(x, u64::MAX as nat) {
            Some(v) => set_value(o1, DOC_FISCAL_SIGN, FieldValue::Bytes(fp_bytes(v as u64))),
            None => o1,
        },
        None => o1,
    };
    let o3 = match page_value(text, doc_marker()) {
        Some(x) => match parse_unsigned(x, u32::MAX as nat) {
            Some(v) => set_value(o2, DOC_NUM, FieldValue::Num(v as u64)),
            None => o2,
        },
        None => o2,
    };
    let o4 = if has_tag(o3, PAYMENT_TYPE) { o3 } else { set_value(o3, PAYMENT_TYPE, FieldValue::Num(1)) };
    let o5 = match page_value(text, date_marker()) {
        Some(x) => match chrono_datetime_parse(x, page_date_format()) {
            Some(t) => set_value(o4, DATE_TIME, FieldValue::Time(t)),
            None => o4,
        },
        None => o4,
    };
    match page_value(text, total_marker()) {
        Some(x) => match sum_value(x) {
            Some(v) => set_value(o5, TOTAL_SUM, FieldValue::Num(v as u64)),
            None => o5,
        },
        None => o5,
    }
}

/// The total on the page, if there is one, can be counted in kopecks.
pub open spec fn page_sum_fits(text: Seq<char>) -> bool {
    page_value(text, total_marker()) matches Some(x) ==> !sum_overflows(x)
}

/// The text after the first `marker`, up to the next tag.
fn page_value_of(text: &[char], marker: &str) -> (r: Option<Vec<char>>)
    requires
        marker@.len() > 0,
    ensures
        r matches Some(v) ==> page_value(text@, marker@) == Some(v@),
        r is None ==> page_value(text@, marker@) is None,
{
    let m = to_chars(marker);
    match nth1_piece(text, m.as_slice()) {
        Some(x) => Some(until(x.as_slice(), '<')),
        None => None,
    }
}

/// Whether the total on the page, if any, can be counted in kopecks.
pub fn page_sum_ok(text: &str) -> (r: bool)
    ensures
        r == page_sum_fits(text@),
{
    let t = to_chars(text);
    proof {
        reveal_strlit("<big>ИТОГ <right>≡");
    }
    match page_value_of(t.as_slice(), "<big>ИТОГ <right>≡") {
        Some(x) => sum_fits(x.as_slice()),
        None => true,
    }
}

/// Fills `rec` with what the receipt's page shows.
pub fn fill_from_page(rec: &mut Object, text: &str)
    requires
        page_sum_fits(text@),
    ensures
        final(rec)@ == page_record(old(rec)@, text@),
{
    let t = to_chars(text);
    proof {
        reveal_strlit("<div>ФН №: <right>");
        reveal_strlit("<div>ФП: <right>");
        reveal_strlit("<div>ФД №: <right>");
        reveal_strlit("<div>Дата Время <right>");
        reveal_strlit("<big>ИТОГ <right>≡");
    }
    if let Some(x) = page_value_of(t.as_slice(), "<div>ФН №: <right>") {
        if is_all_digits(x.as_slice()) {
            rec.set_text(DRIVE_NUM, from_chars(x.as_slice()));
        }
    }
    if let Some(x) = page_value_of(t.as_slice(), "<div>ФП: <right>") {
        if let Some(v) = parse_u64(x.as_slice()) {
            let b = fiscal_sign_bytes(v);
            rec.set_bytes(DOC_FISCAL_SIGN, &b);
        }
    }
    if let Some(x) = page_value_of(t.as_slice(), "<div>ФД №: <right>") {
        if let Some(v) = parse_u32(x.as_slice()) {
            rec.set_num(DOC_NUM, v as u64);
        }
    }
    if !rec.contains(PAYMENT_TYPE) {
        rec.set_num(PAYMENT_TYPE, 1);
    }
    if let Some(x) = page_value_of(t.as_slice(), "<div>Дата Время <right>") {
        let xs = from_chars(x.as_slice());
        if let Some(d) = parse_datetime(xs.as_str(), "%d.%m.%Y %H:%M") {
            rec.set_time(DATE_TIME, d);
        }
    }
    if let Some(x) = page_value_of(t.as_slice(), "<big>ИТОГ <right>≡") {
        if let Some(v) = parse_sum(x.as_slice()) {
            rec.set_num(TOTAL_SUM, v);
        }
    }
}

/// The QR code does not identify the receipt well enough: the drive or document
/// number is missing, or the fiscal sign is and the code is a link.
pub open spec fn needs_page(o: Seq<(u16, FieldValue)>, q: Seq<char>) -> bool {
    !has_tag(o, DRIVE_NUM) || !has_tag(o, DOC_NUM) || (!has_tag(o, DOC_FISCAL_SIGN) && has_prefix(q, "http"@))
}

/// Whether the receipt's page has to be read.
pub fn page_needed(rec: &Object, q: &str) -> (r: bool)
    ensures
        r == needs_page(rec@, q@),
{
    !rec.contains(DRIVE_NUM) || !rec.contains(DOC_NUM) || (!rec.contains(DOC_FISCAL_SIGN) && starts_with(
        to_chars(q).as_slice(),
        to_chars("http").as_slice(),
    ))
}

/// The address of the receipt's page: the QR text, without a leading `ofd=...&`.
pub open spec fn page_address(q: Seq<char>) -> Seq<char> {
    if has_prefix(q, "ofd="@) {
        match split_once_char(q, '&') {
            Some(p) => p.1,
            None => q,
        }
    } else {
        q
    }
}

/// The address of the receipt's page.
pub fn page_url(q: &str) -> (r: String)
    ensures
        r@ == page_address(q@),
{
    let c = to_chars(q);
    if starts_with(c.as_slice(), to_chars("ofd=").as_slice()) {
        match split_once(c.as_slice(), '&') {
            Some((_, rest)) => from_chars(rest.as_slice()),
            None => from_chars(c.as_slice()),
        }
    } else {
        from_chars(c.as_slice())
    }
}

} // verus!
