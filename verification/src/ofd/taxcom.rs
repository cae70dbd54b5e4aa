//! Такском: finding a receipt by fiscal sign and sum, and reading its page.
use vstd::prelude::*;
use vstd::utf8::{decode_utf8, valid_utf8};
use crate::datetime::{chrono_datetime_parse, parse_datetime};
use crate::fields::{read_bytes, read_num, read_time, DATE_TIME, DOC_FISCAL_SIGN, DOC_NUM, DRIVE_NUM, TOTAL_SUM};
use crate::num::{decimal, parse_sum, parse_u32, parse_u64, parse_unsigned, sum_fits, sum_overflows, sum_value, write_decimal, write_decimal_padded, zero_pad};
use crate::object::{set_value, DateTime, FieldValue, Object};
use crate::ofd::cache::{fiscal_sign_number, fiscal_sign_u32};
use crate::ofd::Error;
use crate::qr::{fiscal_sign_bytes, fp_bytes};
use crate::scrape::page_value;
use crate::text::{from_chars, nth1_piece, push_all, to_chars, until};

verus! {

/// What `std::str::from_utf8` gives for `data`: the text, where the bytes are UTF-8.
#[verifier::external_body]
fn utf8_text(data: &[u8]) -> (r: Option<String>)
    ensures
        r is Some <==> valid_utf8(data@),
        r matches Some(s) ==> s@ == decode_utf8(data@),
{
    std::str::from_utf8(data).ok().map(|s| s.to_owned())
}

/// The marker before the value of field `tag` on a Такском receipt page:
/// `receipt-value-<tag>">`.
pub open spec fn taxcom_marker(tag: u16) -> Seq<char> {
    "receipt-value-"@ + decimal(tag as nat) + "\">"@
}

/// The value of field `tag` on a Такском receipt page.
pub open spec fn taxcom_value(s: Seq<char>, tag: u16) -> Option<Seq<char>> {
    page_value(s, taxcom_marker(tag))
}

/// The format of dates on a Такском receipt page.
pub open spec fn taxcom_date_format() -> Seq<char> {
    "%d.%m.%y %H:%M"@
}

/// The total on the page, if there is one, can be counted in kopecks.
pub open spec fn taxcom_sum_fits(data: Seq<u8>) -> bool {
    valid_utf8(data) ==> (taxcom_value(decode_utf8(data), 1020) matches Some(x) ==> !sum_overflows(x))
}

/// The last two steps of reading a Такском page: the total, then the date.
pub open spec fn taxcom_page_tail(o: Seq<(u16, FieldValue)>, s: Seq<char>) -> (Seq<(u16, FieldValue)>, Result<(), Error>) {
    match taxcom_value(s, 1020) {
        None => (o, Err(Error::MissingData("s"))),
        Some(sm) => match sum_value(sm) {
            None => (o, Err(Error::MissingData("s"))),
            Some(sv) => {
                let o1 = set_value(o, TOTAL_SUM, FieldValue::Num(sv as u64));
                match taxcom_value(s, 1012) {
                    None => (o1, Err(Error::MissingData("t"))),
                    Some(t) => match chrono_datetime_parse(t, taxcom_date_format()) {
                        None => (o1, Err(Error::MissingData("t"))),
                        Some(tv) => (set_value(o1, DATE_TIME, FieldValue::Time(tv)), Ok(())),
                    },
                }
            },
        },
    }
}

/// The middle steps of reading a Такском page: the drive number, then the document
/// number, then the rest.
pub open spec fn taxcom_page_mid(o: Seq<(u16, FieldValue)>, s: Seq<char>) -> (Seq<(u16, FieldValue)>, Result<(), Error>) {
    match taxcom_value(s, 1041) {
        None => (o, Err(Error::MissingData("fn"))),
        Some(f) => {
            let o1 = set_value(o, DRIVE_NUM, FieldValue::Text(f));
            match taxcom_value(s, 1040) {
                None => (o1, Err(Error::MissingData("i"))),
                Some(i) => match parse_unsigned(i, u32::MAX as nat) {
                    None => (o1, Err(Error::MissingData("i"))),
                    Some(iv) => taxcom_page_tail(set_value(o1, DOC_NUM, FieldValue::Num(iv as u64)), s),
                },
            }
        },
    }
}

/// What reading a Такском receipt page does: the fiscal sign, drive number, document
/// number, total and date are set in that order, and the first that is missing or
/// does not read stops it with an error naming it (what was set before stays).
pub open spec fn taxcom_page(o: Seq<(u16, FieldValue)>, data: Seq<u8>) -> (Seq<(u16, FieldValue)>, Result<(), Error>) {
    if !valid_utf8(data) {
        (o, Err(Error::MissingData("response")))
    } else {
        let s = decode_utf8(data);
        match taxcom_value(s, 1077) {
            None => (o, Err(Error::MissingData("fp"))),
            Some(fp) => match parse_unsigned(fp, u64::MAX as nat) {
                None => (o, Err(Error::MissingData("fp"))),
                Some(fpv) => taxcom_page_mid(set_value(o, DOC_FISCAL_SIGN, FieldValue::Bytes(fp_bytes(fpv as u64))), s),
            },
        }
    }
}

/// The value of field `tag` on the page `s`.
fn taxcom_value_of(s: &[char], tag: u16) -> (r: Option<Vec<char>>)
    ensures
        r matches Some(v) ==> taxcom_value(s@, tag) == Some(v@),
        r is None ==> taxcom_value(s@, tag) is None,
{
    let mut m = to_chars("receipt-value-");
    let d = write_decimal(tag as u64);
    push_all(&mut m, d.as_slice());
    let end = to_chars("\">");
    push_all(&mut m, end.as_slice());
    proof {
        reveal_strlit("receipt-value-");
        reveal_strlit("\">");
        assert(m@ =~= taxcom_marker(tag));
    }
    match nth1_piece(s, m.as_slice()) {
        Some(x) => Some(until(x.as_slice(), '<')),
        None => None,
    }
}

/// Whether the total on a Такском page, if any, can be counted in kopecks.
pub fn taxcom_sum_ok(data: &[u8]) -> (r: bool)
    ensures
        r == taxcom_sum_fits(data@),
{
    match utf8_text(data) {
        None => true,
        Some(text) => {
            let s = to_chars(text.as_str());
            match taxcom_value_of(s.as_slice(), 1020) {
                Some(x) => sum_fits(x.as_slice()),
                None => true,
            }
        },
    }
}

/// Reads a Такском receipt page into `rec`.
pub fn taxcom_parse(data: &[u8], rec: &mut Object) -> (r: Result<(), Error>)
    requires
        taxcom_sum_fits(data@),
    ensures
        (final(rec)@, r) == taxcom_page(old(rec)@, data@),
{
    let text = match utf8_text(data) {
        Some(t) => t,
        None => return Err(Error::MissingData("response")),
    };
    let s = to_chars(text.as_str());
    let fp = match taxcom_value_of(s.as_slice(), 1077) {
        Some(x) => match parse_u64(x.as_slice()) {
            Some(v) => v,
            None => return Err(Error::MissingData("fp")),
        },
        None => return Err(Error::MissingData("fp")),
    };
    let b = fiscal_sign_bytes(fp);
    rec.set_bytes(DOC_FISCAL_SIGN, &b);
    let f = match taxcom_value_of(s.as_slice(), 1041) {
        Some(x) => x,
        None => return Err(Error::MissingData("fn")),
    };
    rec.set_text(DRIVE_NUM, from_chars(f.as_slice()));
    let i = match taxcom_value_of(s.as_slice(), 1040) {
        Some(x) => match parse_u32(x.as_slice()) {
            Some(v) => v,
            None => return Err(Error::MissingData("i")),
        },
        None => return Err(Error::MissingData("i")),
    };
    rec.set_num(DOC_NUM, i as u64);
    let sum = match taxcom_value_of(s.as_slice(), 1020) {
        Some(x) => match parse_sum(x.as_slice()) {
            Some(v) => v,
            None => return Err(Error::MissingData("s")),
        },
        None => return Err(Error::MissingData("s")),
    };
    rec.set_num(TOTAL_SUM, sum);
    let t = match taxcom_value_of(s.as_slice(), 1012) {
        Some(x) => {
            let xs = from_chars(x.as_slice());
            match parse_datetime(xs.as_str(), "%d.%m.%y %H:%M") {
                Some(v) => v,
                None => return Err(Error::MissingData("t")),
            }
        },
        None => return Err(Error::MissingData("t")),
    };
    rec.set_time(DATE_TIME, t);
    Ok(())
}

/// The search form Такском is asked with: the fiscal sign as a number, the sum as
/// `rubles.kopecks`, and the day of the receipt where it is known.
pub struct TaxcomForm {
    pub fiscal_sign: u32,
    pub summ: String,
    pub receipt_date_filter: Option<DateTime>,
}

/// `{}.{:02}` of a sum in kopecks.
pub open spec fn rubles(sum: u64) -> Seq<char> {
    decimal((sum / 100) as nat) + "."@ + zero_pad(decimal((sum % 100) as nat), 2)
}

/// The search form for a record: its fiscal sign and total are needed; its date, where
/// it reads, narrows the search.
pub open spec fn taxcom_form_spec(o: Seq<(u16, FieldValue)>, r: Result<TaxcomForm, Error>) -> bool {
    match read_bytes(o, DOC_FISCAL_SIGN, 6) {
        Err(e) => r == Err::<TaxcomForm, Error>(Error::FiscalData(e)),
        Ok(None) => r == Err::<TaxcomForm, Error>(Error::MissingData("fp")),
        Ok(Some(fp)) => match read_num(o, TOTAL_SUM, u64::MAX) {
            Err(e) => r == Err::<TaxcomForm, Error>(Error::FiscalData(e)),
            Ok(None) => r == Err::<TaxcomForm, Error>(Error::MissingData("s")),
            Ok(Some(sum)) => r matches Ok(f) && {
                &&& f.fiscal_sign == fiscal_sign_number(fp)
                &&& f.summ@ == rubles(sum)
                &&& f.receipt_date_filter == match read_time(o, DATE_TIME) {
                    Ok(Some(t)) => Some(DateTime { hour: 0, minute: 0, second: 0, ..t }),
                    _ => None,
                }
            },
        },
    }
}

/// The search form Такском is asked with for `rec`.
pub fn taxcom_form(rec: &Object) -> (r: Result<TaxcomForm, Error>)
    ensures
        taxcom_form_spec(rec@, r),
{
    let fp = match rec.get_bytes6(DOC_FISCAL_SIGN) {
        Err(e) => return Err(Error::FiscalData(e)),
        Ok(None) => return Err(Error::MissingData("fp")),
        Ok(Some(fp)) => fp,
    };
    let sum = match rec.get_num(TOTAL_SUM, u64::MAX) {
        Err(e) => return Err(Error::FiscalData(e)),
        Ok(None) => return Err(Error::MissingData("s")),
        Ok(Some(s)) => s,
    };
    let mut summ = write_decimal(sum / 100);
    summ.push('.');
    let k = write_decimal_padded(sum % 100, 2);
    push_all(&mut summ, k.as_slice());
    proof {
        reveal_strlit(".");
        assert(summ@ =~= rubles(sum));
    }
    let date = match rec.get_time(DATE_TIME) {
        Ok(Some(t)) => Some(DateTime { hour: 0, minute: 0, second: 0, ..t }),
        _ => None,
    };
    Ok(TaxcomForm { fiscal_sign: fiscal_sign_u32(fp), summ: from_chars(summ.as_slice()), receipt_date_filter: date })
}

/// The receipt id Такском's search lands on: where the answer's address path ends
/// in `/show`, the value of the first `id` parameter of its query.
pub open spec fn search_result_id(path: Seq<char>, query: Seq<(Seq<char>, Seq<char>)>) -> Option<Seq<char>> {
    if path.len() >= 5 && path.skip(path.len() - 5) == "/show"@ {
        crate::form::form_value(query, "id"@)
    } else {
        None
    }
}

/// The receipt id Такском's search lands on, from the path and query parameters of
/// the address it answers with.
pub fn search_id(path: &str, query: &[(String, String)]) -> (r: Option<String>)
    ensures
        r matches Some(v) ==> search_result_id(path@, crate::form::form_view(query@)) == Some(v@),
        r is None ==> search_result_id(path@, crate::form::form_view(query@)) is None,
{
    let p = to_chars(path);
    let show = to_chars("/show");
    proof {
        reveal_strlit("/show");
    }
    if p.len() < 5 {
        return None;
    }
    let tail = crate::text::sub_chars(p.as_slice(), p.len() - 5, p.len());
    assert(tail@ =~= p@.skip(p@.len() - 5));
    if !crate::text::chars_eq(tail.as_slice(), show.as_slice()) {
        return None;
    }
    match crate::form::get(query, "id") {
        Some(v) => Some(v.clone()),
        None => None,
    }
}

} // verus!
