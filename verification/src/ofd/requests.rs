//! What the operators are asked, and what is read back out of their answers.
use vstd::prelude::*;
use crate::datetime::{datetime_text, format_datetime, valid_datetime};
use crate::fields::{
    payment_type_code, payment_type_of, read_bytes, read_num, read_text, read_time, FfdVersion, DATE_TIME, DOC_FISCAL_SIGN, DOC_NUM,
    DRIVE_NUM, PAYMENT_TYPE, TOTAL_SUM, USER, USER_INN, RETAIL_PLACE, RETAIL_PLACE_ADDRESS, KKT_FFD_VER,
};
use crate::hex::{encode_hex_upper, hex_upper};
use crate::num::{decimal, write_decimal};
use crate::object::{set_value, DateTime, FieldValue, FiscalError, Object};
use crate::ofd::cache::{fiscal_sign_number, fiscal_sign_u32};
use crate::ofd::custom::IcomCode;
use crate::ofd::Error;
use crate::text::{find, find_first, from_chars, has_prefix, lemma_find_from_bounds, push_all, split_once, split_once_char, starts_with, sub_chars, to_chars, until, until_char};

verus! {

/// The text after the first occurrence of `pat` in `s` (`s.split_once(pat)`, second half).
pub open spec fn after_first(s: Seq<char>, pat: Seq<char>) -> Option<Seq<char>> {
    match find_first(s, pat) {
        Some(i) => Some(s.skip(i + pat.len())),
        None => None,
    }
}

/// The text after the first occurrence of `pat` in `s`.
pub fn after_pattern(s: &[char], pat: &[char]) -> (r: Option<Vec<char>>)
    ensures
        r matches Some(v) ==> after_first(s@, pat@) == Some(v@),
        r is None ==> after_first(s@, pat@) is None,
{
    let n = s.len();
    let m = pat.len();
    match find(s, pat, 0) {
        Some(i) => {
            proof {
                lemma_find_from_bounds(s@, pat@, 0);
                assert(crate::text::matches_at(s@, pat@, i as int));
                assert(i + pat@.len() <= s@.len());
            }
            let v = sub_chars(s, i + m, n);
            assert(v@ =~= s@.skip(i + pat@.len()));
            Some(v)
        },
        None => None,
    }
}

/// The page address ofd.ru shows a receipt at: `https://check.ofd.ru/rec/{fn}/{fd}/{fp}`.
pub open spec fn ofd_ru_address(o: Seq<(u16, FieldValue)>) -> Result<Seq<char>, Error> {
    match read_text(o, DRIVE_NUM) {
        Err(e) => Err(Error::FiscalData(e)),
        Ok(None) => Err(Error::MissingData("fn")),
        Ok(Some(f)) => match read_bytes(o, DOC_FISCAL_SIGN, 6) {
            Err(e) => Err(Error::FiscalData(e)),
            Ok(None) => Err(Error::MissingData("fp")),
            Ok(Some(fp)) => match read_num(o, DOC_NUM, u32::MAX as u64) {
                Err(e) => Err(Error::FiscalData(e)),
                Ok(None) => Err(Error::MissingData("fd")),
                Ok(Some(d)) => Ok("https://check.ofd.ru/rec/"@ + f + "/"@ + decimal(d as nat) + "/"@ + decimal(
                    fiscal_sign_number(fp) as nat,
                )),
            },
        },
    }
}

/// The page address ofd.ru shows the receipt of `rec` at.
pub fn ofd_ru_url(rec: &Object) -> (r: Result<String, Error>)
    ensures
        crate::ofd::cache::text_of(r) == ofd_ru_address(rec@),
{
    let f = match rec.get_text(DRIVE_NUM) {
        Err(e) => return Err(Error::FiscalData(e)),
        Ok(None) => return Err(Error::MissingData("fn")),
        Ok(Some(f)) => f,
    };
    let fp = match rec.get_bytes6(DOC_FISCAL_SIGN) {
        Err(e) => return Err(Error::FiscalData(e)),
        Ok(None) => return Err(Error::MissingData("fp")),
        Ok(Some(fp)) => fp,
    };
    let d = match rec.get_u32(DOC_NUM) {
        Err(e) => return Err(Error::FiscalData(e)),
        Ok(None) => return Err(Error::MissingData("fd")),
        Ok(Some(d)) => d,
    };
    let mut out = to_chars("https://check.ofd.ru/rec/");
    push_all(&mut out, to_chars(f.as_str()).as_slice());
    out.push('/');
    push_all(&mut out, write_decimal(d as u64).as_slice());
    out.push('/');
    push_all(&mut out, write_decimal(fiscal_sign_u32(fp) as u64).as_slice());
    proof {
        reveal_strlit("/");
    }
    let r = from_chars(out.as_slice());
    assert(r@ =~= ofd_ru_address(rec@)->Ok_0);
    Ok(r)
}

/// The document id on an ofd.ru receipt page: what follows the first
/// `/Document/RenderDoc?RawId=` (or else `/Document/ReceiptJsonDownload?DocId=`), up to
/// a quote or an `&`.
pub open spec fn ofd_ru_id(page: Seq<char>) -> Result<Seq<char>, Error> {
    let rest = match after_first(page, "/Document/RenderDoc?RawId="@) {
        Some(x) => Some(x),
        None => after_first(page, "/Document/ReceiptJsonDownload?DocId="@),
    };
    match rest {
        Some(x) => Ok(until_char(until_char(x, '"'), '&')),
        None => Err(Error::MissingData("id")),
    }
}

/// The document id on an ofd.ru receipt page.
pub fn ofd_ru_doc_id(page: &str) -> (r: Result<String, Error>)
    ensures
        crate::ofd::cache::text_of(r) == ofd_ru_id(page@),
{
    let p = to_chars(page);
    let rest = match after_pattern(p.as_slice(), to_chars("/Document/RenderDoc?RawId=").as_slice()) {
        Some(x) => x,
        None => match after_pattern(p.as_slice(), to_chars("/Document/ReceiptJsonDownload?DocId=").as_slice()) {
            Some(x) => x,
            None => return Err(Error::MissingData("id")),
        },
    };
    let a = until(rest.as_slice(), '"');
    let b = until(a.as_slice(), '&');
    Ok(from_chars(b.as_slice()))
}

/// The prefix of the address Инфоком answers with.
pub open spec fn icom24_prefix() -> Seq<char> {
    "https://receipt.taxcom.ru/v01/show?"@
}

/// The QR parameters in the address Инфоком answers with: it must be a Такском
/// receipt address, and what follows its `?` is read as a QR code.
pub open spec fn icom24_query(url: Seq<char>) -> Result<Seq<char>, Error> {
    if !has_prefix(url, icom24_prefix()) {
        Err(Error::ParseError)
    } else {
        match split_once_char(url, '?') {
            Some(p) => Ok(p.1),
            None => Err(Error::ParseError),
        }
    }
}

/// The QR parameters in the address Инфоком answers with.
pub fn icom24_params(url: &str) -> (r: Result<String, Error>)
    ensures
        crate::ofd::cache::text_of(r) == icom24_query(url@),
{
    let u = to_chars(url);
    if !starts_with(u.as_slice(), to_chars("https://receipt.taxcom.ru/v01/show?").as_slice()) {
        return Err(Error::ParseError);
    }
    match split_once(u.as_slice(), '?') {
        Some((_, q)) => Ok(from_chars(q.as_slice())),
        None => Err(Error::ParseError),
    }
}

/// What Инфоком is asked for a receipt: the card code in upper-case hex and the
/// date and time of the trip.
pub open spec fn icom24_request_spec(o: Seq<(u16, FieldValue)>, r: Result<(String, DateTime), Error>) -> bool {
    match read_bytes(o, IcomCode::TAG, 3) {
        Err(e) => r == Err::<(String, DateTime), Error>(Error::FiscalData(e)),
        Ok(None) => r == Err::<(String, DateTime), Error>(Error::MissingData("code")),
        Ok(Some(code)) => match read_time(o, DATE_TIME) {
            Err(e) => r == Err::<(String, DateTime), Error>(Error::FiscalData(e)),
            Ok(None) => r == Err::<(String, DateTime), Error>(Error::MissingData("date")),
            Ok(Some(t)) => r matches Ok(p) && p.0@ == hex_upper(code) && p.1 == t,
        },
    }
}

/// What Инфоком is asked for the receipt of `rec`.
pub fn icom24_request(rec: &Object) -> (r: Result<(String, DateTime), Error>)
    ensures
        icom24_request_spec(rec@, r),
{
    let code = match rec.get_bytes3(IcomCode::TAG) {
        Err(e) => return Err(Error::FiscalData(e)),
        Ok(None) => return Err(Error::MissingData("code")),
        Ok(Some(c)) => c,
    };
    let t = match rec.get_time(DATE_TIME) {
        Err(e) => return Err(Error::FiscalData(e)),
        Ok(None) => return Err(Error::MissingData("date")),
        Ok(Some(t)) => t,
    };
    let hex = encode_hex_upper(&code);
    Ok((from_chars(hex.as_slice()), t))
}

/// The address the private provider is asked at:
/// `{endpoint}?fn={fn}&i={fd}&fiscalSign={fp}&date={%Y-%m-%dT%H:%M:%S}&sum={sum}`.
/// The drive number, fiscal sign, date, sum and document number are needed, and
/// looked for in that order.
pub open spec fn private1_address(endpoint: Seq<char>, o: Seq<(u16, FieldValue)>) -> Result<Seq<char>, Error> {
    match read_text(o, DRIVE_NUM) {
        Err(e) => Err(Error::FiscalData(e)),
        Ok(None) => Err(Error::MissingData("fn")),
        Ok(Some(f)) => match read_bytes(o, DOC_FISCAL_SIGN, 6) {
            Err(e) => Err(Error::FiscalData(e)),
            Ok(None) => Err(Error::MissingData("fp")),
            Ok(Some(fp)) => match read_time(o, DATE_TIME) {
                Err(e) => Err(Error::FiscalData(e)),
                Ok(None) => Err(Error::MissingData("date")),
                Ok(Some(t)) => match read_num(o, TOTAL_SUM, u64::MAX) {
                    Err(e) => Err(Error::FiscalData(e)),
                    Ok(None) => Err(Error::MissingData("sum")),
                    Ok(Some(sum)) => match read_num(o, DOC_NUM, u32::MAX as u64) {
                        Err(e) => Err(Error::FiscalData(e)),
                        Ok(None) => Err(Error::MissingData("fd")),
                        Ok(Some(d)) => if valid_datetime(t) {
                            Ok(endpoint + "?fn="@ + f + "&i="@ + decimal(d as nat) + "&fiscalSign="@ + decimal(
                                fiscal_sign_number(fp) as nat,
                            ) + "&date="@ + datetime_text(t, "%Y-%m-%dT%H:%M:%S"@) + "&sum="@ + decimal(sum as nat))
                        } else {
                            Err(Error::FiscalData(FiscalError::InvalidFormat))
                        },
                    },
                },
            },
        },
    }
}

/// The address the private provider at `endpoint` is asked for the receipt of `rec`.
pub fn private1_url(endpoint: &str, rec: &Object) -> (r: Result<String, Error>)
    ensures
        crate::ofd::cache::text_of(r) == private1_address(endpoint@, rec@),
{
    let f = match rec.get_text(DRIVE_NUM) {
        Err(e) => return Err(Error::FiscalData(e)),
        Ok(None) => return Err(Error::MissingData("fn")),
        Ok(Some(f)) => f,
    };
    let fp = match rec.get_bytes6(DOC_FISCAL_SIGN) {
        Err(e) => return Err(Error::FiscalData(e)),
        Ok(None) => return Err(Error::MissingData("fp")),
        Ok(Some(fp)) => fp,
    };
    let t = match rec.get_time(DATE_TIME) {
        Err(e) => return Err(Error::FiscalData(e)),
        Ok(None) => return Err(Error::MissingData("date")),
        Ok(Some(t)) => t,
    };
    let sum = match rec.get_num(TOTAL_SUM, u64::MAX) {
        Err(e) => return Err(Error::FiscalData(e)),
        Ok(None) => return Err(Error::MissingData("sum")),
        Ok(Some(s)) => s,
    };
    let d = match rec.get_u32(DOC_NUM) {
        Err(e) => return Err(Error::FiscalData(e)),
        Ok(None) => return Err(Error::MissingData("fd")),
        Ok(Some(d)) => d,
    };
    let date = match format_datetime(t, "%Y-%m-%dT%H:%M:%S") {
        Some(x) => x,
        None => return Err(Error::FiscalData(FiscalError::InvalidFormat)),
    };
    let mut out = to_chars(endpoint);
    push_all(&mut out, to_chars("?fn=").as_slice());
    push_all(&mut out, to_chars(f.as_str()).as_slice());
    push_all(&mut out, to_chars("&i=").as_slice());
    push_all(&mut out, write_decimal(d as u64).as_slice());
    push_all(&mut out, to_chars("&fiscalSign=").as_slice());
    push_all(&mut out, write_decimal(fiscal_sign_u32(fp) as u64).as_slice());
    push_all(&mut out, to_chars("&date=").as_slice());
    push_all(&mut out, to_chars(date.as_str()).as_slice());
    push_all(&mut out, to_chars("&sum=").as_slice());
    push_all(&mut out, write_decimal(sum).as_slice());
    let r = from_chars(out.as_slice());
    assert(r@ =~= private1_address(endpoint@, rec@)->Ok_0);
    Ok(r)
}

/// The kinds of fiscal document the private provider answers with.
#[derive(Clone, Copy, Debug, PartialEq, Eq, Structural)]
pub enum DocKind {
    FiscalReport,
    FiscalReportCorrection,
    OpenShift,
    CurrentStateReport,
    Receipt,
    ReceiptCorrection,
    Bso,
    BsoCorrection,
    CloseShift,
    CloseArchive,
}

/// The kind of document the private provider's answer holds, by its `status` and
/// the numeric `code` of its data: a failed answer, or one without a known code, does
/// not read.
pub open spec fn private1_kind_spec(status: bool, code: Option<u64>) -> Result<DocKind, Error> {
    if !status {
        Err(Error::ParseError)
    } else {
        match code {
            Some(1) => Ok(DocKind::FiscalReport),
            Some(11) => Ok(DocKind::FiscalReportCorrection),
            Some(2) => Ok(DocKind::OpenShift),
            Some(21) => Ok(DocKind::CurrentStateReport),
            Some(3) => Ok(DocKind::Receipt),
            Some(31) => Ok(DocKind::ReceiptCorrection),
            Some(4) => Ok(DocKind::Bso),
            Some(41) => Ok(DocKind::BsoCorrection),
            Some(5) => Ok(DocKind::CloseShift),
            Some(6) => Ok(DocKind::CloseArchive),
            _ => Err(Error::ParseError),
        }
    }
}

/// The kind of document the private provider's answer holds.
pub fn private1_kind(status: bool, code: Option<u64>) -> (r: Result<DocKind, Error>)
    ensures
        r == private1_kind_spec(status, code),
{
    if !status {
        return Err(Error::ParseError);
    }
    match code {
        Some(1) => Ok(DocKind::FiscalReport),
        Some(11) => Ok(DocKind::FiscalReportCorrection),
        Some(2) => Ok(DocKind::OpenShift),
        Some(21) => Ok(DocKind::CurrentStateReport),
        Some(3) => Ok(DocKind::Receipt),
        Some(31) => Ok(DocKind::ReceiptCorrection),
        Some(4) => Ok(DocKind::Bso),
        Some(41) => Ok(DocKind::BsoCorrection),
        Some(5) => Ok(DocKind::CloseShift),
        Some(6) => Ok(DocKind::CloseArchive),
        _ => Err(Error::ParseError),
    }
}

/// The form Астрал is asked with: the drive number, document number and fiscal sign
/// (needed, and looked for in that order: drive number, fiscal sign, document number),
/// and a placeholder captcha answer.
pub open spec fn astral_form_spec(o: Seq<(u16, FieldValue)>, r: Result<Vec<(String, String)>, Error>) -> bool {
    match read_text(o, DRIVE_NUM) {
        Err(e) => r == Err::<Vec<(String, String)>, Error>(Error::FiscalData(e)),
        Ok(None) => r == Err::<Vec<(String, String)>, Error>(Error::MissingData("fn")),
        Ok(Some(f)) => match read_bytes(o, DOC_FISCAL_SIGN, 6) {
            Err(e) => r == Err::<Vec<(String, String)>, Error>(Error::FiscalData(e)),
            Ok(None) => r == Err::<Vec<(String, String)>, Error>(Error::MissingData("fp")),
            Ok(Some(fp)) => match read_num(o, DOC_NUM, u32::MAX as u64) {
                Err(e) => r == Err::<Vec<(String, String)>, Error>(Error::FiscalData(e)),
                Ok(None) => r == Err::<Vec<(String, String)>, Error>(Error::MissingData("fd")),
                Ok(Some(d)) => r matches Ok(v) && {
                    &&& v@.len() == 4
                    &&& v@[0].0@ == "fiscalDriveNumber"@ && v@[0].1@ == f
                    &&& v@[1].0@ == "fiscalDocumentNumber"@ && v@[1].1@ == decimal(d as nat)
                    &&& v@[2].0@ == "fiscalSign"@ && v@[2].1@ == decimal(fiscal_sign_number(fp) as nat)
                    &&& v@[3].0@ == "recaptcha_response"@ && v@[3].1@ == "a"@
                },
            },
        },
    }
}

/// The form Астрал is asked with for the receipt of `rec`.
pub fn astral_form(rec: &Object) -> (r: Result<Vec<(String, String)>, Error>)
    ensures
        astral_form_spec(rec@, r),
{
    let f = match rec.get_text(DRIVE_NUM) {
        Err(e) => return Err(Error::FiscalData(e)),
        Ok(None) => return Err(Error::MissingData("fn")),
        Ok(Some(f)) => f,
    };
    let fp = match rec.get_bytes6(DOC_FISCAL_SIGN) {
        Err(e) => return Err(Error::FiscalData(e)),
        Ok(None) => return Err(Error::MissingData("fp")),
        Ok(Some(fp)) => fp,
    };
    let d = match rec.get_u32(DOC_NUM) {
        Err(e) => return Err(Error::FiscalData(e)),
        Ok(None) => return Err(Error::MissingData("fd")),
        Ok(Some(d)) => d,
    };
    let mut v: Vec<(String, String)> = Vec::new();
    v.push((from_chars(to_chars("fiscalDriveNumber").as_slice()), f));
    v.push((from_chars(to_chars("fiscalDocumentNumber").as_slice()), from_chars(write_decimal(d as u64).as_slice())));
    v.push((from_chars(to_chars("fiscalSign").as_slice()), from_chars(write_decimal(fiscal_sign_u32(fp) as u64).as_slice())));
    v.push((from_chars(to_chars("recaptcha_response").as_slice()), from_chars(to_chars("a").as_slice())));
    Ok(v)
}

/// The FFD version Астрал writes as text: `1` or `1.0`, `1.05`, `1.1`, `1.2`.
pub open spec fn astral_version_spec(s: Seq<char>) -> Option<FfdVersion> {
    if s == "1"@ || s == "1.0"@ {
        Some(FfdVersion::V1)
    } else if s == "1.05"@ {
        Some(FfdVersion::V1_05)
    } else if s == "1.1"@ {
        Some(FfdVersion::V1_1)
    } else if s == "1.2"@ {
        Some(FfdVersion::V1_2)
    } else {
        None
    }
}

/// The FFD version Астрал writes as `s`.
pub fn astral_version(s: &str) -> (r: Option<FfdVersion>)
    ensures
        r == astral_version_spec(s@),
{
    let c = to_chars(s);
    if crate::text::chars_eq(c.as_slice(), to_chars("1").as_slice()) || crate::text::chars_eq(c.as_slice(), to_chars("1.0").as_slice()) {
        Some(FfdVersion::V1)
    } else if crate::text::chars_eq(c.as_slice(), to_chars("1.05").as_slice()) {
        Some(FfdVersion::V1_05)
    } else if crate::text::chars_eq(c.as_slice(), to_chars("1.1").as_slice()) {
        Some(FfdVersion::V1_1)
    } else if crate::text::chars_eq(c.as_slice(), to_chars("1.2").as_slice()) {
        Some(FfdVersion::V1_2)
    } else {
        None
    }
}

/// The fields Астрал gives beside the document, to fill what the document lacks:
/// the FFD version where it is known, the address and place of the shop, and the
/// name and INN of the seller, in that order.
pub open spec fn astral_fallback_spec(version: Seq<char>, address: Seq<char>, place: Seq<char>, user: Seq<char>, inn: Seq<char>) -> Seq<(u16, FieldValue)> {
    let o0 = Seq::<(u16, FieldValue)>::empty();
    let o1 = match astral_version_spec(version) {
        Some(v) => set_value(o0, KKT_FFD_VER, FieldValue::Num(crate::fields::ffd_version_code(v) as u64)),
        None => o0,
    };
    let o2 = set_value(o1, RETAIL_PLACE_ADDRESS, FieldValue::Text(address));
    let o3 = set_value(o2, RETAIL_PLACE, FieldValue::Text(place));
    let o4 = set_value(o3, USER, FieldValue::Text(user));
    set_value(o4, USER_INN, FieldValue::Text(inn))
}

/// The fields Астрал gives beside the document.
pub fn astral_fallback(version: &str, address: String, place: String, user: String, inn: String) -> (r: Object)
    ensures
        r@ == astral_fallback_spec(version@, address@, place@, user@, inn@),
{
    let mut o = Object::new();
    match astral_version(version) {
        Some(v) => {
            o.set_num(KKT_FFD_VER, v.code() as u64);
        },
        None => {},
    }
    o.set_text(RETAIL_PLACE_ADDRESS, address);
    o.set_text(RETAIL_PLACE, place);
    o.set_text(USER, user);
    o.set_text(USER_INN, inn);
    o
}

/// What the FNS mobile service is asked about a receipt.
pub struct TicketQuery {
    pub date: DateTime,
    /// The code of the payment type.
    pub operation_type: u8,
    pub sum: u64,
    /// The fiscal drive number.
    pub fs_id: String,
    /// The document number.
    pub document_id: u32,
    /// The fiscal sign as a decimal number.
    pub fiscal_sign: String,
}

/// What the FNS mobile service is asked about the receipt of a record: its date,
/// payment type, sum, drive number, document number and fiscal sign are needed, and
/// looked for in that order.
pub open spec fn ticket_query_spec(o: Seq<(u16, FieldValue)>, r: Result<TicketQuery, Error>) -> bool {
    match read_time(o, DATE_TIME) {
        Err(e) => r == Err::<TicketQuery, Error>(Error::FiscalData(e)),
        Ok(None) => r == Err::<TicketQuery, Error>(Error::MissingData("date")),
        Ok(Some(t)) => match read_num(o, PAYMENT_TYPE, u8::MAX as u64) {
            Err(e) => r == Err::<TicketQuery, Error>(Error::FiscalData(e)),
            Ok(None) => r == Err::<TicketQuery, Error>(Error::MissingData("operationType")),
            Ok(Some(pt)) => match read_num(o, TOTAL_SUM, u64::MAX) {
                Err(e) => r == Err::<TicketQuery, Error>(Error::FiscalData(e)),
                Ok(None) => r == Err::<TicketQuery, Error>(Error::MissingData("sum")),
                Ok(Some(sum)) => match read_text(o, DRIVE_NUM) {
                    Err(e) => r == Err::<TicketQuery, Error>(Error::FiscalData(e)),
                    Ok(None) => r == Err::<TicketQuery, Error>(Error::MissingData("fsId")),
                    Ok(Some(f)) => match read_num(o, DOC_NUM, u32::MAX as u64) {
                        Err(e) => r == Err::<TicketQuery, Error>(Error::FiscalData(e)),
                        Ok(None) => r == Err::<TicketQuery, Error>(Error::MissingData("documentId")),
                        Ok(Some(d)) => match read_bytes(o, DOC_FISCAL_SIGN, 6) {
                            Err(e) => r == Err::<TicketQuery, Error>(Error::FiscalData(e)),
                            Ok(None) => r == Err::<TicketQuery, Error>(Error::MissingData("fiscalSign")),
                            Ok(Some(fp)) => r matches Ok(q) && {
                                &&& q.date == t
                                &&& q.operation_type == payment_type_code(payment_type_of(pt as u8))
                                &&& q.sum == sum
                                &&& q.fs_id@ == f
                                &&& q.document_id as u64 == d
                                &&& q.fiscal_sign@ == decimal(fiscal_sign_number(fp) as nat)
                            },
                        },
                    },
                },
            },
        },
    }
}

/// What the FNS mobile service is asked about the receipt of `rec`.
pub fn ticket_query(rec: &Object) -> (r: Result<TicketQuery, Error>)
    ensures
        ticket_query_spec(rec@, r),
{
    let t = match rec.get_time(DATE_TIME) {
        Err(e) => return Err(Error::FiscalData(e)),
        Ok(None) => return Err(Error::MissingData("date")),
        Ok(Some(t)) => t,
    };
    let pt = match rec.get_u8(PAYMENT_TYPE) {
        Err(e) => return Err(Error::FiscalData(e)),
        Ok(None) => return Err(Error::MissingData("operationType")),
        Ok(Some(c)) => crate::fields::PaymentType::from_code(c),
    };
    let sum = match rec.get_num(TOTAL_SUM, u64::MAX) {
        Err(e) => return Err(Error::FiscalData(e)),
        Ok(None) => return Err(Error::MissingData("sum")),
        Ok(Some(s)) => s,
    };
    let f = match rec.get_text(DRIVE_NUM) {
        Err(e) => return Err(Error::FiscalData(e)),
        Ok(None) => return Err(Error::MissingData("fsId")),
        Ok(Some(f)) => f,
    };
    let d = match rec.get_u32(DOC_NUM) {
        Err(e) => return Err(Error::FiscalData(e)),
        Ok(None) => return Err(Error::MissingData("documentId")),
        Ok(Some(d)) => d,
    };
    let fp = match rec.get_bytes6(DOC_FISCAL_SIGN) {
        Err(e) => return Err(Error::FiscalData(e)),
        Ok(None) => return Err(Error::MissingData("fiscalSign")),
        Ok(Some(fp)) => fp,
    };
    Ok(TicketQuery {
        date: t,
        operation_type: pt.code(),
        sum,
        fs_id: f,
        document_id: d,
        fiscal_sign: from_chars(write_decimal(fiscal_sign_u32(fp) as u64).as_slice()),
    })
}

/// The characters of a phone number that are kept: digits and `+`.
pub open spec fn phone_chars(s: Seq<char>) -> Seq<char> {
    s.filter(|c: char| ('0' <= c && c <= '9') || c == '+')
}

/// A phone number as typed, with everything but digits and `+` dropped.
pub fn clean_phone(s: &str) -> (r: String)
    ensures
        r@ == phone_chars(s@),
{
    let c = to_chars(s);
    let mut out: Vec<char> = Vec::new();
    let mut i: usize = 0;
    while i < c.len()
        invariant
            i <= c@.len(),
            out@ == phone_chars(c@.take(i as int)),
        decreases c@.len() - i,
    {
        proof {
            assert(c@.take(i + 1).drop_last() =~= c@.take(i as int));
            reveal(Seq::filter);
        }
        let ch = c[i];
        if ('0' <= ch && ch <= '9') || ch == '+' {
            out.push(ch);
        }
        i = i + 1;
    }
    assert(c@.take(i as int) =~= c@);
    from_chars(out.as_slice())
}

/// What to do next while asking the FNS mobile service with a stored login.
#[derive(Clone, Copy, Debug, PartialEq, Eq, Structural)]
pub enum AuthAction {
    /// Send the request with the stored session.
    Send,
    /// The login was refused: refresh the session, then try again.
    Refresh,
    /// The answer is the one to use.
    Done,
    /// Send the user to log in (`ofd/irkkt-mobile/auth`).
    Login,
}

/// Before attempt `attempt` (of two): send where a session is stored and the request
/// is still at hand; otherwise the user has to log in.
pub open spec fn before_attempt_spec(attempt: u32, have_session: bool, have_request: bool) -> AuthAction {
    if attempt < 2 && have_session && have_request {
        AuthAction::Send
    } else {
        AuthAction::Login
    }
}

/// What to do before attempt `attempt`.
pub fn before_attempt(attempt: u32, have_session: bool, have_request: bool) -> (r: AuthAction)
    ensures
        r == before_attempt_spec(attempt, have_session, have_request),
{
    if attempt < 2 && have_session && have_request {
        AuthAction::Send
    } else {
        AuthAction::Login
    }
}

/// After an answer: an answer other than 401 Unauthorized is the one to use; a 401
/// asks for a refreshed session.
pub fn after_answer(status: u16) -> (r: AuthAction)
    ensures
        r == (if status == 401 { AuthAction::Refresh } else { AuthAction::Done }),
{
    if status == 401 {
        AuthAction::Refresh
    } else {
        AuthAction::Done
    }
}

/// The document-length warnings of an ofd.ru document.
#[derive(Clone, Copy, Debug, PartialEq, Eq, Structural)]
pub enum SchemeWarnings {
    Unknown,
    /// No warning.
    NoWarnings,
    /// The document is near its largest length.
    MaxDocLengthWarning,
    /// The document is near its smallest length.
    MinDocLengthWarning,
    /// The document is of a fixed length.
    FixedDocLengthWarning,
}

/// The warning with the code `code`: 0 to 3, anything else unknown.
pub open spec fn scheme_warnings_of(code: u8) -> SchemeWarnings {
    if code == 0 {
        SchemeWarnings::NoWarnings
    } else if code == 1 {
        SchemeWarnings::MaxDocLengthWarning
    } else if code == 2 {
        SchemeWarnings::MinDocLengthWarning
    } else if code == 3 {
        SchemeWarnings::FixedDocLengthWarning
    } else {
        SchemeWarnings::Unknown
    }
}

impl SchemeWarnings {
    /// The warning with the code `code`.
    pub fn from_code(code: u8) -> (r: SchemeWarnings)
        ensures
            r == scheme_warnings_of(code),
    {
        if code == 0 {
            SchemeWarnings::NoWarnings
        } else if code == 1 {
            SchemeWarnings::MaxDocLengthWarning
        } else if code == 2 {
            SchemeWarnings::MinDocLengthWarning
        } else if code == 3 {
            SchemeWarnings::FixedDocLengthWarning
        } else {
            SchemeWarnings::Unknown
        }
    }
}

} // verus!
