//! The names under which fetched documents are kept.
use vstd::prelude::*;
use crate::datetime::{datetime_text, format_datetime, valid_datetime};
use crate::fields::{read_bytes, read_num, read_text, read_time, DATE_TIME, DOC_FISCAL_SIGN, DOC_NUM, DRIVE_NUM, TOTAL_SUM};
use crate::hex::{encode_hex_upper, hex_upper};
use crate::num::{decimal, write_decimal, write_decimal_padded, zero_pad};
use crate::object::{FieldValue, FiscalError, Object};
use crate::ofd::custom::IcomCode;
use crate::ofd::Error;
use crate::text::{from_chars, push_all, to_chars};

verus! {

/// The view of a text result.
pub open spec fn text_of(r: Result<String, Error>) -> Result<Seq<char>, Error> {
    match r {
        Ok(s) => Ok(s@),
        Err(e) => Err(e),
    }
}

/// The fiscal sign as the big-endian number of its last four bytes, as operators
/// print it.
pub open spec fn fiscal_sign_number(fp: Seq<u8>) -> u32 {
    (fp[2] as int * 0x1000000 + fp[3] as int * 0x10000 + fp[4] as int * 0x100 + fp[5] as int) as u32
}

/// `u32::from_be_bytes` of the last four bytes of a six-byte fiscal sign.
pub fn fiscal_sign_u32(fp: [u8; 6]) -> (r: u32)
    ensures
        r == fiscal_sign_number(fp@),
{
    (fp[2] as u32) * 0x1000000 + (fp[3] as u32) * 0x10000 + (fp[4] as u32) * 0x100 + (fp[5] as u32)
}

/// `{drive_num}_{doc_num:07}`: the name most providers keep a document under.
pub open spec fn default_cache_id(rec: Seq<(u16, FieldValue)>) -> Result<Seq<char>, Error> {
    match read_text(rec, DRIVE_NUM) {
        Err(e) => Err(Error::FiscalData(e)),
        Ok(None) => Err(Error::MissingData("fn")),
        Ok(Some(f)) => match read_num(rec, DOC_NUM, u32::MAX as u64) {
            Err(e) => Err(Error::FiscalData(e)),
            Ok(None) => Err(Error::MissingData("fd")),
            Ok(Some(d)) => Ok(f + "_"@ + zero_pad(decimal(d as nat), 7)),
        },
    }
}

/// `taxcom_{fiscal_sign}_{sum}`: Такском finds documents by fiscal sign and sum.
pub open spec fn taxcom_cache_id(rec: Seq<(u16, FieldValue)>) -> Result<Seq<char>, Error> {
    match read_bytes(rec, DOC_FISCAL_SIGN, 6) {
        Err(e) => Err(Error::FiscalData(e)),
        Ok(None) => Err(Error::MissingData("fp")),
        Ok(Some(fp)) => match read_num(rec, TOTAL_SUM, u64::MAX) {
            Err(e) => Err(Error::FiscalData(e)),
            Ok(None) => Err(Error::MissingData("s")),
            Ok(Some(s)) => Ok("taxcom_"@ + decimal(fiscal_sign_number(fp) as nat) + "_"@ + decimal(s as nat)),
        },
    }
}

/// `icom24_{date}_{code in hex}`: Инфоком finds documents by card code and day.
pub open spec fn icom24_cache_id(rec: Seq<(u16, FieldValue)>) -> Result<Seq<char>, Error> {
    match read_bytes(rec, IcomCode::TAG, 3) {
        Err(e) => Err(Error::FiscalData(e)),
        Ok(None) => Err(Error::MissingData("code")),
        Ok(Some(code)) => match read_time(rec, DATE_TIME) {
            Err(e) => Err(Error::FiscalData(e)),
            Ok(None) => Err(Error::MissingData("date")),
            Ok(Some(t)) => if valid_datetime(t) {
                Ok(datetime_text(t, "icom24_%Y-%m-%d_"@) + hex_upper(code))
            } else {
                Err(Error::FiscalData(FiscalError::InvalidFormat))
            },
        },
    }
}

/// The name a document is kept under by most providers.
pub fn default_cache_id_of(rec: &Object) -> (r: Result<String, Error>)
    ensures
        text_of(r) == default_cache_id(rec@),
{
    let f = match rec.get_text(DRIVE_NUM) {
        Err(e) => return Err(Error::FiscalData(e)),
        Ok(None) => return Err(Error::MissingData("fn")),
        Ok(Some(f)) => f,
    };
    let d = match rec.get_u32(DOC_NUM) {
        Err(e) => return Err(Error::FiscalData(e)),
        Ok(None) => return Err(Error::MissingData("fd")),
        Ok(Some(d)) => d,
    };
    let mut out = to_chars(f.as_str());
    let sep = to_chars("_");
    push_all(&mut out, sep.as_slice());
    let num = write_decimal_padded(d as u64, 7);
    push_all(&mut out, num.as_slice());
    Ok(from_chars(out.as_slice()))
}

/// The name Такском documents are kept under.
pub fn taxcom_cache_id_of(rec: &Object) -> (r: Result<String, Error>)
    ensures
        text_of(r) == taxcom_cache_id(rec@),
{
    let fp = match rec.get_bytes6(DOC_FISCAL_SIGN) {
        Err(e) => return Err(Error::FiscalData(e)),
        Ok(None) => return Err(Error::MissingData("fp")),
        Ok(Some(fp)) => fp,
    };
    let s = match rec.get_num(TOTAL_SUM, u64::MAX) {
        Err(e) => return Err(Error::FiscalData(e)),
        Ok(None) => return Err(Error::MissingData("s")),
        Ok(Some(s)) => s,
    };
    let mut out = to_chars("taxcom_");
    let sign = write_decimal(fiscal_sign_u32(fp) as u64);
    push_all(&mut out, sign.as_slice());
    let sep = to_chars("_");
    push_all(&mut out, sep.as_slice());
    let sum = write_decimal(s);
    push_all(&mut out, sum.as_slice());
    Ok(from_chars(out.as_slice()))
}

/// The name Инфоком documents are kept under.
pub fn icom24_cache_id_of(rec: &Object) -> (r: Result<String, Error>)
    ensures
        text_of(r) == icom24_cache_id(rec@),
{
    let code = match rec.get_bytes3(IcomCode::TAG) {
        Err(e) => return Err(Error::FiscalData(e)),
        Ok(None) => return Err(Error::MissingData("code")),
        Ok(Some(c)) => c,
    };
    let t = match rec.get_time(DATE_TIME) {
        Err(e) => return Err(Error::FiscalData(e)),
        Ok(None) => return Err(Error::MissingData("date")),
        Ok(Some(t)) => t,
    };
    let day = match format_datetime(t, "icom24_%Y-%m-%d_") {
        Some(s) => s,
        None => return Err(Error::FiscalData(FiscalError::InvalidFormat)),
    };
    let mut out = to_chars(day.as_str());
    let hex = encode_hex_upper(&code);
    push_all(&mut out, hex.as_slice());
    Ok(from_chars(out.as_slice()))
}

/// The other name a document fetched under `cache_id` is kept under: its final name
/// `{fn}_{i:07}`, where that differs from `cache_id`.
pub fn alias_of(cache_id: &str, doc: &Object) -> (r: Result<Option<String>, Error>)
    ensures
        match default_cache_id(doc@) {
            Err(e) => r == Err::<Option<String>, Error>(e),
            Ok(f) => if f == cache_id@ {
                r == Ok::<Option<String>, Error>(None)
            } else {
                r matches Ok(Some(s)) && s@ == f
            },
        },
{
    let f = default_cache_id_of(doc)?;
    if crate::text::chars_eq(to_chars(f.as_str()).as_slice(), to_chars(cache_id).as_slice()) {
        Ok(None)
    } else {
        Ok(Some(f))
    }
}

} // verus!
