//! Receipts kept in the first, JSON format of this application, and moving them to
//! the fiscal-data format.
use vstd::prelude::*;
use crate::datetime::{chrono_datetime_parse, parse_datetime};
use crate::fields::{DATE_TIME, DOC_FISCAL_SIGN, DOC_NUM, DRIVE_NUM, PAYMENT_TYPE, TOTAL_SUM};
use crate::num::{parse_u32, parse_u64, parse_unsigned};
use crate::object::{set_value, DateTime, FieldValue, Object};
use crate::ofd::custom::Id;
use crate::qr::{fiscal_sign_bytes, fp_bytes};
use crate::text::{from_chars, split_all, split_char, to_chars};

verus! {

/// The operators that receipts of the first format came from.
#[derive(Clone, Copy, Debug, Default, PartialEq, Eq, Structural)]
pub enum Ofd {
    Beeline,
    Magnit,
    #[default]
    PlatformaOfd,
    Taxcom,
}

/// The format the kept receipts are in: the first, JSON one, or that of the FNS
/// (fiscal-data). It is kept as a number: 1 for the FNS format, anything else for JSON.
#[derive(Clone, Copy, Debug, PartialEq, Eq, Structural)]
pub enum ReceiptFormatVersion {
    Json,
    Fns,
}

/// The version a stored number stands for.
pub open spec fn version_of_number(n: u8) -> ReceiptFormatVersion {
    if n == 1 {
        ReceiptFormatVersion::Fns
    } else {
        ReceiptFormatVersion::Json
    }
}

/// The number a version is stored as.
pub open spec fn version_number(v: ReceiptFormatVersion) -> u8 {
    match v {
        ReceiptFormatVersion::Json => 0u8,
        ReceiptFormatVersion::Fns => 1u8,
    }
}

/// A version stored as its number reads back as the same version.
pub proof fn lemma_version_number_round_trip(v: ReceiptFormatVersion)
    ensures
        version_of_number(version_number(v)) == v,
{
}

impl Default for ReceiptFormatVersion {
    /// Receipts are in the JSON format until they are moved.
    fn default() -> (r: Self)
        ensures
            r == ReceiptFormatVersion::Json,
    {
        ReceiptFormatVersion::Json
    }
}

impl From<u8> for ReceiptFormatVersion {
    fn from(value: u8) -> (r: Self) {
        if value == 1 {
            ReceiptFormatVersion::Fns
        } else {
            ReceiptFormatVersion::Json
        }
    }
}

impl vstd::std_specs::convert::FromSpecImpl<u8> for ReceiptFormatVersion {
    open spec fn obeys_from_spec() -> bool {
        true
    }

    open spec fn from_spec(v: u8) -> Self {
        version_of_number(v)
    }
}

impl From<ReceiptFormatVersion> for u8 {
    fn from(value: ReceiptFormatVersion) -> (r: Self) {
        match value {
            ReceiptFormatVersion::Json => 0,
            ReceiptFormatVersion::Fns => 1,
        }
    }
}

impl vstd::std_specs::convert::FromSpecImpl<ReceiptFormatVersion> for u8 {
    open spec fn obeys_from_spec() -> bool {
        true
    }

    open spec fn from_spec(v: ReceiptFormatVersion) -> Self {
        version_number(v)
    }
}

/// What the name of a kept receipt says, `{fn}_{i}_{fp}`: the drive number (the
/// first `_`-separated piece), the document number (the second, as a `u32`) and the
/// fiscal sign (the third, as a `u64`).
pub open spec fn legacy_name_spec(stem: Seq<char>) -> Option<(Seq<char>, u32, u64)> {
    let p = split_char(stem, '_');
    if p.len() >= 3 && parse_unsigned(p[1], u32::MAX as nat) is Some && parse_unsigned(p[2], u64::MAX as nat) is Some {
        Some((p[0], parse_unsigned(p[1], u32::MAX as nat)->0 as u32, parse_unsigned(p[2], u64::MAX as nat)->0 as u64))
    } else {
        None
    }
}

/// Reads the name of a kept receipt.
pub fn legacy_name(stem: &str) -> (r: Option<(String, u32, u64)>)
    ensures
        r matches Some(x) ==> legacy_name_spec(stem@) == Some((x.0@, x.1, x.2)),
        r is None ==> legacy_name_spec(stem@) is None,
{
    let c = to_chars(stem);
    let p = split_all(c.as_slice(), '_');
    let ghost ps = split_char(stem@, '_');
    if p.len() < 3 {
        return None;
    }
    assert(p@[1]@ == ps[1] && p@[2]@ == ps[2] && p@[0]@ == ps[0]);
    let i = match parse_u32(p[1].as_slice()) {
        Some(i) => i,
        None => return None,
    };
    let fp = match parse_u64(p[2].as_slice()) {
        Some(x) => x,
        None => return None,
    };
    Some((from_chars(p[0].as_slice()), i, fp))
}

/// The record a receipt of the first format is fetched again with: its date, total,
/// drive number, a sale, its fiscal sign and document number, and the operator's id
/// of it where there is one, set in that order.
pub open spec fn legacy_record_spec(drive_num: Seq<char>, doc_num: u32, fp: u64, date: DateTime, total: u64, id: Seq<char>) -> Seq<(u16, FieldValue)> {
    let o1 = set_value(Seq::empty(), DATE_TIME, FieldValue::Time(date));
    let o2 = set_value(o1, TOTAL_SUM, FieldValue::Num(total));
    let o3 = set_value(o2, DRIVE_NUM, FieldValue::Text(drive_num));
    let o4 = set_value(o3, PAYMENT_TYPE, FieldValue::Num(1));
    let o5 = set_value(o4, DOC_FISCAL_SIGN, FieldValue::Bytes(fp_bytes(fp)));
    let o6 = set_value(o5, DOC_NUM, FieldValue::Num(doc_num as u64));
    if id.len() > 0 {
        set_value(o6, Id::TAG, FieldValue::Text(id))
    } else {
        o6
    }
}

/// The record a receipt of the first format is fetched again with.
pub fn legacy_record(drive_num: String, doc_num: u32, fp: u64, date: DateTime, total: u64, id: String) -> (r: Object)
    ensures
        r@ == legacy_record_spec(drive_num@, doc_num, fp, date, total, id@),
{
    let mut o = Object::new();
    o.set_time(DATE_TIME, date);
    o.set_num(TOTAL_SUM, total);
    o.set_text(DRIVE_NUM, drive_num);
    o.set_num(PAYMENT_TYPE, 1);
    let b = fiscal_sign_bytes(fp);
    o.set_bytes(DOC_FISCAL_SIGN, &b);
    o.set_num(DOC_NUM, doc_num as u64);
    if to_chars(id.as_str()).len() > 0 {
        o.set_text(Id::TAG, id);
    }
    o
}

/// The format of dates in receipts of the first format.
pub open spec fn legacy_date_format() -> Seq<char> {
    "%Y%m%dT%H%M"@
}

/// The record a kept receipt named `stem`, with the date, total and id it holds, is
/// fetched again with; `None` where the name does not read (such files are passed
/// over) or the date does not (the migration cannot go on there).
pub fn legacy_migration_record(stem: &str, date: &str, total: u64, id: String) -> (r: Option<Object>)
    ensures
        r is Some <==> (legacy_name_spec(stem@) is Some && chrono_datetime_parse(date@, legacy_date_format()) is Some),
        r matches Some(o) ==> {
            let n = legacy_name_spec(stem@)->0;
            o@ == legacy_record_spec(n.0, n.1, n.2, chrono_datetime_parse(date@, legacy_date_format())->0, total, id@)
        },
{
    let (f, i, fp) = match legacy_name(stem) {
        Some(x) => x,
        None => return None,
    };
    let t = match parse_datetime(date, "%Y%m%dT%H%M") {
        Some(t) => t,
        None => return None,
    };
    Some(legacy_record(f, i, fp, t, total, id))
}

} // verus!
