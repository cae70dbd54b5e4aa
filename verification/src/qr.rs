//! Reading the QR code printed on a receipt (`t=...&s=...&fn=...&i=...&fp=...&n=...`).
use vstd::prelude::*;
use vstd::utf8::encode_utf8;
use crate::datetime::{chrono_date_parse, chrono_datetime_parse, parse_date, parse_datetime};
use crate::fields::{payment_type_code, payment_type_of, PaymentType, DATE_TIME, DOC_FISCAL_SIGN, DOC_NUM, DRIVE_NUM, PAYMENT_TYPE, TOTAL_SUM};
use crate::hex::{decode_hex, hex_decoded};
use crate::num::{parse_sum, parse_u32, parse_u64, parse_u8, parse_unsigned, sum_fits, sum_overflows, sum_value};
use crate::object::{set_value, DateTime, FieldValue, Object};
use crate::ofd::custom::{IcomCode, ProviderId};
use crate::ofd::providers::{kind_id, ProviderKind};
use crate::ofd::registry::{by_id_order, OfdRegistry};
use crate::text::{all_ascii_digits, chars_eq, from_chars, is_all_digits, split_all, split_char, split_once, split_once_char, to_chars};

verus! {

/// The first of the two formats of the `t=` date in QR codes.
pub open spec fn qr_date_format1() -> Seq<char> {
    "%Y%m%dT%H%M"@
}

/// The second of the two formats of the `t=` date in QR codes (with seconds).
pub open spec fn qr_date_format2() -> Seq<char> {
    "%Y%m%dT%H%M%S"@
}

/// The date of a QR code: `20240420T0950` or `20240420T095000`.
pub open spec fn qr_date(s: Seq<char>) -> Option<DateTime> {
    match chrono_datetime_parse(s, qr_date_format1()) {
        Some(t) => Some(t),
        None => chrono_datetime_parse(s, qr_date_format2()),
    }
}

/// Reads the date of a QR code, trying the format without seconds first.
pub fn parse_qr_date(s: &str) -> (r: Option<DateTime>)
    ensures
        r == qr_date(s@),
{
    match parse_datetime(s, "%Y%m%dT%H%M") {
        Some(t) => Some(t),
        None => parse_datetime(s, "%Y%m%dT%H%M%S"),
    }
}

/// The six low bytes of `x`, most significant first: a fiscal sign given as a number.
pub open spec fn fp_bytes(x: u64) -> Seq<u8> {
    seq![(x >> 40) as u8, (x >> 32) as u8, (x >> 24) as u8, (x >> 16) as u8, (x >> 8) as u8, x as u8]
}

/// The six low bytes of `x`, most significant first.
pub fn fiscal_sign_bytes(x: u64) -> (r: [u8; 6])
    ensures
        r@ == fp_bytes(x),
{
    let r = [(x >> 40) as u8, (x >> 32) as u8, (x >> 24) as u8, (x >> 16) as u8, (x >> 8) as u8, x as u8];
    assert(r@ =~= fp_bytes(x));
    r
}

/// What one `key=value` pair of a QR code does to the record being built.
pub open spec fn qr_step(o: Seq<(u16, FieldValue)>, k: Seq<char>, v: Seq<char>, kinds: Seq<ProviderKind>) -> Seq<(u16, FieldValue)> {
    if k == "ofd"@ {
        let order = by_id_order(kinds, v);
        if order.len() > 0 {
            o.push((ProviderId::TAG, FieldValue::Text(kind_id(kinds[order[0]]))))
        } else {
            o
        }
    } else if k == "date"@ {
        match chrono_date_parse(v, "%Y-%m-%d"@) {
            Some((y, m, d)) => set_value(o, DATE_TIME, FieldValue::Time(DateTime { year: y, month: m, day: d, hour: 0, minute: 0, second: 0 })),
            None => o,
        }
    } else if k == "code"@ {
        match hex_decoded(encode_utf8(v)) {
            Some(b) => if b.len() == 3 {
                set_value(o, IcomCode::TAG, FieldValue::Bytes(b))
            } else {
                o
            },
            None => o,
        }
    } else if k == "t"@ {
        match qr_date(v) {
            Some(t) => set_value(o, DATE_TIME, FieldValue::Time(t)),
            None => o,
        }
    } else if k == "s"@ {
        match sum_value(v) {
            Some(x) => set_value(o, TOTAL_SUM, FieldValue::Num(x as u64)),
            None => o,
        }
    } else if k == "fn"@ {
        if all_ascii_digits(v) {
            set_value(o, DRIVE_NUM, FieldValue::Text(v))
        } else {
            o
        }
    } else if k == "n"@ {
        match parse_unsigned(v, u8::MAX as nat) {
            Some(x) => set_value(o, PAYMENT_TYPE, FieldValue::Num(payment_type_code(payment_type_of(x as u8)) as u64)),
            None => o,
        }
    } else if k == "fp"@ {
        match parse_unsigned(v, u64::MAX as nat) {
            Some(x) => set_value(o, DOC_FISCAL_SIGN, FieldValue::Bytes(fp_bytes(x as u64))),
            None => o,
        }
    } else if k == "i"@ {
        match parse_unsigned(v, u32::MAX as nat) {
            Some(x) => set_value(o, DOC_NUM, FieldValue::Num(x as u64)),
            None => o,
        }
    } else {
        o
    }
}

/// The `key=value` pairs of a QR code: the `&`-separated pieces that hold a `=`.
pub open spec fn qr_pairs(s: Seq<char>) -> Seq<(Seq<char>, Seq<char>)> {
    qr_pairs_of(split_char(s, '&'))
}

pub open spec fn qr_pairs_of(pieces: Seq<Seq<char>>) -> Seq<(Seq<char>, Seq<char>)>
    decreases pieces.len(),
{
    if pieces.len() == 0 {
        Seq::empty()
    } else {
        let rest = qr_pairs_of(pieces.drop_last());
        match split_once_char(pieces.last(), '=') {
            Some(p) => rest.push(p),
            None => rest,
        }
    }
}

/// The record a QR code describes, built pair by pair.
pub open spec fn qr_record(pairs: Seq<(Seq<char>, Seq<char>)>, kinds: Seq<ProviderKind>) -> Seq<(u16, FieldValue)>
    decreases pairs.len(),
{
    if pairs.len() == 0 {
        Seq::empty()
    } else {
        let p = pairs.last();
        qr_step(qr_record(pairs.drop_last(), kinds), p.0, p.1, kinds)
    }
}

/// No sum in the QR code is too large to count in kopecks.
pub open spec fn qr_sums_fit(s: Seq<char>) -> bool {
    forall|i: int| 0 <= i < qr_pairs(s).len() && (#[trigger] qr_pairs(s)[i]).0 == "s"@ ==> !sum_overflows(qr_pairs(s)[i].1)
}

fn key_is(k: &[char], lit: &str) -> (r: bool)
    ensures
        r == (k@ == lit@),
{
    let l = to_chars(lit);
    chars_eq(k, l.as_slice())
}

/// Applies one `key=value` pair of a QR code to `rec`.
pub fn apply_qr_pair(rec: &mut Object, k: &[char], v: &[char], reg: &OfdRegistry)
    requires
        k@ == "s"@ ==> !sum_overflows(v@),
    ensures
        final(rec)@ == qr_step(old(rec)@, k@, v@, reg.kinds()),
{
    let vs = from_chars(v);
    if key_is(k, "ofd") {
        let _ = reg.fill(vs.as_str(), rec);
    } else if key_is(k, "date") {
        if let Some(t) = parse_date(vs.as_str(), "%Y-%m-%d") {
            rec.set_time(DATE_TIME, t);
        }
    } else if key_is(k, "code") {
        if let Some(b) = decode_hex(vs.as_str()) {
            if b.len() == 3 {
                rec.set_bytes(IcomCode::TAG, b.as_slice());
            }
        }
    } else if key_is(k, "t") {
        if let Some(t) = parse_qr_date(vs.as_str()) {
            rec.set_time(DATE_TIME, t);
        }
    } else if key_is(k, "s") {
        if let Some(x) = parse_sum(v) {
            rec.set_num(TOTAL_SUM, x);
        }
    } else if key_is(k, "fn") {
        if is_all_digits(v) {
            rec.set_text(DRIVE_NUM, vs);
        }
    } else if key_is(k, "n") {
        if let Some(x) = parse_u8(v) {
            let t = PaymentType::from_code(x);
            rec.set_num(PAYMENT_TYPE, t.code() as u64);
        }
    } else if key_is(k, "fp") {
        if let Some(x) = parse_u64(v) {
            let b = fiscal_sign_bytes(x);
            rec.set_bytes(DOC_FISCAL_SIGN, &b);
        }
    } else if key_is(k, "i") {
        if let Some(x) = parse_u32(v) {
            rec.set_num(DOC_NUM, x as u64);
        }
    }
}

/// The record a receipt's QR code describes: the date (`t` or `date`), sum (`s`),
/// drive number (`fn`), document number (`i`), fiscal sign (`fp`), payment type
/// (`n`), transport card code (`code`) and provider (`ofd`).  Pairs that do not
/// read are passed over; a later pair overrides an earlier one.
pub fn parse_qr(s: &str, reg: &OfdRegistry) -> (r: Object)
    requires
        qr_sums_fit(s@),
    ensures
        r@ == qr_record(qr_pairs(s@), reg.kinds()),
{
    let chars = to_chars(s);
    let pieces = split_all(chars.as_slice(), '&');
    let ghost all_pieces = split_char(s@, '&');
    assert(all_pieces.len() == pieces@.len());
    let mut ret = Object::new();
    let mut i: usize = 0;
    while i < pieces.len()
        invariant
            i <= pieces.len(),
            all_pieces == split_char(s@, '&'),
            pieces@.len() == all_pieces.len(),
            forall|k: int| 0 <= k < pieces@.len() ==> #[trigger] pieces@[k]@ == all_pieces[k],
            qr_sums_fit(s@),
            qr_pairs(s@) == qr_pairs_of(all_pieces),
            ret@ == qr_record(qr_pairs_of(all_pieces.take(i as int)), reg.kinds()),
        decreases pieces.len() - i,
    {
        proof {
            assert(all_pieces.take(i + 1).drop_last() =~= all_pieces.take(i as int));
            assert(all_pieces.take(i + 1).last() == all_pieces[i as int]);
        }
        match split_once(pieces[i].as_slice(), '=') {
            Some((k, v)) => {
                proof {
                    let pairs = qr_pairs_of(all_pieces.take(i + 1));
                    let before = qr_pairs_of(all_pieces.take(i as int));
                    assert(pairs == before.push((k@, v@)));
                    assert(pairs.drop_last() =~= before);
                    lemma_qr_pairs_prefix(all_pieces, i as int + 1);
                    if k@ == "s"@ {
                        assert(pairs[before.len() as int] == (k@, v@));
                        assert(qr_pairs_of(all_pieces.take(i as int + 1))[before.len() as int] == qr_pairs_of(all_pieces)[before.len() as int]);
                        assert(qr_pairs(s@)[before.len() as int] == (k@, v@));
                        assert(qr_pairs(s@)[before.len() as int].0 == "s"@);
                    }
                }
                apply_qr_pair(&mut ret, k.as_slice(), v.as_slice(), reg);
            },
            None => {},
        }
        i = i + 1;
    }
    assert(all_pieces.take(i as int) =~= all_pieces);
    ret
}

/// `parse_qr` where every sum in the QR code can be counted in kopecks; `None`
/// where one cannot.
pub fn try_parse_qr(s: &str, reg: &OfdRegistry) -> (r: Option<Object>)
    ensures
        r is Some <==> qr_sums_fit(s@),
        r matches Some(o) ==> o@ == qr_record(qr_pairs(s@), reg.kinds()),
{
    let chars = to_chars(s);
    let pieces = split_all(chars.as_slice(), '&');
    let ghost all_pieces = split_char(s@, '&');
    let mut i: usize = 0;
    while i < pieces.len()
        invariant
            i <= pieces.len(),
            all_pieces == split_char(s@, '&'),
            pieces@.len() == all_pieces.len(),
            forall|k: int| 0 <= k < pieces@.len() ==> #[trigger] pieces@[k]@ == all_pieces[k],
            qr_pairs(s@) == qr_pairs_of(all_pieces),
            forall|j: int| 0 <= j < qr_pairs_of(all_pieces.take(i as int)).len() && (#[trigger] qr_pairs_of(all_pieces.take(i as int))[j]).0 == "s"@
                ==> !sum_overflows(qr_pairs_of(all_pieces.take(i as int))[j].1),
        decreases pieces.len() - i,
    {
        proof {
            assert(all_pieces.take(i + 1).drop_last() =~= all_pieces.take(i as int));
            assert(all_pieces.take(i + 1).last() == all_pieces[i as int]);
            lemma_qr_pairs_prefix(all_pieces, i as int + 1);
        }
        match split_once(pieces[i].as_slice(), '=') {
            Some((k, v)) => {
                let ghost before = qr_pairs_of(all_pieces.take(i as int));
                let ghost pairs = qr_pairs_of(all_pieces.take(i + 1));
                assert(pairs == before.push((k@, v@)));
                if key_is(k.as_slice(), "s") && !sum_fits(v.as_slice()) {
                    proof {
                        assert(pairs[before.len() as int] == (k@, v@));
                        assert(qr_pairs(s@)[before.len() as int] == (k@, v@));
                        assert(qr_pairs(s@)[before.len() as int].0 == "s"@);
                    }
                    return None;
                }
                proof {
                    assert forall|j: int| 0 <= j < pairs.len() && (#[trigger] pairs[j]).0 == "s"@ implies !sum_overflows(pairs[j].1) by {
                        if j < before.len() {
                            assert(pairs[j] == before[j]);
                        }
                    }
                }
            },
            None => {
                assert(qr_pairs_of(all_pieces.take(i + 1)) == qr_pairs_of(all_pieces.take(i as int)));
            },
        }
        i = i + 1;
    }
    proof {
        assert(all_pieces.take(i as int) =~= all_pieces);
    }
    Some(parse_qr(s, reg))
}

/// The pairs of a prefix of the pieces are a prefix of the pairs of all of them.
pub proof fn lemma_qr_pairs_prefix(pieces: Seq<Seq<char>>, n: int)
    requires
        0 <= n <= pieces.len(),
    ensures
        qr_pairs_of(pieces.take(n)).len() <= qr_pairs_of(pieces).len(),
        forall|j: int| 0 <= j < qr_pairs_of(pieces.take(n)).len() ==> #[trigger] qr_pairs_of(pieces.take(n))[j] == qr_pairs_of(pieces)[j],
    decreases pieces.len() - n,
{
    if n < pieces.len() {
        lemma_qr_pairs_prefix(pieces, n + 1);
        let a = pieces.take(n + 1);
        assert(a.drop_last() =~= pieces.take(n));
        let pn = qr_pairs_of(pieces.take(n));
        let pm = qr_pairs_of(a);
        assert(pn.len() <= pm.len());
        assert forall|j: int| 0 <= j < pn.len() implies #[trigger] pn[j] == pm[j] by {}
    } else {
        assert(pieces.take(n) =~= pieces);
    }
}

/// The pair `n=k` of a QR code, for a payment type code `k` from 1 to 4, stores that
/// code as the record's payment type.
pub proof fn lemma_qr_payment_type_kept(o: Seq<(u16, FieldValue)>, v: Seq<char>, kinds: Seq<ProviderKind>)
    requires
        parse_unsigned(v, u8::MAX as nat) matches Some(k) && 1 <= k <= 4,
    ensures
        qr_step(o, "n"@, v, kinds) == set_value(o, PAYMENT_TYPE, FieldValue::Num(parse_unsigned(v, u8::MAX as nat)->0 as u64)),
{
    reveal_strlit("n");
    reveal_strlit("ofd");
    reveal_strlit("date");
    reveal_strlit("code");
    reveal_strlit("t");
    reveal_strlit("s");
    reveal_strlit("fn");
    assert("n"@ != "ofd"@ && "n"@ != "date"@ && "n"@ != "code"@ && "n"@ != "fn"@) by {
        assert("n"@.len() == 1);
    }
    assert("n"@ != "t"@ && "n"@ != "s"@) by {
        assert("n"@[0] != "t"@[0] && "n"@[0] != "s"@[0]);
    }
}

} // verus!
