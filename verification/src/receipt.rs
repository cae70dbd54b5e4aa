//! Questions asked of a receipt record as a whole.
use vstd::prelude::*;
use crate::fields::{
    payment_method_of, payment_type_of, read_nested, read_num, read_text, PaymentMethod, PaymentType, DOC_NUM, DRIVE_NUM,
    ITEM_NAME, ITEM_QUANTITY_UNIT, ITEM_TOTAL_PRICE, ITEM_UNIT_PRICE, PAYMENT_METHOD, PAYMENT_TYPE, RECEIPT_ITEM,
    TOTAL_SUM, UNIT,
};
use crate::object::{FieldValue, FiscalError, Object};

verus! {

/// A way of paying that settles an earlier or a later payment: full or partial
/// prepayment, an advance, or paying off a credit.
pub open spec fn settles_elsewhere(m: PaymentMethod) -> bool {
    m == PaymentMethod::Advance || m == PaymentMethod::Prepaid || m == PaymentMethod::FullPrepaid
        || m == PaymentMethod::PaymentOfCredit
}

/// Whether a receipt item was paid in advance (or settles a credit); an item without
/// a payment method was not.
pub open spec fn item_advance(o: Seq<(u16, FieldValue)>) -> Result<bool, FiscalError> {
    match read_num(o, PAYMENT_METHOD, u8::MAX as u64) {
        Err(e) => Err(e),
        Ok(None) => Ok(false),
        Ok(Some(c)) => Ok(settles_elsewhere(payment_method_of(c as u8))),
    }
}

/// The first answer among `items` that is not "no": an item paid in advance, or an
/// item that does not read.
pub open spec fn any_advance(items: Seq<Seq<(u16, FieldValue)>>) -> Result<bool, FiscalError>
    decreases items.len(),
{
    if items.len() == 0 {
        Ok(false)
    } else {
        match item_advance(items[0]) {
            Err(e) => Err(e),
            Ok(true) => Ok(true),
            Ok(false) => any_advance(items.drop_first()),
        }
    }
}

/// Whether some item of a receipt was paid in advance.
pub open spec fn receipt_advance(o: Seq<(u16, FieldValue)>) -> Result<bool, FiscalError> {
    match read_nested(o, RECEIPT_ITEM) {
        Err(e) => Err(e),
        Ok(items) => any_advance(items),
    }
}

/// Whether the item was paid in advance (or settles a credit).
pub fn item_is_advance(item: &Object) -> (r: Result<bool, FiscalError>)
    ensures
        r == item_advance(item@),
{
    match item.get_u8(PAYMENT_METHOD) {
        Err(e) => Err(e),
        Ok(None) => Ok(false),
        Ok(Some(c)) => {
            let m = PaymentMethod::from_code(c);
            Ok(
                match m {
                    PaymentMethod::Advance | PaymentMethod::Prepaid | PaymentMethod::FullPrepaid
                    | PaymentMethod::PaymentOfCredit => true,
                    _ => false,
                },
            )
        },
    }
}

/// Whether some item of the receipt was paid in advance; the first item that does not
/// read, before one that was, makes it an error.
pub fn is_advance(rec: &Object) -> (r: Result<bool, FiscalError>)
    ensures
        r == receipt_advance(rec@),
{
    let items = match rec.get_nested(RECEIPT_ITEM) {
        Ok(items) => items,
        Err(e) => return Err(e),
    };
    let ghost all = read_nested(rec@, RECEIPT_ITEM)->Ok_0;
    let mut i: usize = 0;
    assert(all.skip(0) =~= all);
    while i < items.len()
        invariant
            i <= items.len(),
            items@.len() == all.len(),
            forall|k: int| 0 <= k < items@.len() ==> (#[trigger] items@[k])@ == all[k],
            receipt_advance(rec@) == any_advance(all.skip(i as int)),
            read_nested(rec@, RECEIPT_ITEM) is Ok,
            all == read_nested(rec@, RECEIPT_ITEM)->Ok_0,
        decreases items.len() - i,
    {
        let ghost rest = all.skip(i as int);
        assert(rest[0] == all[i as int]);
        assert(rest.drop_first() =~= all.skip(i + 1));
        match item_is_advance(&items[i]) {
            Err(e) => return Err(e),
            Ok(true) => return Ok(true),
            Ok(false) => {},
        }
        i = i + 1;
    }
    Ok(false)
}

/// A text field as a page shows it: empty where it is missing or does not read.
pub open spec fn text_or_empty(o: Seq<(u16, FieldValue)>, tag: u16) -> Seq<char> {
    match read_text(o, tag) {
        Ok(Some(s)) => s,
        _ => Seq::empty(),
    }
}

/// A numeric field as a page shows it: zero where it is missing or does not read.
pub open spec fn num_or_zero(o: Seq<(u16, FieldValue)>, tag: u16, max: u64) -> u64 {
    match read_num(o, tag, max) {
        Ok(Some(n)) => n,
        _ => 0,
    }
}

/// An amount of kopecks as `i64`, negated for a refund (`x as i64`, then `-`).
pub open spec fn signed_amount(x: u64, refund: bool) -> i64 {
    if refund {
        (-(x as i64)) as i64
    } else {
        x as i64
    }
}

/// The items of a receipt as a page lists them: none where they do not read.
pub open spec fn page_items(o: Seq<(u16, FieldValue)>) -> Seq<Seq<(u16, FieldValue)>> {
    match read_nested(o, RECEIPT_ITEM) {
        Ok(items) => items,
        Err(_) => Seq::empty(),
    }
}

/// The payment type of a receipt as the page reads it (unknown where it does not).
pub open spec fn page_payment_type(o: Seq<(u16, FieldValue)>) -> PaymentType {
    match read_num(o, PAYMENT_TYPE, u8::MAX as u64) {
        Ok(Some(c)) => payment_type_of(c as u8),
        _ => PaymentType::Unknown,
    }
}

/// Negating the prices of a refund stays in `i64`: no price of an item is 2^63.
pub open spec fn refund_prices_fit(o: Seq<(u16, FieldValue)>) -> bool {
    forall|k: int| 0 <= k < page_items(o).len() ==> {
        &&& num_or_zero(#[trigger] page_items(o)[k], ITEM_UNIT_PRICE, u64::MAX) != 0x8000_0000_0000_0000u64
        &&& num_or_zero(page_items(o)[k], ITEM_TOTAL_PRICE, u64::MAX) != 0x8000_0000_0000_0000u64
    }
}

/// One line of the page that shows a receipt to be split.
pub struct PageItem {
    /// Paid in advance (or settles a credit).
    pub is_advance: bool,
    /// Its position on the receipt.
    pub num: usize,
    pub name: String,
    /// The unit of measure as the receipt writes it, where it does and it is not empty.
    pub unit: Option<String>,
    /// The code of the unit of measure, where the receipt gives one.
    pub quantity_unit: Option<u8>,
    /// The price of one, negated for a refund.
    pub per_item: i64,
    /// The total price, negated for a refund.
    pub total: i64,
}

/// The page that shows a receipt to be split.
pub struct ReceiptPage {
    pub total: u64,
    pub drive_num: String,
    pub doc_num: u32,
    /// `{fn}_{i:07}`, the name the receipt is remembered as paid under.
    pub receipt_id: String,
    pub is_advance: bool,
    pub is_refund: bool,
    pub items: Vec<PageItem>,
}

/// The line of item `k` of the page of `o`.
pub open spec fn page_item_ok(item: Seq<(u16, FieldValue)>, k: int, refund: bool, p: PageItem) -> bool {
    &&& p.is_advance == (item_advance(item) == Ok::<bool, FiscalError>(true))
    &&& p.num == k
    &&& p.name@ == text_or_empty(item, ITEM_NAME)
    &&& (match read_text(item, UNIT) {
        Ok(Some(u)) => if u.len() > 0 { p.unit matches Some(pu) && pu@ == u } else { p.unit is None },
        _ => p.unit is None,
    })
    &&& (match read_num(item, ITEM_QUANTITY_UNIT, u8::MAX as u64) {
        Ok(Some(c)) => p.quantity_unit == Some(c as u8),
        _ => p.quantity_unit is None,
    })
    &&& p.per_item == signed_amount(num_or_zero(item, ITEM_UNIT_PRICE, u64::MAX), refund)
    &&& p.total == signed_amount(num_or_zero(item, ITEM_TOTAL_PRICE, u64::MAX), refund)
}

fn signed_of(x: u64, refund: bool) -> (r: i64)
    requires
        refund ==> x != 0x8000_0000_0000_0000u64,
    ensures
        r == signed_amount(x, refund),
{
    let v = x as i64;
    if refund {
        assert(v != i64::MIN) by (bit_vector)
            requires
                v == x as i64,
                x != 0x8000_0000_0000_0000u64,
        ;
        -v
    } else {
        v
    }
}

/// Whether negating the prices of a refund stays in `i64`.
pub fn refund_prices_ok(rec: &Object) -> (r: bool)
    ensures
        r == refund_prices_fit(rec@),
{
    let items = match rec.get_nested(RECEIPT_ITEM) {
        Ok(v) => v,
        Err(_) => Vec::new(),
    };
    let ghost its = page_items(rec@);
    let mut k: usize = 0;
    while k < items.len()
        invariant
            k <= items@.len(),
            items@.len() == its.len(),
            its == page_items(rec@),
            forall|q: int| 0 <= q < items@.len() ==> (#[trigger] items@[q])@ == its[q],
            forall|q: int| 0 <= q < k ==> {
                &&& num_or_zero(#[trigger] its[q], ITEM_UNIT_PRICE, u64::MAX) != 0x8000_0000_0000_0000u64
                &&& num_or_zero(its[q], ITEM_TOTAL_PRICE, u64::MAX) != 0x8000_0000_0000_0000u64
            },
        decreases items@.len() - k,
    {
        let u = match items[k].get_num(ITEM_UNIT_PRICE, u64::MAX) {
            Ok(Some(n)) => n,
            _ => 0,
        };
        let t = match items[k].get_num(ITEM_TOTAL_PRICE, u64::MAX) {
            Ok(Some(n)) => n,
            _ => 0,
        };
        if u == 0x8000_0000_0000_0000u64 || t == 0x8000_0000_0000_0000u64 {
            assert(its[k as int] == items@[k as int]@);
            return false;
        }
        k = k + 1;
    }
    true
}

/// What the page that shows a receipt to be split says: its total, numbers, whether it
/// was paid in advance or is a refund, and its items with their prices (negated for a
/// refund). A receipt of unknown payment type is refused.
pub fn receipt_page(rec: &Object) -> (r: Result<ReceiptPage, crate::bill::SubmitError>)
    requires
        (page_payment_type(rec@) == PaymentType::Purchase || page_payment_type(rec@) == PaymentType::SaleReturn)
            ==> refund_prices_fit(rec@),
    ensures
        r is Err <==> page_payment_type(rec@) == PaymentType::Unknown,
        r matches Err(e) ==> e == crate::bill::SubmitError::InvalidPaymentType,
        r matches Ok(p) ==> {
            let o = rec@;
            let refund = page_payment_type(o) == PaymentType::Purchase || page_payment_type(o) == PaymentType::SaleReturn;
            &&& p.total == num_or_zero(o, TOTAL_SUM, u64::MAX)
            &&& p.drive_num@ == text_or_empty(o, DRIVE_NUM)
            &&& p.doc_num as u64 == num_or_zero(o, DOC_NUM, u32::MAX as u64)
            &&& p.receipt_id@ == crate::bill::receipt_id_spec(p.drive_num@, p.doc_num)
            &&& p.is_advance == (receipt_advance(o) == Ok::<bool, FiscalError>(true))
            &&& p.is_refund == refund
            &&& p.items@.len() == page_items(o).len()
            &&& forall|k: int| 0 <= k < p.items@.len() ==> page_item_ok(page_items(o)[k], k, refund, #[trigger] p.items@[k])
        },
{
    let t = match rec.get_u8(PAYMENT_TYPE) {
        Ok(Some(c)) => PaymentType::from_code(c),
        _ => PaymentType::Unknown,
    };
    let refund = match t {
        PaymentType::Sale | PaymentType::PurchaseReturn => false,
        PaymentType::Purchase | PaymentType::SaleReturn => true,
        PaymentType::Unknown => return Err(crate::bill::SubmitError::InvalidPaymentType),
    };
    let total = match rec.get_num(TOTAL_SUM, u64::MAX) {
        Ok(Some(n)) => n,
        _ => 0,
    };
    let drive_num = match rec.get_text(DRIVE_NUM) {
        Ok(Some(s)) => s,
        _ => String::new(),
    };
    let doc_num = match rec.get_u32(DOC_NUM) {
        Ok(Some(n)) => n,
        _ => 0,
    };
    let id = crate::bill::receipt_id(drive_num.as_str(), doc_num);
    let adv = match is_advance(rec) {
        Ok(b) => b,
        Err(_) => false,
    };
    let items = match rec.get_nested(RECEIPT_ITEM) {
        Ok(v) => v,
        Err(_) => Vec::new(),
    };
    let ghost its = page_items(rec@);
    let mut out: Vec<PageItem> = Vec::new();
    let mut k: usize = 0;
    while k < items.len()
        invariant
            k <= items@.len(),
            items@.len() == its.len(),
            its == page_items(rec@),
            forall|q: int| 0 <= q < items@.len() ==> (#[trigger] items@[q])@ == its[q],
            refund ==> refund_prices_fit(rec@),
            out@.len() == k,
            forall|q: int| 0 <= q < k ==> page_item_ok(its[q], q, refund, #[trigger] out@[q]),
        decreases items@.len() - k,
    {
        let item = &items[k];
        assert(item@ == its[k as int]);
        let ia = match item_is_advance(item) {
            Ok(b) => b,
            Err(_) => false,
        };
        let name = match item.get_text(ITEM_NAME) {
            Ok(Some(s)) => s,
            _ => String::new(),
        };
        let unit = match item.get_text(UNIT) {
            Ok(Some(u)) => if crate::text::to_chars(u.as_str()).len() > 0 { Some(u) } else { None },
            _ => None,
        };
        let qu = match item.get_u8(ITEM_QUANTITY_UNIT) {
            Ok(Some(c)) => Some(c),
            _ => None,
        };
        let up = match item.get_num(ITEM_UNIT_PRICE, u64::MAX) {
            Ok(Some(n)) => n,
            _ => 0,
        };
        let tp = match item.get_num(ITEM_TOTAL_PRICE, u64::MAX) {
            Ok(Some(n)) => n,
            _ => 0,
        };
        let per_item = signed_of(up, refund);
        let tot = signed_of(tp, refund);
        let line = PageItem { is_advance: ia, num: k, name, unit, quantity_unit: qu, per_item, total: tot };
        assert(page_item_ok(its[k as int], k as int, refund, line));
        out.push(line);
        k = k + 1;
    }
    Ok(ReceiptPage { total, drive_num, doc_num, receipt_id: id, is_advance: adv, is_refund: refund, items: out })
}

/// An item counts as paid in advance exactly when its payment method (tag 1214) reads
/// as code 1, 2, 3 or 7 (full prepayment, prepayment, advance, payment of a credit);
/// not for 4, 5, 6 (full payment, partial payment and credit, credit) or any other
/// code, nor without a method; a method that does not read gives its error.
pub proof fn lemma_item_advance_by_code(item: Seq<(u16, FieldValue)>)
    ensures
        item_advance(item) == match read_num(item, PAYMENT_METHOD, u8::MAX as u64) {
            Err(e) => Err(e),
            Ok(None) => Ok(false),
            Ok(Some(c)) => Ok(c == 1 || c == 2 || c == 3 || c == 7),
        },
{
}

/// Of items that all read, the receipt counts as paid in advance exactly when one of
/// its items was.
pub proof fn lemma_any_advance_some_item(items: Seq<Seq<(u16, FieldValue)>>)
    requires
        forall|k: int| 0 <= k < items.len() ==> (#[trigger] item_advance(items[k])) is Ok,
    ensures
        any_advance(items) == Ok::<bool, FiscalError>(
            exists|k: int| 0 <= k < items.len() && #[trigger] item_advance(items[k]) == Ok::<bool, FiscalError>(true),
        ),
    decreases items.len(),
{
    if items.len() > 0 {
        let rest = items.drop_first();
        assert forall|k: int| 0 <= k < rest.len() implies (#[trigger] item_advance(rest[k])) is Ok by {
            assert(rest[k] == items[k + 1]);
            assert(item_advance(items[k + 1]) is Ok);
        }
        lemma_any_advance_some_item(rest);
        assert(item_advance(items[0]) is Ok);
        if item_advance(items[0]) != Ok::<bool, FiscalError>(true) {
            if exists|k: int| 0 <= k < items.len() && #[trigger] item_advance(items[k]) == Ok::<bool, FiscalError>(true) {
                let k = choose|k: int| 0 <= k < items.len() && #[trigger] item_advance(items[k]) == Ok::<bool, FiscalError>(true);
                assert(rest[k - 1] == items[k]);
            }
            if exists|k: int| 0 <= k < rest.len() && #[trigger] item_advance(rest[k]) == Ok::<bool, FiscalError>(true) {
                let k = choose|k: int| 0 <= k < rest.len() && #[trigger] item_advance(rest[k]) == Ok::<bool, FiscalError>(true);
                assert(items[k + 1] == rest[k]);
            }
        }
    }
}

/// A receipt is shown as a refund exactly when its payment type (tag 1054) reads as
/// code 2 or 3 (sale return, purchase), and as a plain receipt for code 1 or 4 (sale,
/// purchase return); any other code, or none, has no page.
pub proof fn lemma_page_refund_by_code(o: Seq<(u16, FieldValue)>)
    ensures
        read_num(o, PAYMENT_TYPE, u8::MAX as u64) matches Ok(Some(c)) && (c == 2 || c == 3) ==>
            page_payment_type(o) == PaymentType::Purchase || page_payment_type(o) == PaymentType::SaleReturn,
        read_num(o, PAYMENT_TYPE, u8::MAX as u64) matches Ok(Some(c)) && (c == 1 || c == 4) ==>
            page_payment_type(o) == PaymentType::Sale || page_payment_type(o) == PaymentType::PurchaseReturn,
        (read_num(o, PAYMENT_TYPE, u8::MAX as u64) matches Ok(Some(c)) && 1 <= c <= 4) <==> page_payment_type(o) != PaymentType::Unknown,
{
}

} // verus!
