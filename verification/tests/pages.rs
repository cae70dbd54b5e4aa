use coop_ofd::fields::{
    DATE_TIME, DOC_FISCAL_SIGN, DOC_NUM, DRIVE_NUM, ITEM_NAME, ITEM_TOTAL_PRICE, ITEM_UNIT_PRICE, PAYMENT_METHOD,
    PAYMENT_TYPE, RECEIPT_ITEM, TOTAL_SUM, UNIT,
};
use coop_ofd::object::{DateTime, Object, Value};
use coop_ofd::ofd::taxcom::{search_id, taxcom_form, taxcom_parse, taxcom_sum_ok};
use coop_ofd::ofd::Error;
use coop_ofd::receipt::{is_advance, item_is_advance, receipt_page, refund_prices_ok};
use coop_ofd::scrape::{fill_from_page, page_needed, page_sum_ok, page_url};
use coop_ofd::shopping::bought_item;

fn item(name: &str, unit_price: u64, total: u64, method: Option<u64>) -> Object {
    let mut o = Object::new();
    o.set_text(ITEM_NAME, name.to_owned());
    o.set_num(ITEM_UNIT_PRICE, unit_price);
    o.set_num(ITEM_TOTAL_PRICE, total);
    o.set_text(UNIT, "шт".to_owned());
    if let Some(m) = method {
        o.set_num(PAYMENT_METHOD, m);
    }
    o
}

fn receipt(kind: u64, items: Vec<Object>) -> Object {
    let mut o = Object::new();
    o.set_text(DRIVE_NUM, "777".to_owned());
    o.set_num(DOC_NUM, 12);
    o.set_num(TOTAL_SUM, 990);
    o.set_num(PAYMENT_TYPE, kind);
    for it in items {
        o.push(RECEIPT_ITEM, Value::Nested(it));
    }
    o
}

#[test]
fn a_receipt_page_fills_the_record() {
    let html = "<p><div>ФН №: <right>9960440300000001</right></div><div>ФП: <right>1234567890</right></div>\
                <div>ФД №: <right>42</right></div><div>Дата Время <right>20.04.2024 09:50</right></div>\
                <big>ИТОГ <right>≡1234.5</right></big></p>";
    assert!(page_sum_ok(html));
    let mut rec = Object::new();
    fill_from_page(&mut rec, html);
    assert_eq!(rec.get_text(DRIVE_NUM).unwrap(), Some("9960440300000001".to_owned()));
    assert_eq!(rec.get_bytes6(DOC_FISCAL_SIGN).unwrap(), Some([0, 0, 0x49, 0x96, 0x02, 0xd2]));
    assert_eq!(rec.get_u32(DOC_NUM).unwrap(), Some(42));
    assert_eq!(rec.get_u8(PAYMENT_TYPE).unwrap(), Some(1));
    assert_eq!(rec.get_num(TOTAL_SUM, u64::MAX).unwrap(), Some(123450));
    assert_eq!(
        rec.get_time(DATE_TIME).unwrap(),
        Some(DateTime { year: 2024, month: 4, day: 20, hour: 9, minute: 50, second: 0 })
    );
}

#[test]
fn a_page_keeps_a_known_payment_type_and_skips_bad_values() {
    let mut rec = Object::new();
    rec.set_num(PAYMENT_TYPE, 3);
    fill_from_page(&mut rec, "<div>ФН №: <right>12ab</right><big>ИТОГ <right>≡x</right>");
    assert_eq!(rec.get_u8(PAYMENT_TYPE).unwrap(), Some(3));
    assert_eq!(rec.get_text(DRIVE_NUM).unwrap(), None);
    assert_eq!(rec.get_num(TOTAL_SUM, u64::MAX).unwrap(), None);
    assert!(!page_sum_ok("<big>ИТОГ <right>≡999999999999999999</right>"));
    assert!(page_sum_ok("<big>ИТОГ <right>≡99999999999999999999</right>"));
}

#[test]
fn the_page_is_needed_only_for_incomplete_codes() {
    let mut rec = Object::new();
    assert!(page_needed(&rec, "t=1"));
    rec.set_text(DRIVE_NUM, "1".to_owned());
    rec.set_num(DOC_NUM, 1);
    assert!(!page_needed(&rec, "t=1"));
    assert!(page_needed(&rec, "https://example.org/r"));
    rec.set_bytes(DOC_FISCAL_SIGN, &[0; 6]);
    assert!(!page_needed(&rec, "https://example.org/r"));
    assert_eq!(page_url("ofd=taxcom&https://x/y?a=1&b=2"), "https://x/y?a=1&b=2");
    assert_eq!(page_url("ofd=taxcom"), "ofd=taxcom");
    assert_eq!(page_url("https://x/y"), "https://x/y");
}

#[test]
fn a_taxcom_page_reads_field_by_field() {
    let html = "<span class=\"receipt-value-1077\">1234567890</span><span class=\"receipt-value-1041\">9960</span>\
                <span class=\"receipt-value-1040\">42</span><span class=\"receipt-value-1020\">10.5</span>\
                <span class=\"receipt-value-1012\">20.04.24 09:50</span>";
    assert!(taxcom_sum_ok(html.as_bytes()));
    let mut rec = Object::new();
    assert!(taxcom_parse(html.as_bytes(), &mut rec).is_ok());
    assert_eq!(rec.get_text(DRIVE_NUM).unwrap(), Some("9960".to_owned()));
    assert_eq!(rec.get_u32(DOC_NUM).unwrap(), Some(42));
    assert_eq!(rec.get_num(TOTAL_SUM, u64::MAX).unwrap(), Some(1050));
    assert_eq!(
        rec.get_time(DATE_TIME).unwrap(),
        Some(DateTime { year: 2024, month: 4, day: 20, hour: 9, minute: 50, second: 0 })
    );
    let mut rec = Object::new();
    let r = taxcom_parse(b"<span class=\"receipt-value-1077\">7</span>", &mut rec);
    assert!(matches!(r, Err(Error::MissingData("fn"))));
    assert!(rec.get_bytes6(DOC_FISCAL_SIGN).unwrap().is_some());
    let r = taxcom_parse(&[0xff, 0xfe], &mut Object::new());
    assert!(matches!(r, Err(Error::MissingData("response"))));
}

#[test]
fn the_taxcom_search_form() {
    let mut rec = Object::new();
    rec.set_bytes(DOC_FISCAL_SIGN, &[0, 0, 0, 0, 1, 0]);
    rec.set_num(TOTAL_SUM, 12305);
    rec.set_time(DATE_TIME, DateTime { year: 2024, month: 4, day: 20, hour: 9, minute: 50, second: 0 });
    let f = taxcom_form(&rec).unwrap();
    assert_eq!(f.fiscal_sign, 256);
    assert_eq!(f.summ, "123.05");
    assert_eq!(f.receipt_date_filter, Some(DateTime { year: 2024, month: 4, day: 20, hour: 0, minute: 0, second: 0 }));
    assert!(matches!(taxcom_form(&Object::new()), Err(Error::MissingData("fp"))));
}

#[test]
fn advances_are_found_among_items() {
    assert_eq!(item_is_advance(&item("a", 1, 1, Some(3))), Ok(true));
    assert_eq!(item_is_advance(&item("a", 1, 1, Some(4))), Ok(false));
    assert_eq!(item_is_advance(&item("a", 1, 1, None)), Ok(false));
    assert_eq!(item_is_advance(&item("a", 1, 1, Some(7))), Ok(true));
    let rec = receipt(1, vec![item("a", 1, 1, Some(4)), item("b", 1, 1, Some(1))]);
    assert_eq!(is_advance(&rec), Ok(true));
    let rec = receipt(1, vec![item("a", 1, 1, Some(4))]);
    assert_eq!(is_advance(&rec), Ok(false));
    let mut bad = Object::new();
    bad.push(RECEIPT_ITEM, Value::Num(1));
    assert!(is_advance(&bad).is_err());
}

#[test]
fn the_page_of_a_receipt_to_split() {
    let rec = receipt(1, vec![item("milk", 80, 160, None), item("bread", 45, 45, Some(3))]);
    let p = receipt_page(&rec).unwrap();
    assert_eq!(p.total, 990);
    assert_eq!(p.receipt_id, "777_0000012");
    assert!(!p.is_refund);
    assert!(p.is_advance);
    assert_eq!(p.items.len(), 2);
    assert_eq!(p.items[0].name, "milk");
    assert_eq!(p.items[0].per_item, 80);
    assert_eq!(p.items[0].total, 160);
    assert_eq!(p.items[0].unit.as_deref(), Some("шт"));
    assert!(p.items[1].is_advance);
    let rec = receipt(2, vec![item("milk", 80, 160, None)]);
    assert!(refund_prices_ok(&rec));
    let p = receipt_page(&rec).unwrap();
    assert!(p.is_refund);
    assert_eq!(p.items[0].total, -160);
    let rec = receipt(9, vec![]);
    assert!(receipt_page(&rec).is_err());
}

#[test]
fn list_entries_are_matched_to_receipt_items() {
    let rec = receipt(1, vec![item("Молоко 3.2%", 1, 1, None), item("Хлеб белый нарезной", 1, 1, None)]);
    assert_eq!(bought_item("молоко", &rec), Some(0));
    assert_eq!(bought_item("нарезной", &rec), Some(1));
    assert_eq!(bought_item("хлеб", &rec), Some(1));
    assert_eq!(bought_item("белый", &rec), None);
    assert_eq!(bought_item("сыр", &rec), None);
}

#[test]
fn taxcom_test() {
    let data = "<!DOCTYPE html><html><body><div class=\"receipt\">\
        <div class=\"receipt-row\"><span class=\"receipt-col1\">ФН:</span><span class=\"receipt-value-1041\">9282440300669857</span></div>\
        <div class=\"receipt-row\"><span class=\"receipt-col1\">ФД:</span><span class=\"receipt-value-1040\">61012</span></div>\
        <div class=\"receipt-row\"><span class=\"receipt-col1\">ФП:</span><span class=\"receipt-value-1077\">2473958542</span></div>\
        <div class=\"receipt-row\"><span class=\"receipt-col1\">ИТОГ:</span><span class=\"receipt-value-1020\">1479.98</span></div>\
        <div class=\"receipt-row\"><span class=\"receipt-value-1012\">16.03.24 18:41</span></div>\
        </div></body></html>";
    let mut rec = Object::new();
    taxcom_parse(data.as_bytes(), &mut rec).unwrap();
    assert_eq!(rec.get_num(TOTAL_SUM, u64::MAX).unwrap(), Some(147998));
    assert_eq!(rec.get_u32(DOC_NUM).unwrap(), Some(61012));
}

#[test]
fn the_taxcom_search_lands_on_a_receipt_id() {
    let q = vec![("a".to_owned(), "1".to_owned()), ("id".to_owned(), "abc".to_owned()), ("id".to_owned(), "def".to_owned())];
    assert_eq!(search_id("/v01/show", &q), Some("abc".to_owned()));
    assert_eq!(search_id("/v01/search", &q), None);
    assert_eq!(search_id("/show", &[]), None);
    assert_eq!(search_id("how", &q), None);
}
