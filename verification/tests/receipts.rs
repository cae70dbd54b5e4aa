use coop_ofd::bill::{item_prices, receipt_id, receipt_transaction, refund_of, submit_request, SubmitError};
use coop_ofd::fields::{ITEM_TOTAL_PRICE, PAYMENT_TYPE, RECEIPT_ITEM};
use coop_ofd::object::{Object, Value};
use coop_ofd::ledger::{Timestamp, TransactionMeta};

fn form(pairs: &[(&str, &str)]) -> Vec<(String, String)> {
    pairs.iter().map(|(k, v)| (k.to_string(), v.to_string())).collect()
}

const NOW: Timestamp = Timestamp { secs: 1700000000, nanos: 0 };

#[test]
fn submitted_forms_need_fn_i_and_username() {
    let r = submit_request(&form(&[("i", "1"), ("username", "a")]));
    assert_eq!(r.err(), Some(SubmitError::MissingFn));
    let r = submit_request(&form(&[("fn", "12a"), ("i", "1"), ("username", "a")]));
    assert_eq!(r.err(), Some(SubmitError::MissingFn));
    let r = submit_request(&form(&[("fn", "123"), ("i", "x"), ("username", "a")]));
    assert_eq!(r.err(), Some(SubmitError::MissingI));
    let r = submit_request(&form(&[("fn", "123"), ("i", "4")]));
    assert_eq!(r.err(), Some(SubmitError::MissingUsername));
    let q = submit_request(&form(&[("fn", "9960440300000001"), ("i", "42"), ("username", "alice")])).unwrap();
    assert_eq!(q.drive_num, "9960440300000001");
    assert_eq!(q.doc_num, 42);
    assert_eq!(q.username, "alice");
    assert_eq!(SubmitError::MissingFn.message(), "missing fn");
    assert_eq!(SubmitError::MissingI.message(), "missing i");
    assert_eq!(SubmitError::MissingUsername.message(), "missing username");
    assert_eq!(SubmitError::InvalidPaymentType.message(), "invalid payment type");
}

#[test]
fn receipts_are_remembered_by_drive_and_padded_document_number() {
    assert_eq!(receipt_id("9960440300000001", 42), "9960440300000001_0000042");
    assert_eq!(receipt_id("1", 12345678), "1_12345678");
}

#[test]
fn items_taken_by_the_same_people_are_shared_as_a_group() {
    // item 0 (100) and item 2 (51) were taken by alice and bob, item 1 (70) by carol
    let f = form(&[
        ("alice$0", "on"),
        ("bob$0", "on"),
        ("carol$1", "on"),
        ("alice$2", "on"),
        ("bob$2", "true"),
        ("bob$1", "off"),
        ("dave$x", "on"),
    ]);
    let prices = [100u64, 70, 51];
    let drive = "123".to_owned();
    let t = receipt_transaction(&f, &"alice".to_owned(), &drive, 7, false, &prices, NOW).unwrap();
    let bc = &t.balance_changes;
    // the group (alice, bob) costs 151, each owes 75: bob pays alice 75
    assert_eq!(bc.get(&"bob".to_owned()), -75);
    // carol alone took item 1 and pays all of it to alice
    assert_eq!(bc.get(&"carol".to_owned()), -70);
    assert_eq!(bc.get(&"alice".to_owned()), 145);
    assert_eq!(bc.get(&"dave".to_owned()), 0);
    match &t.meta {
        Some(TransactionMeta::Receipt { drive_num, doc_num, paid }) => {
            assert_eq!(drive_num, "123");
            assert_eq!(*doc_num, 7);
            assert_eq!(
                paid,
                &vec![
                    ("alice".to_owned(), vec![0usize, 2]),
                    ("bob".to_owned(), vec![0usize, 2]),
                    ("carol".to_owned(), vec![1usize]),
                ]
            );
        }
        _ => panic!("expected a receipt"),
    }
}

#[test]
fn a_refund_turns_the_bill_around() {
    let f = form(&[("alice$0", "on"), ("bob$0", "on")]);
    let prices = [101u64];
    let t = receipt_transaction(&f, &"alice".to_owned(), &"1".to_owned(), 1, true, &prices, NOW).unwrap();
    assert_eq!(t.balance_changes.get(&"bob".to_owned()), 50);
    assert_eq!(t.balance_changes.get(&"alice".to_owned()), -50);
}

#[test]
fn an_item_beyond_the_receipt_costs_nothing() {
    let f = form(&[("bob$5", "on")]);
    let prices = [101u64];
    let t = receipt_transaction(&f, &"alice".to_owned(), &"1".to_owned(), 1, false, &prices, NOW).unwrap();
    assert!(t.balance_changes.entries.is_empty());
}

#[test]
fn a_bill_that_overflows_is_refused() {
    let f = form(&[("bob$0", "on")]);
    let prices = [u64::MAX];
    assert!(receipt_transaction(&f, &"alice".to_owned(), &"1".to_owned(), 1, false, &prices, NOW).is_none());
    let f = form(&[("bob$0", "on"), ("bob$1", "on")]);
    let prices = [u64::MAX, 1];
    assert!(receipt_transaction(&f, &"alice".to_owned(), &"1".to_owned(), 1, false, &prices, NOW).is_none());
}

#[test]
fn the_payment_type_decides_a_refund() {
    let mut rec = Object::new();
    assert_eq!(refund_of(&rec), Err(SubmitError::InvalidPaymentType));
    for (code, refund) in [(1u64, Some(false)), (4, Some(false)), (3, Some(true)), (2, Some(true)), (0, None), (9, None)] {
        rec.set_num(PAYMENT_TYPE, code);
        assert_eq!(refund_of(&rec).ok(), refund);
    }
    rec.set_num(PAYMENT_TYPE, 300);
    assert_eq!(refund_of(&rec), Err(SubmitError::InvalidPaymentType));
    assert_eq!(SubmitError::MissingReceipt.message(), "missing receipt cache 1");
    assert_eq!(SubmitError::InvalidReceipt.message(), "invalid receipt cache 2");
}

#[test]
fn item_prices_are_read_with_zero_for_missing_ones() {
    let mut rec = Object::new();
    let mut a = Object::new();
    a.set_num(ITEM_TOTAL_PRICE, 150);
    rec.push(RECEIPT_ITEM, Value::Nested(a));
    rec.push(RECEIPT_ITEM, Value::Nested(Object::new()));
    assert_eq!(item_prices(&rec), vec![150, 0]);
    let mut bad = Object::new();
    bad.push(RECEIPT_ITEM, Value::Num(3));
    assert_eq!(item_prices(&bad), Vec::<u64>::new());
}
