use coop_ofd::clock::{now, timestamp_from_text, timestamp_since_epoch, timestamp_text, FileRes, Visitor};
use coop_ofd::filters::{c_escape, CEscapeFilter, CurrencyFilter};
use coop_ofd::fields::{DATE_TIME, DOC_FISCAL_SIGN, DOC_NUM, DRIVE_NUM, ITEM_NAME, ITEM_QUANTITY_UNIT, PAYMENT_TYPE, RECEIPT_ITEM, TOTAL_SUM, UNIT};
use coop_ofd::ledger::{stamp_transaction, Ledger, Timestamp, Transaction, TransactionMeta};
use coop_ofd::legacy::{legacy_migration_record, legacy_name, Ofd, ReceiptFormatVersion};
use coop_ofd::object::{DateTime, Object, Value};
use coop_ofd::ofd::custom::Id;
use coop_ofd::stats::{all_items_named, replay, CommentStats, Commodities};

#[test]
fn text_is_escaped_as_rust_escapes_it() {
    assert_eq!(c_escape("a\"b\\c\n\t'"), "a\\\"b\\\\c\\n\\t\\'");
    assert_eq!(c_escape("é"), "\\u{e9}");
    assert_eq!(c_escape("\u{1}"), "\\u{1}");
    assert_eq!(CEscapeFilter.apply("plain text"), "plain text");
    assert_eq!(c_escape("é"), "é".escape_default().collect::<String>());
    assert_eq!(c_escape("\r\u{7f}~"), "\r\u{7f}~".escape_default().collect::<String>());
}

#[test]
fn kopecks_show_as_rubles() {
    assert_eq!(CurrencyFilter.apply_integer(12300), "123.00");
    assert_eq!(CurrencyFilter.apply_integer(-5), "-0.05");
    assert_eq!(CurrencyFilter.apply_integer(7), "0.07");
    assert_eq!(CurrencyFilter.apply_integer(0), "0.00");
    assert_eq!(CurrencyFilter.apply_integer(123456), format!("{:.2}", 123456f64 / 100.));
}

#[test]
fn transaction_dates_read_and_write_as_rfc3339() {
    let t = timestamp_from_text("2024-04-20T09:50:00+03:00").unwrap();
    assert_eq!(t, Timestamp { secs: 1713595800, nanos: 0 });
    assert_eq!(timestamp_text(t).unwrap(), "2024-04-20T06:50:00Z");
    assert_eq!(Visitor.visit_str("not a date"), None);
    let r = FileRes::new(5u8);
    assert_eq!(*r.get(), 5);
    assert!(FileRes::<u8>::empty().value.is_none());
    assert_eq!(Ofd::default(), Ofd::PlatformaOfd);
}

#[test]
fn times_out_of_range_have_no_text() {
    let at = |secs: i64, nanos: u32| timestamp_text(Timestamp { secs, nanos });
    assert_eq!(at(8_210_266_876_799, 0).unwrap(), "+262142-12-31T23:59:59Z");
    assert_eq!(at(8_210_266_876_800, 0), None);
    assert_eq!(at(-8_334_601_228_800, 0).unwrap(), "-262143-01-01T00:00:00Z");
    assert_eq!(at(-8_334_601_228_801, 0), None);
    assert_eq!(at(i64::MAX, 0), None);
    assert_eq!(at(59, 1_000_000_000).unwrap(), "1970-01-01T00:00:60Z");
    assert_eq!(at(0, 1_000_000_000), None);
    assert_eq!(at(59, 2_000_000_000), None);
    assert_eq!(at(0, 500_000_000).unwrap(), "1970-01-01T00:00:00.500Z");
}

fn tr(changes: &[(&str, i64)], meta: Option<TransactionMeta>, secs: i64) -> Transaction {
    let mut t = Transaction::new_at(meta, Timestamp { secs, nanos: 0 });
    for (name, v) in changes {
        t.balance_changes.add(&name.to_string(), *v);
    }
    t
}

#[test]
fn replaying_transactions_adds_them_up() {
    let trs = vec![
        tr(&[("alice", 100), ("bob", -100)], Some(TransactionMeta::Comment2("tea".to_owned(), 100)), 1),
        tr(&[("alice", -100), ("bob", 100)], Some(TransactionMeta::Comment("tea".to_owned())), 2),
        tr(&[("carol", 5), ("bob", -5)], Some(TransactionMeta::Receipt { drive_num: "12".to_owned(), doc_num: 3, paid: vec![] }), 3),
        tr(&[], Some(TransactionMeta::Receipt { drive_num: "12".to_owned(), doc_num: 3, paid: vec![] }), 4),
    ];
    let r = replay(&trs).unwrap();
    assert_eq!(r.balance.get(&"alice".to_owned()), 0);
    assert_eq!(r.balance.get(&"bob".to_owned()), -5);
    assert_eq!(r.balance.get(&"carol".to_owned()), 5);
    assert_eq!(r.balance.entries.len(), 2);
    assert_eq!(r.paid_receipts, vec!["12_0000003".to_owned()]);
    assert_eq!(r.comments.table.len(), 1);
    let tea = r.comments.get(&"tea".to_owned()).unwrap();
    assert_eq!(tea.count, 2);
    assert_eq!(tea.last_price, 100);
    assert_eq!(tea.last_time, Timestamp { secs: 2, nanos: 0 });
    let over = vec![tr(&[("alice", i64::MAX)], None, 1), tr(&[("alice", 1)], None, 2)];
    assert!(replay(&over).is_none());
}

#[test]
fn comment_statistics_count_uses() {
    let mut c = CommentStats::new();
    c.record(&"lunch".to_owned(), Some(350), Timestamp { secs: 9, nanos: 1 });
    c.record(&"lunch".to_owned(), None, Timestamp { secs: 10, nanos: 0 });
    assert_eq!(c.table.len(), 1);
    let lunch = c.get(&"lunch".to_owned()).unwrap();
    assert_eq!(lunch.count, 2);
    assert_eq!(lunch.last_price, 350);
    assert_eq!(lunch.last_time, Timestamp { secs: 10, nanos: 0 });
    assert_eq!(c.get(&"dinner".to_owned()), None);
}

fn named(name: &str, unit: &str) -> Object {
    let mut o = Object::new();
    o.set_text(ITEM_NAME, name.to_owned());
    o.set_text(UNIT, unit.to_owned());
    o
}

#[test]
fn goods_bought_are_counted_with_their_last_date() {
    let d1 = DateTime { year: 2024, month: 4, day: 20, hour: 9, minute: 0, second: 0 };
    let d0 = DateTime { year: 2023, month: 1, day: 1, hour: 0, minute: 0, second: 0 };
    let mut rec = Object::new();
    rec.set_time(DATE_TIME, d1);
    rec.push(RECEIPT_ITEM, Value::Nested(named("milk", "л")));
    rec.push(RECEIPT_ITEM, Value::Nested(named("milk", "")));
    assert!(all_items_named(&rec));
    let mut c = Commodities::new();
    c.record_receipt(&rec, true);
    let milk = || c.get(&"milk".to_owned()).unwrap();
    assert_eq!(c.table.len(), 1);
    assert_eq!(milk().count, 2);
    assert_eq!(milk().unit, "л");
    assert_eq!(milk().last_time, d1);
    assert!(c.get(&"bread".to_owned()).is_none());
    let mut older = Object::new();
    older.set_time(DATE_TIME, d0);
    older.push(RECEIPT_ITEM, Value::Nested(named("milk", "")));
    c.record_receipt(&older, true);
    assert_eq!(c.get(&"milk".to_owned()).unwrap().last_time, d1);
    c.record_receipt(&older, false);
    assert_eq!(c.get(&"milk".to_owned()).unwrap().last_time, d0);
    assert_eq!(c.get(&"milk".to_owned()).unwrap().count, 4);
    let mut unnamed = Object::new();
    unnamed.push(RECEIPT_ITEM, Value::Nested(Object::new()));
    assert!(!all_items_named(&unnamed));
}

#[test]
fn receipts_of_the_first_format_are_fetched_again() {
    assert_eq!(legacy_name("123_45_6789"), Some(("123".to_owned(), 45, 6789)));
    assert_eq!(legacy_name("123_45"), None);
    assert_eq!(legacy_name("123_x_6789"), None);
    let o = legacy_migration_record("123_45_1234567890", "20240420T0950", 990, "abc".to_owned()).unwrap();
    assert_eq!(o.get_text(DRIVE_NUM).unwrap(), Some("123".to_owned()));
    assert_eq!(o.get_u32(DOC_NUM).unwrap(), Some(45));
    assert_eq!(o.get_num(TOTAL_SUM, u64::MAX).unwrap(), Some(990));
    assert_eq!(o.get_u8(PAYMENT_TYPE).unwrap(), Some(1));
    assert_eq!(o.get_bytes6(DOC_FISCAL_SIGN).unwrap(), Some([0, 0, 0x49, 0x96, 0x02, 0xd2]));
    assert_eq!(o.get_text(Id::TAG).unwrap(), Some("abc".to_owned()));
    let o = legacy_migration_record("123_45_1", "20240420T0950", 990, String::new()).unwrap();
    assert!(!o.contains(Id::TAG));
    assert!(legacy_migration_record("123_45_1", "yesterday", 990, String::new()).is_none());
    let _ = Ledger::new();
}

#[test]
fn the_clock_reads_the_present() {
    let t = now().unwrap();
    assert!(t.secs > 1_600_000_000);
    assert!(t.nanos < 1_000_000_000);
    assert!(timestamp_text(t).is_some());
}

#[test]
fn clock_readings_become_times_chrono_holds() {
    assert_eq!(timestamp_since_epoch(0, 0), Some(Timestamp { secs: 0, nanos: 0 }));
    assert_eq!(timestamp_since_epoch(1_713_595_800, 5), Some(Timestamp { secs: 1_713_595_800, nanos: 5 }));
    assert_eq!(timestamp_since_epoch(59, 1_500_000_000), Some(Timestamp { secs: 59, nanos: 1_500_000_000 }));
    assert_eq!(timestamp_since_epoch(58, 1_500_000_000), None);
    assert_eq!(timestamp_since_epoch(8_210_266_876_799, 0), Some(Timestamp { secs: 8_210_266_876_799, nanos: 0 }));
    assert_eq!(timestamp_since_epoch(8_210_266_876_800, 0), None);
    assert_eq!(timestamp_since_epoch(u64::MAX, 0), None);
}

#[test]
fn transactions_are_dated_when_stamped() {
    let t = Transaction::new(None).unwrap();
    assert!(t.date.secs > 1_600_000_000);
    assert!(t.balance_changes.is_empty() && t.meta.is_none() && t.prev_state.is_none());
    let mut balance = Ledger::new();
    balance.add(&"a".to_string(), 7);
    assert!(matches!(stamp_transaction(&balance, t), Ok(None)));
    let mut t = Transaction::new_at(None, Timestamp { secs: 0, nanos: 0 });
    t.pay("a", "b", 3);
    let s = stamp_transaction(&balance, t).unwrap().unwrap();
    assert!(s.date.secs > 1_600_000_000);
    assert_eq!(s.prev_state.unwrap().get(&"a".to_string()), 7);
    assert_eq!(s.balance_changes.get(&"b".to_string()), 3);
}

#[test]
fn receipt_format_versions_are_stored_as_numbers() {
    assert_eq!(ReceiptFormatVersion::from(1u8), ReceiptFormatVersion::Fns);
    assert_eq!(ReceiptFormatVersion::from(0u8), ReceiptFormatVersion::Json);
    assert_eq!(ReceiptFormatVersion::from(7u8), ReceiptFormatVersion::Json);
    assert_eq!(u8::from(ReceiptFormatVersion::Fns), 1);
    assert_eq!(u8::from(ReceiptFormatVersion::Json), 0);
    assert_eq!(ReceiptFormatVersion::default(), ReceiptFormatVersion::Json);
    for v in [ReceiptFormatVersion::Json, ReceiptFormatVersion::Fns] {
        assert_eq!(ReceiptFormatVersion::from(u8::from(v)), v);
    }
}

#[test]
fn goods_without_a_unit_name_keep_their_quantity_unit_code() {
    let mut piece = named("bread", "");
    piece.set_num(ITEM_QUANTITY_UNIT, 0);
    let mut litre = named("milk", "л");
    litre.set_num(ITEM_QUANTITY_UNIT, 41);
    let mut rec = Object::new();
    rec.push(RECEIPT_ITEM, Value::Nested(piece));
    rec.push(RECEIPT_ITEM, Value::Nested(litre));
    rec.push(RECEIPT_ITEM, Value::Nested(named("salt", "")));
    let mut c = Commodities::new();
    c.record_receipt(&rec, true);
    assert_eq!(c.get(&"bread".to_owned()).unwrap().unit, "0");
    assert_eq!(c.get(&"milk".to_owned()).unwrap().unit, "л");
    assert_eq!(c.get(&"salt".to_owned()).unwrap().unit, "");
}
