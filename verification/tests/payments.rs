use coop_ofd::ledger::{Timestamp, TransactionMeta};
use coop_ofd::pay::{plan_payment, PayError};

fn form(pairs: &[(&str, &str)]) -> Vec<(String, String)> {
    pairs.iter().map(|(k, v)| (k.to_string(), v.to_string())).collect()
}

fn users() -> Vec<String> {
    vec!["alice".to_owned(), "bob".to_owned(), "carol".to_owned()]
}

fn amount(p: &coop_ofd::pay::PayPlan, who: &str) -> i64 {
    p.transaction.balance_changes.get(&who.to_owned())
}

const NOW: Timestamp = Timestamp { secs: 1700000000, nanos: 0 };

#[test]
fn payment_forms_are_refused_with_their_answers() {
    let r = plan_payment(&form(&[("amount", "100")]), &users(), NOW);
    assert_eq!(r.err(), Some(PayError::MissingTo));
    assert_eq!(PayError::MissingTo.message(), "missing to");
    let r = plan_payment(&form(&[("to", "bob")]), &users(), NOW);
    assert_eq!(r.err(), Some(PayError::MissingAmount));
    assert_eq!(PayError::MissingAmount.message(), "missing amount");
    for bad in ["0", "abc", "1.5", ""] {
        let r = plan_payment(&form(&[("to", "bob"), ("amount", bad)]), &users(), NOW);
        assert_eq!(r.err(), Some(PayError::InvalidAmount));
    }
    assert_eq!(PayError::InvalidAmount.message(), "invalid amount");
}

#[test]
fn a_payment_from_one_person() {
    let p = plan_payment(&form(&[("to", "bob"), ("amount", "250"), ("from", "alice")]), &users(), NOW).unwrap();
    assert_eq!(amount(&p, "alice"), -250);
    assert_eq!(amount(&p, "bob"), 250);
    assert_eq!(amount(&p, "carol"), 0);
    assert_eq!(p.transaction.balance_changes.entries.len(), 2);
    assert!(!p.is_html);
    assert!(p.transaction.meta.is_none());
    assert_eq!(p.transaction.date, NOW);
}

#[test]
fn a_payment_split_among_all_users_rounds_toward_zero() {
    let p = plan_payment(&form(&[("to", "bob"), ("amount", "100")]), &users(), NOW).unwrap();
    assert_eq!(amount(&p, "alice"), -33);
    assert_eq!(amount(&p, "carol"), -33);
    assert_eq!(amount(&p, "bob"), 66);
    let p = plan_payment(&form(&[("to", "bob"), ("amount", "-100")]), &users(), NOW).unwrap();
    assert_eq!(amount(&p, "alice"), 33);
    assert_eq!(amount(&p, "bob"), -66);
}

#[test]
fn a_page_payment_splits_among_the_ticked() {
    let f = form(&[
        ("to", "carol"),
        ("amount", "90"),
        ("response-format", "html"),
        ("from_alice", "on"),
        ("from_bob", "off"),
        ("from_carol", "1"),
        ("comment", "pizza"),
    ]);
    let p = plan_payment(&f, &users(), NOW).unwrap();
    assert!(p.is_html);
    assert_eq!(amount(&p, "alice"), -45);
    assert_eq!(amount(&p, "bob"), 0);
    assert_eq!(amount(&p, "carol"), 45);
    assert_eq!(p.comment.as_deref(), Some("pizza"));
    match &p.transaction.meta {
        Some(TransactionMeta::Comment2(c, a)) => {
            assert_eq!(c, "pizza");
            assert_eq!(*a, 90);
        }
        _ => panic!("expected a comment with its price"),
    }
}

#[test]
fn a_page_payment_with_nobody_ticked_changes_nothing() {
    let f = form(&[("to", "carol"), ("amount", "90"), ("response-format", "html")]);
    let p = plan_payment(&f, &users(), NOW).unwrap();
    assert!(p.transaction.balance_changes.entries.is_empty());
}
