use coop_ofd::ledger::{order_by_users, prepare_transaction, Ledger, Timestamp, Transaction, TransactionMeta};

fn s(x: &str) -> String {
    x.to_owned()
}

fn sorted(l: &Ledger) -> Vec<(String, i64)> {
    let mut v = l.entries.clone();
    v.sort();
    v
}

#[test]
fn payments_move_money_between_two_people() {
    let mut tr = Transaction::new_at(None, Timestamp { secs: 10, nanos: 0 });
    tr.pay("alice", "bob", 300);
    tr.pay("carol", "bob", 200);
    assert_eq!(tr.balance_changes.get(&s("alice")), -300);
    assert_eq!(tr.balance_changes.get(&s("bob")), 500);
    assert_eq!(tr.balance_changes.get(&s("carol")), -200);
    assert_eq!(tr.balance_changes.get(&s("dave")), 0);
    let sum: i64 = tr.balance_changes.entries.iter().map(|e| e.1).sum();
    assert_eq!(sum, 0);
}

#[test]
fn paying_oneself_changes_nothing_once_finalized() {
    let mut tr = Transaction::new_at(None, Timestamp { secs: 0, nanos: 0 });
    tr.pay("alice", "alice", 300);
    assert_eq!(tr.balance_changes.get(&s("alice")), 0);
    tr.finalize();
    assert!(tr.balance_changes.entries.is_empty());
}

#[test]
fn inverting_turns_a_payment_around() {
    let mut tr = Transaction::new_at(None, Timestamp { secs: 0, nanos: 0 });
    tr.pay("alice", "bob", 300);
    tr.invert();
    assert_eq!(tr.balance_changes.get(&s("alice")), 300);
    assert_eq!(tr.balance_changes.get(&s("bob")), -300);
}

#[test]
fn applying_then_applying_the_inverse_restores_balances() {
    let mut balance = Ledger::new();
    balance.add(&s("alice"), 1000);
    balance.add(&s("bob"), -1000);
    let before = sorted(&balance);
    let mut tr = Transaction::new_at(None, Timestamp { secs: 0, nanos: 0 });
    tr.pay("bob", "alice", 250);
    tr.pay("carol", "alice", 100);
    assert!(balance.can_apply_changes(&tr.balance_changes));
    balance.apply(&tr.balance_changes);
    assert_eq!(balance.get(&s("alice")), 1350);
    assert_eq!(balance.get(&s("bob")), -1250);
    assert_eq!(balance.get(&s("carol")), -100);
    tr.invert();
    balance.apply(&tr.balance_changes);
    assert_eq!(sorted(&balance), before);
}

#[test]
fn applying_drops_people_who_are_even() {
    let mut balance = Ledger::new();
    balance.add(&s("alice"), 100);
    balance.add(&s("bob"), -100);
    let mut tr = Transaction::new_at(None, Timestamp { secs: 0, nanos: 0 });
    tr.pay("alice", "bob", 100);
    balance.apply(&tr.balance_changes);
    assert!(balance.entries.is_empty());
}

#[test]
fn overflowing_changes_are_told_apart() {
    let mut balance = Ledger::new();
    balance.add(&s("alice"), i64::MAX);
    let mut c = Ledger::new();
    c.add(&s("alice"), 1);
    assert!(!balance.can_apply_changes(&c));
    let mut d = Ledger::new();
    d.add(&s("alice"), -1);
    assert!(balance.can_apply_changes(&d));
}

#[test]
fn empty_transactions_are_not_recorded() {
    let balance = Ledger::new();
    let tr = Transaction::new_at(None, Timestamp { secs: 0, nanos: 0 });
    assert!(prepare_transaction(&balance, tr, Timestamp { secs: 5, nanos: 0 }).is_none());
    let tr = Transaction::new_at(Some(TransactionMeta::Comment(s("tea"))), Timestamp { secs: 0, nanos: 0 });
    let t = prepare_transaction(&balance, tr, Timestamp { secs: 5, nanos: 7 }).unwrap();
    assert_eq!(t.date, Timestamp { secs: 5, nanos: 7 });
    assert!(t.prev_state.unwrap().entries.is_empty());
}

#[test]
fn balances_follow_the_order_of_users() {
    let mut l = Ledger::new();
    l.add(&s("zoe"), 5);
    l.add(&s("bob"), -3);
    l.add(&s("stranger"), 7);
    l.add(&s("alice"), -9);
    let users = vec![s("alice"), s("bob"), s("carol"), s("zoe")];
    let v = order_by_users(&l, &users);
    assert_eq!(v, vec![(s("stranger"), 7), (s("alice"), -9), (s("bob"), -3), (s("zoe"), 5)]);
}

#[test]
fn inverting_twice_gives_the_transaction_back() {
    let mut tr = Transaction::new_at(None, Timestamp { secs: 0, nanos: 0 });
    tr.pay("alice", "bob", 300);
    tr.pay("bob", "carol", 50);
    let before = sorted(&tr.balance_changes);
    tr.invert();
    assert_ne!(sorted(&tr.balance_changes), before);
    tr.invert();
    assert_eq!(sorted(&tr.balance_changes), before);
}
