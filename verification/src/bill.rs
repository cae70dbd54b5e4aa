//! Splitting a receipt: who took which items, and what each owes the one who paid.
use vstd::prelude::*;
use crate::form::{falsy, form_value, form_view, get, is_falsy};
use crate::ledger::{amount, fits_i64, no_zeros, total, Timestamp, Transaction, TransactionMeta};
use crate::fields::{payment_type_of, read_nested, read_num, PaymentType, ITEM_TOTAL_PRICE, PAYMENT_TYPE, RECEIPT_ITEM};
use crate::num::{decimal, parse_u32, parse_unsigned, parse_usize, write_decimal_padded, zero_pad};
use crate::object::{FieldValue, Object};
use crate::pay::split_amount;
use crate::text::{all_ascii_digits, from_chars, is_all_digits, push_all, split_once, split_once_char, to_chars};

verus! {

/// The (person, item number) pairs that a submitted receipt form ticks, in form order:
/// each field `<person>$<item>` whose value does not mean "no" and whose item number
/// reads as a `usize`.
pub open spec fn ticked_pairs(f: Seq<(Seq<char>, Seq<char>)>) -> Seq<(Seq<char>, int)>
    decreases f.len(),
{
    if f.len() == 0 {
        Seq::empty()
    } else {
        let r = ticked_pairs(f.drop_last());
        let e = f.last();
        match split_once_char(e.0, '$') {
            Some(p) => if !is_falsy(e.1) && parse_unsigned(p.1, usize::MAX as nat) is Some {
                r.push((p.0, parse_unsigned(p.1, usize::MAX as nat)->0 as int))
            } else {
                r
            },
            None => r,
        }
    }
}

/// The item numbers of `sel`, each once, in the order they first appear.
pub open spec fn item_order(sel: Seq<(Seq<char>, int)>) -> Seq<int>
    decreases sel.len(),
{
    if sel.len() == 0 {
        Seq::empty()
    } else {
        let r = item_order(sel.drop_last());
        if r.contains(sel.last().1) {
            r
        } else {
            r.push(sel.last().1)
        }
    }
}

/// The people who took item `idx`, each once, in the order they first appear.
pub open spec fn takers(sel: Seq<(Seq<char>, int)>, idx: int) -> Seq<Seq<char>>
    decreases sel.len(),
{
    if sel.len() == 0 {
        Seq::empty()
    } else {
        let r = takers(sel.drop_last(), idx);
        if sel.last().1 == idx && !r.contains(sel.last().0) {
            r.push(sel.last().0)
        } else {
            r
        }
    }
}

/// Items `a` and `b` were taken by the same people.
pub open spec fn same_takers(sel: Seq<(Seq<char>, int)>, a: int, b: int) -> bool {
    forall|u: Seq<char>| #[trigger] sel.contains((u, a)) == sel.contains((u, b))
}

/// The total price of item `idx`; an item the receipt does not have costs nothing.
pub open spec fn price(prices: Seq<u64>, idx: int) -> int {
    if 0 <= idx < prices.len() {
        prices[idx] as int
    } else {
        0
    }
}

/// The total price of the items among `order` taken by the same people as `key`.
pub open spec fn group_total(sel: Seq<(Seq<char>, int)>, prices: Seq<u64>, order: Seq<int>, key: int) -> int
    decreases order.len(),
{
    if order.len() == 0 {
        0
    } else {
        group_total(sel, prices, order.drop_last(), key) + if same_takers(sel, order.last(), key) {
            price(prices, order.last())
        } else {
            0
        }
    }
}

/// `order[k]` is the first of its group: no earlier item was taken by the same people.
pub open spec fn leads(sel: Seq<(Seq<char>, int)>, order: Seq<int>, k: int) -> bool {
    forall|j: int| 0 <= j < k ==> !same_takers(sel, #[trigger] order[j], order[k])
}

/// What the groups led among the first `m` items of `order` do to the amount of `n`:
/// for each group of items taken by the same people, each of them but `payee` pays
/// `payee` an equal share of the group's total, rounded down.
pub open spec fn bill_partial(
    sel: Seq<(Seq<char>, int)>,
    prices: Seq<u64>,
    order: Seq<int>,
    payee: Seq<char>,
    m: int,
    n: Seq<char>,
) -> int
    decreases m,
{
    if m <= 0 {
        0
    } else {
        let k = m - 1;
        bill_partial(sel, prices, order, payee, k, n) + if leads(sel, order, k) {
            let people = takers(sel, order[k]);
            split_amount(people, payee, group_total(sel, prices, order, order[k]) / people.len() as int, n)
        } else {
            0
        }
    }
}

/// What paying for the receipt does to the amount of `n`.
pub open spec fn bill_amount(sel: Seq<(Seq<char>, int)>, prices: Seq<u64>, payee: Seq<char>, n: Seq<char>) -> int {
    let order = item_order(sel);
    bill_partial(sel, prices, order, payee, order.len() as int, n)
}

/// Every group's total fits a `u64`, every share an `i64`, and every amount an `i64`:
/// the bill is computed without leaving the integer types.
pub open spec fn bill_fits(sel: Seq<(Seq<char>, int)>, prices: Seq<u64>, payee: Seq<char>) -> bool {
    let order = item_order(sel);
    &&& forall|k: int| 0 <= k < order.len() && #[trigger] leads(sel, order, k) ==> {
        let t = group_total(sel, prices, order, order[k]);
        t <= u64::MAX && t / takers(sel, order[k]).len() as int <= i64::MAX
    }
    &&& forall|n: Seq<char>| #[trigger] fits_i64(bill_amount(sel, prices, payee, n))
}

/// The view of selected (person, item) pairs.
pub open spec fn pairs_view(v: Seq<(String, usize)>) -> Seq<(Seq<char>, int)> {
    Seq::new(v.len(), |i: int| (v[i].0@, v[i].1 as int))
}

/// The names of a list of people.
pub open spec fn names(v: Seq<String>) -> Seq<Seq<char>> {
    Seq::new(v.len(), |i: int| v[i]@)
}

/// The ticked (person, item) pairs of a submitted receipt form.
pub fn collect_pairs(form: &[(String, String)]) -> (r: Vec<(String, usize)>)
    ensures
        pairs_view(r@) == ticked_pairs(form_view(form@)),
{
    let mut out: Vec<(String, usize)> = Vec::new();
    let mut i: usize = 0;
    while i < form.len()
        invariant
            i <= form.len(),
            pairs_view(out@) == ticked_pairs(form_view(form@).take(i as int)),
        decreases form.len() - i,
    {
        let ghost fv = form_view(form@);
        proof {
            assert(fv.take(i + 1).drop_last() =~= fv.take(i as int));
            assert(fv.take(i + 1).last() == (form@[i as int].0@, form@[i as int].1@));
        }
        let k = to_chars(form[i].0.as_str());
        match split_once(k.as_slice(), '$') {
            Some((who, num)) => {
                if !falsy(form[i].1.as_str()) {
                    match parse_usize(num.as_slice()) {
                        Some(idx) => {
                            let ghost before = out@;
                            out.push((from_chars(who.as_slice()), idx));
                            assert(pairs_view(out@) =~= pairs_view(before).push((who@, idx as int)));
                        },
                        None => {},
                    }
                }
            },
            None => {},
        }
        i = i + 1;
    }
    assert(form_view(form@).take(i as int) =~= form_view(form@));
    out
}

pub proof fn lemma_item_order_facts(sel: Seq<(Seq<char>, int)>)
    ensures
        forall|i: int| #[trigger] item_order(sel).contains(i) <==> exists|u: Seq<char>| sel.contains((u, i)),
        forall|a: int, b: int| 0 <= a < b < item_order(sel).len() ==> #[trigger] item_order(sel)[a] != #[trigger] item_order(sel)[b],
    decreases sel.len(),
{
    if sel.len() > 0 {
        let t = sel.drop_last();
        lemma_item_order_facts(t);
        let r = item_order(t);
        let e = sel.last();
        assert forall|i: int| #[trigger] item_order(sel).contains(i) <==> exists|u: Seq<char>| sel.contains((u, i)) by {
            if item_order(sel).contains(i) {
                if r.contains(i) {
                    let u = choose|u: Seq<char>| t.contains((u, i));
                    let x = choose|x: int| 0 <= x < t.len() && t[x] == (u, i);
                    assert(sel[x] == (u, i));
                    assert(sel.contains((u, i)));
                } else {
                    assert(i == e.1);
                    assert(sel[sel.len() - 1] == (e.0, i));
                    assert(sel.contains((e.0, i)));
                }
            }
            if exists|u: Seq<char>| sel.contains((u, i)) {
                let u = choose|u: Seq<char>| sel.contains((u, i));
                let x = choose|x: int| 0 <= x < sel.len() && sel[x] == (u, i);
                if x < t.len() {
                    assert(t[x] == (u, i));
                    assert(t.contains((u, i)));
                    assert(r.contains(i));
                    if !r.contains(e.1) {
                        let y = choose|y: int| 0 <= y < r.len() && r[y] == i;
                        assert(r.push(e.1)[y] == i);
                    }
                } else {
                    assert(e.1 == i);
                    if !r.contains(e.1) {
                        assert(r.push(e.1)[r.len() as int] == i);
                    }
                }
            }
        }
        if !r.contains(e.1) {
            let p = r.push(e.1);
            assert forall|a: int, b: int| 0 <= a < b < p.len() implies #[trigger] p[a] != #[trigger] p[b] by {
                if b == r.len() {
                    assert(p[a] == r[a]);
                } else {
                    assert(p[a] == r[a] && p[b] == r[b]);
                }
            }
        }
    }
}

pub proof fn lemma_takers_facts(sel: Seq<(Seq<char>, int)>, idx: int)
    ensures
        forall|u: Seq<char>| #[trigger] takers(sel, idx).contains(u) <==> sel.contains((u, idx)),
        forall|a: int, b: int| 0 <= a < b < takers(sel, idx).len() ==> #[trigger] takers(sel, idx)[a] != #[trigger] takers(sel, idx)[b],
    decreases sel.len(),
{
    if sel.len() > 0 {
        let t = sel.drop_last();
        lemma_takers_facts(t, idx);
        let r = takers(t, idx);
        let e = sel.last();
        assert forall|u: Seq<char>| #[trigger] takers(sel, idx).contains(u) <==> sel.contains((u, idx)) by {
            if takers(sel, idx).contains(u) {
                if r.contains(u) {
                    let x = choose|x: int| 0 <= x < t.len() && t[x] == (u, idx);
                    assert(sel[x] == (u, idx));
                } else {
                    assert(e == (u, idx));
                    assert(sel[sel.len() - 1] == (u, idx));
                }
            }
            if sel.contains((u, idx)) {
                let x = choose|x: int| 0 <= x < sel.len() && sel[x] == (u, idx);
                if x < t.len() {
                    assert(t[x] == (u, idx));
                    assert(r.contains(u));
                    if e.1 == idx && !r.contains(e.0) {
                        let y = choose|y: int| 0 <= y < r.len() && r[y] == u;
                        assert(r.push(e.0)[y] == u);
                    }
                } else {
                    assert(e == (u, idx));
                    if !r.contains(e.0) {
                        assert(r.push(e.0)[r.len() as int] == u);
                    }
                }
            }
        }
        if e.1 == idx && !r.contains(e.0) {
            let p = r.push(e.0);
            assert forall|a: int, b: int| 0 <= a < b < p.len() implies #[trigger] p[a] != #[trigger] p[b] by {
                if b == r.len() {
                    assert(p[a] == r[a]);
                } else {
                    assert(p[a] == r[a] && p[b] == r[b]);
                }
            }
        }
    }
}

/// The item numbers of `sel`, each once, in the order they first appear.
fn items_in_order(sel: &[(String, usize)]) -> (r: Vec<usize>)
    ensures
        r@.len() == item_order(pairs_view(sel@)).len(),
        forall|k: int| 0 <= k < r@.len() ==> #[trigger] r@[k] as int == item_order(pairs_view(sel@))[k],
{
    let ghost pv = pairs_view(sel@);
    let mut out: Vec<usize> = Vec::new();
    let mut i: usize = 0;
    while i < sel.len()
        invariant
            i <= sel.len(),
            pv == pairs_view(sel@),
            out@.len() == item_order(pv.take(i as int)).len(),
            forall|k: int| 0 <= k < out@.len() ==> #[trigger] out@[k] as int == item_order(pv.take(i as int))[k],
        decreases sel.len() - i,
    {
        let ghost r = item_order(pv.take(i as int));
        proof {
            assert(pv.take(i + 1).drop_last() =~= pv.take(i as int));
            assert(pv.take(i + 1).last() == (sel@[i as int].0@, sel@[i as int].1 as int));
        }
        let idx = sel[i].1;
        let mut found = false;
        let mut j: usize = 0;
        while j < out.len()
            invariant
                j <= out@.len(),
                out@.len() == r.len(),
                forall|k: int| 0 <= k < out@.len() ==> #[trigger] out@[k] as int == r[k],
                found == exists|k: int| 0 <= k < j && r[k] == idx as int,
            decreases out@.len() - j,
        {
            if out[j] == idx {
                found = true;
            }
            assert(out@[j as int] as int == r[j as int]);
            j = j + 1;
        }
        proof {
            if r.contains(idx as int) {
                let k = choose|k: int| 0 <= k < r.len() && r[k] == idx as int;
                assert(found);
            }
        }
        if !found {
            out.push(idx);
            assert(forall|k: int| 0 <= k < out@.len() ==> #[trigger] out@[k] as int == r.push(idx as int)[k]);
        }
        i = i + 1;
    }
    assert(pv.take(i as int) =~= pv);
    out
}

/// The people who took item `idx`, each once, in the order they first appear.
fn takers_of(sel: &[(String, usize)], idx: usize) -> (r: Vec<String>)
    ensures
        names(r@) == takers(pairs_view(sel@), idx as int),
{
    let ghost pv = pairs_view(sel@);
    let mut out: Vec<String> = Vec::new();
    let mut i: usize = 0;
    while i < sel.len()
        invariant
            i <= sel.len(),
            pv == pairs_view(sel@),
            names(out@) == takers(pv.take(i as int), idx as int),
        decreases sel.len() - i,
    {
        let ghost r = takers(pv.take(i as int), idx as int);
        proof {
            assert(pv.take(i + 1).drop_last() =~= pv.take(i as int));
            assert(pv.take(i + 1).last() == (sel@[i as int].0@, sel@[i as int].1 as int));
        }
        if sel[i].1 == idx {
            let mut found = false;
            let mut j: usize = 0;
            while j < out.len()
                invariant
                    j <= out@.len(),
                    i < sel@.len(),
                    names(out@) == r,
                    found == exists|k: int| 0 <= k < j && r[k] == sel@[i as int].0@,
                decreases out@.len() - j,
            {
                if out[j] == sel[i].0 {
                    found = true;
                }
                assert(names(out@)[j as int] == out@[j as int]@);
                j = j + 1;
            }
            proof {
                if r.contains(sel@[i as int].0@) {
                    let k = choose|k: int| 0 <= k < r.len() && r[k] == sel@[i as int].0@;
                    assert(found);
                }
            }
            if !found {
                let ghost before = out@;
                out.push(sel[i].0.clone());
                assert(names(out@) =~= names(before).push(sel@[i as int].0@));
            }
        }
        i = i + 1;
    }
    assert(pv.take(i as int) =~= pv);
    out
}

/// Whether `a` and `b` name the same people.
fn same_people(a: &[String], b: &[String]) -> (r: bool)
    ensures
        r == forall|u: Seq<char>| #[trigger] names(a@).contains(u) == names(b@).contains(u),
{
    let mut i: usize = 0;
    while i < a.len()
        invariant
            i <= a.len(),
            forall|k: int| 0 <= k < i ==> names(b@).contains(#[trigger] names(a@)[k]),
        decreases a.len() - i,
    {
        if !contains_name(b, &a[i]) {
            assert(names(a@)[i as int] == a@[i as int]@);
            assert(names(a@).contains(names(a@)[i as int]));
            return false;
        }
        i = i + 1;
    }
    let mut j: usize = 0;
    while j < b.len()
        invariant
            j <= b.len(),
            forall|k: int| 0 <= k < a@.len() ==> names(b@).contains(#[trigger] names(a@)[k]),
            forall|k: int| 0 <= k < j ==> names(a@).contains(#[trigger] names(b@)[k]),
        decreases b.len() - j,
    {
        if !contains_name(a, &b[j]) {
            assert(names(b@)[j as int] == b@[j as int]@);
            assert(names(b@).contains(names(b@)[j as int]));
            return false;
        }
        j = j + 1;
    }
    assert forall|u: Seq<char>| #[trigger] names(a@).contains(u) == names(b@).contains(u) by {
        if names(a@).contains(u) {
            let k = choose|k: int| 0 <= k < names(a@).len() && names(a@)[k] == u;
            assert(names(b@).contains(names(a@)[k]));
        }
        if names(b@).contains(u) {
            let k = choose|k: int| 0 <= k < names(b@).len() && names(b@)[k] == u;
            assert(names(a@).contains(names(b@)[k]));
        }
    }
    true
}

/// Whether `v` names `who`.
pub fn contains_name(v: &[String], who: &String) -> (r: bool)
    ensures
        r == names(v@).contains(who@),
{
    let mut i: usize = 0;
    while i < v.len()
        invariant
            i <= v.len(),
            forall|k: int| 0 <= k < i ==> names(v@)[k] != who@,
        decreases v.len() - i,
    {
        if v[i] == *who {
            assert(names(v@)[i as int] == who@);
            return true;
        }
        i = i + 1;
    }
    false
}

pub proof fn lemma_split_prefix_mono(ps: Seq<Seq<char>>, to: Seq<char>, share: int, n: Seq<char>, a: int, b: int)
    requires
        share >= 0,
        0 <= a <= b <= ps.len(),
    ensures
        n == to ==> split_amount(ps.take(a), to, share, n) <= split_amount(ps.take(b), to, share, n),
        n != to ==> split_amount(ps.take(a), to, share, n) >= split_amount(ps.take(b), to, share, n),
    decreases b,
{
    if a < b {
        assert(ps.take(b).drop_last() =~= ps.take(b - 1));
        lemma_split_prefix_mono(ps, to, share, n, a, b - 1);
    }
}

pub proof fn lemma_group_total_nonneg(sel: Seq<(Seq<char>, int)>, prices: Seq<u64>, order: Seq<int>, key: int)
    ensures
        group_total(sel, prices, order, key) >= 0,
    decreases order.len(),
{
    if order.len() > 0 {
        lemma_group_total_nonneg(sel, prices, order.drop_last(), key);
    }
}

pub proof fn lemma_takers_nonempty(sel: Seq<(Seq<char>, int)>, k: int)
    requires
        0 <= k < item_order(sel).len(),
    ensures
        takers(sel, item_order(sel)[k]).len() > 0,
{
    let order = item_order(sel);
    lemma_item_order_facts(sel);
    lemma_takers_facts(sel, order[k]);
    assert(order.contains(order[k]));
    let u = choose|u: Seq<char>| sel.contains((u, order[k]));
    assert(takers(sel, order[k]).contains(u));
}

pub proof fn lemma_bill_partial_mono(sel: Seq<(Seq<char>, int)>, prices: Seq<u64>, payee: Seq<char>, n: Seq<char>, a: int, b: int)
    requires
        0 <= a <= b <= item_order(sel).len(),
    ensures
        n == payee ==> bill_partial(sel, prices, item_order(sel), payee, a, n) <= bill_partial(sel, prices, item_order(sel), payee, b, n),
        n != payee ==> bill_partial(sel, prices, item_order(sel), payee, a, n) >= bill_partial(sel, prices, item_order(sel), payee, b, n),
    decreases b,
{
    let order = item_order(sel);
    if a < b {
        lemma_bill_partial_mono(sel, prices, payee, n, a, b - 1);
        let k = b - 1;
        if leads(sel, order, k) {
            let people = takers(sel, order[k]);
            lemma_takers_nonempty(sel, k);
            lemma_group_total_nonneg(sel, prices, order, order[k]);
            let share = group_total(sel, prices, order, order[k]) / people.len() as int;
            assert(share >= 0) by (nonlinear_arith)
                requires
                    group_total(sel, prices, order, order[k]) >= 0,
                    people.len() > 0,
                    share == group_total(sel, prices, order, order[k]) / people.len() as int,
            ;
            lemma_split_prefix_mono(people, payee, share, n, 0, people.len() as int);
            assert(people.take(0) =~= Seq::<Seq<char>>::empty());
            assert(people.take(people.len() as int) =~= people);
        }
    }
}

pub proof fn lemma_ledger_amount_fits(es: Seq<(String, i64)>, n: Seq<char>)
    ensures
        fits_i64(amount(crate::ledger::ledger_view(es), n)),
    decreases es.len(),
{
    let l = crate::ledger::ledger_view(es);
    if es.len() > 0 {
        assert(crate::ledger::ledger_view(es.drop_last()) =~= l.drop_last());
        lemma_ledger_amount_fits(es.drop_last(), n);
        assert(l.last() == (es.last().0@, es.last().1 as int));
    }
}

/// The condition `bill_fits` puts on the group that `order[k]` leads.
pub open spec fn group_fits(sel: Seq<(Seq<char>, int)>, prices: Seq<u64>, order: Seq<int>, k: int) -> bool {
    let t = group_total(sel, prices, order, order[k]);
    t <= u64::MAX && t / takers(sel, order[k]).len() as int <= i64::MAX
}

/// Makes each group of items pay: every person of a group other than `payee` pays
/// `payee` an equal share of the group's total. `false` where the bill does not fit
/// the integer types.
fn settle_groups(sel: &[(String, usize)], prices: &[u64], payee: &String, tr: &mut Transaction) -> (ok: bool)
    requires
        old(tr).balance_changes.wf(),
        forall|n: Seq<char>| #[trigger] amount(old(tr).balance_changes.view(), n) == 0,
        total(old(tr).balance_changes.view()) == 0,
    ensures
        final(tr).balance_changes.wf(),
        total(final(tr).balance_changes.view()) == 0,
        final(tr).meta == old(tr).meta,
        final(tr).date == old(tr).date,
        final(tr).prev_state == old(tr).prev_state,
        ok == bill_fits(pairs_view(sel@), prices@, payee@),
        ok ==> forall|n: Seq<char>| #[trigger] amount(final(tr).balance_changes.view(), n)
            == bill_amount(pairs_view(sel@), prices@, payee@, n),
{
    let ghost pv = pairs_view(sel@);
    let ghost ps = prices@;
    let ghost ord = item_order(pv);
    let order = items_in_order(sel);
    proof {
        lemma_item_order_facts(pv);
    }
    let mut groups: Vec<Vec<String>> = Vec::new();
    let mut m: usize = 0;
    while m < order.len()
        invariant
            m <= order@.len(),
            order@.len() == ord.len(),
            forall|q: int| 0 <= q < order@.len() ==> #[trigger] order@[q] as int == ord[q],
            groups@.len() == m,
            forall|q: int| 0 <= q < m ==> names(#[trigger] groups@[q]@) == takers(pv, ord[q]),
            pv == pairs_view(sel@),
        decreases order@.len() - m,
    {
        let g = takers_of(sel, order[m]);
        assert(order@[m as int] as int == ord[m as int]);
        groups.push(g);
        m = m + 1;
    }
    let mut k: usize = 0;
    while k < order.len()
        invariant
            k <= order@.len(),
            order@.len() == ord.len(),
            forall|q: int| 0 <= q < order@.len() ==> #[trigger] order@[q] as int == ord[q],
            groups@.len() == order@.len(),
            forall|q: int| 0 <= q < order@.len() ==> names(#[trigger] groups@[q]@) == takers(pv, ord[q]),
            pv == pairs_view(sel@),
            ps == prices@,
            ord == item_order(pv),
            tr.balance_changes.wf(),
            total(tr.balance_changes.view()) == 0,
            tr.meta == old(tr).meta,
            tr.date == old(tr).date,
            tr.prev_state == old(tr).prev_state,
            forall|n: Seq<char>| #[trigger] amount(tr.balance_changes.view(), n) == bill_partial(pv, ps, ord, payee@, k as int, n),
            forall|q: int| 0 <= q < k && #[trigger] leads(pv, ord, q) ==> group_fits(pv, ps, ord, q),
        decreases order@.len() - k,
    {
        let mut lead = true;
        let mut j: usize = 0;
        while j < k
            invariant
                j <= k < order@.len(),
                groups@.len() == order@.len(),
                order@.len() == ord.len(),
                forall|q: int| 0 <= q < order@.len() ==> names(#[trigger] groups@[q]@) == takers(pv, ord[q]),
                lead == forall|q: int| 0 <= q < j ==> !same_takers(pv, #[trigger] ord[q], ord[k as int]),
            decreases k - j,
        {
            let same = same_people(groups[j].as_slice(), groups[k].as_slice());
            proof {
                lemma_takers_facts(pv, ord[j as int]);
                lemma_takers_facts(pv, ord[k as int]);
                assert(names(groups@[j as int]@) == takers(pv, ord[j as int]));
                assert(names(groups@[k as int]@) == takers(pv, ord[k as int]));
                if same {
                    assert forall|u: Seq<char>| #[trigger] pv.contains((u, ord[j as int])) == pv.contains((u, ord[k as int])) by {
                        assert(takers(pv, ord[j as int]).contains(u) == takers(pv, ord[k as int]).contains(u));
                    }
                } else {
                    let u = choose|u: Seq<char>| !(#[trigger] names(groups@[j as int]@).contains(u) == names(groups@[k as int]@).contains(u));
                    assert(pv.contains((u, ord[j as int])) != pv.contains((u, ord[k as int])));
                }
            }
            if same {
                lead = false;
            }
            j = j + 1;
        }
        assert(lead == leads(pv, ord, k as int));
        let ghost before_k = tr.balance_changes.view();
        if lead {
            let mut t: u128 = 0;
            let mut m2: usize = 0;
            while m2 < order.len()
                invariant
                    m2 <= order@.len(),
                    k < order@.len(),
                    groups@.len() == order@.len(),
                    order@.len() == ord.len(),
                    forall|q: int| 0 <= q < order@.len() ==> #[trigger] order@[q] as int == ord[q],
                    forall|q: int| 0 <= q < order@.len() ==> names(#[trigger] groups@[q]@) == takers(pv, ord[q]),
                    ps == prices@,
                    t as int == group_total(pv, ps, ord.take(m2 as int), ord[k as int]),
                    t <= m2 * 0x1_0000_0000_0000_0000,
                    m2 <= usize::MAX,
                decreases order@.len() - m2,
            {
                let same = same_people(groups[m2].as_slice(), groups[k].as_slice());
                proof {
                    lemma_takers_facts(pv, ord[m2 as int]);
                    lemma_takers_facts(pv, ord[k as int]);
                    assert(names(groups@[m2 as int]@) == takers(pv, ord[m2 as int]));
                    assert(names(groups@[k as int]@) == takers(pv, ord[k as int]));
                    if same {
                        assert forall|u: Seq<char>| #[trigger] pv.contains((u, ord[m2 as int])) == pv.contains((u, ord[k as int])) by {
                            assert(takers(pv, ord[m2 as int]).contains(u) == takers(pv, ord[k as int]).contains(u));
                        }
                    } else {
                        let u = choose|u: Seq<char>| !(#[trigger] names(groups@[m2 as int]@).contains(u) == names(groups@[k as int]@).contains(u));
                        assert(pv.contains((u, ord[m2 as int])) != pv.contains((u, ord[k as int])));
                    }
                    assert(ord.take(m2 + 1).drop_last() =~= ord.take(m2 as int));
                    assert(ord.take(m2 + 1).last() == ord[m2 as int]);
                }
                let idx = order[m2];
                assert(idx as int == ord[m2 as int]);
                let pr: u64 = if idx < prices.len() { prices[idx] } else { 0 };
                if same {
                    t = t + (pr as u128);
                }
                m2 = m2 + 1;
            }
            assert(ord.take(m2 as int) =~= ord);
            let ghost gt = group_total(pv, ps, ord, ord[k as int]);
            if t > 0xffff_ffff_ffff_ffffu128 {
                assert(!group_fits(pv, ps, ord, k as int));
                return false;
            }
            let cnt = groups[k].len();
            proof {
                lemma_takers_nonempty(pv, k as int);
                assert(names(groups@[k as int]@).len() == groups@[k as int]@.len());
            }
            let share_u: u64 = (t as u64) / (cnt as u64);
            if share_u > 0x7fff_ffff_ffff_ffffu64 {
                assert(!group_fits(pv, ps, ord, k as int));
                return false;
            }
            let share = share_u as i64;
            let ghost people = takers(pv, ord[k as int]);
            assert(share as int == gt / people.len() as int);
            let mut q: usize = 0;
            while q < cnt
                invariant
                    q <= cnt,
                    k < order@.len(),
                    groups@.len() == order@.len(),
                    order@.len() == ord.len(),
                    cnt == groups@[k as int]@.len(),
                    names(groups@[k as int]@) == people,
                    people == takers(pv, ord[k as int]),
                    share >= 0,
                    ord == item_order(pv),
                    pv == pairs_view(sel@),
                    ps == prices@,
                    leads(pv, ord, k as int),
                    share as int == group_total(pv, ps, ord, ord[k as int]) / people.len() as int,
                    forall|n: Seq<char>| #[trigger] amount(before_k, n) == bill_partial(pv, ps, ord, payee@, k as int, n),
                    tr.balance_changes.wf(),
                    total(tr.balance_changes.view()) == 0,
                    tr.meta == old(tr).meta,
                    tr.date == old(tr).date,
                    tr.prev_state == old(tr).prev_state,
                    forall|n: Seq<char>| #[trigger] amount(tr.balance_changes.view(), n) == amount(before_k, n)
                        + split_amount(people.take(q as int), payee@, share as int, n),
                decreases cnt - q,
            {
                let u = &groups[k][q];
                proof {
                    assert(people[q as int] == u@);
                    assert(people.take(q + 1) =~= people.take(q as int).push(u@));
                    crate::pay::lemma_split_amount_step(people.take(q as int), u@, payee@, share as int);
                }
                if *u != *payee {
                    let au = tr.balance_changes.get(u);
                    let ap = tr.balance_changes.get(payee);
                    if (au as i128) - (share as i128) < -0x8000_0000_0000_0000i128 || (ap as i128) + (share as i128) > 0x7fff_ffff_ffff_ffffi128 {
                        proof {
                            let x = if (au as i128) - (share as i128) < -0x8000_0000_0000_0000i128 { u@ } else { payee@ };
                            lemma_split_prefix_mono(people, payee@, share as int, x, q + 1, people.len() as int);
                            assert(people.take(people.len() as int) =~= people);
                            assert(bill_partial(pv, ps, ord, payee@, k + 1, x) == bill_partial(pv, ps, ord, payee@, k as int, x)
                                + split_amount(people, payee@, share as int, x));
                            assert(amount(before_k, x) + split_amount(people.take(q + 1), payee@, share as int, x)
                                == amount(tr.balance_changes.view(), x) + if x == payee@ { share as int } else { -share });
                            lemma_bill_partial_mono(pv, ps, payee@, x, k + 1, ord.len() as int);
                            assert(!fits_i64(bill_amount(pv, ps, payee@, x)));
                        }
                        return false;
                    }
                    tr.pay(u.as_str(), payee.as_str(), share);
                }
                q = q + 1;
            }
            assert(people.take(q as int) =~= people);
        }
        k = k + 1;
    }
    proof {
        assert forall|n: Seq<char>| #[trigger] fits_i64(bill_amount(pv, ps, payee@, n)) by {
            lemma_ledger_amount_fits(tr.balance_changes.entries@, n);
        }
    }
    true
}

/// The people of `sel`, each once, in the order they first appear.
pub open spec fn people_of(sel: Seq<(Seq<char>, int)>) -> Seq<Seq<char>>
    decreases sel.len(),
{
    if sel.len() == 0 {
        Seq::empty()
    } else {
        let r = people_of(sel.drop_last());
        if r.contains(sel.last().0) {
            r
        } else {
            r.push(sel.last().0)
        }
    }
}

/// Strictly increasing.
pub open spec fn increasing(s: Seq<usize>) -> bool {
    forall|a: int, b: int| 0 <= a < b < s.len() ==> #[trigger] s[a] < #[trigger] s[b]
}

/// What the record of a paid receipt says each person took: for each person of `sel`,
/// in the order they first appear, the item numbers they ticked, in increasing order.
pub open spec fn paid_record(sel: Seq<(Seq<char>, int)>, paid: Seq<(String, Vec<usize>)>) -> bool {
    &&& paid.len() == people_of(sel).len()
    &&& forall|k: int| 0 <= k < paid.len() ==> (#[trigger] paid[k]).0@ == people_of(sel)[k]
    &&& forall|k: int| 0 <= k < paid.len() ==> increasing((#[trigger] paid[k]).1@)
    &&& forall|k: int, i: usize| 0 <= k < paid.len() ==> (#[trigger] paid[k].1@.contains(i) <==> sel.contains((people_of(sel)[k], i as int)))
}

pub proof fn lemma_people_facts(sel: Seq<(Seq<char>, int)>)
    ensures
        forall|u: Seq<char>| #[trigger] people_of(sel).contains(u) <==> exists|i: int| sel.contains((u, i)),
    decreases sel.len(),
{
    if sel.len() > 0 {
        let t = sel.drop_last();
        lemma_people_facts(t);
        let r = people_of(t);
        let e = sel.last();
        assert forall|u: Seq<char>| #[trigger] people_of(sel).contains(u) <==> exists|i: int| sel.contains((u, i)) by {
            if people_of(sel).contains(u) {
                if r.contains(u) {
                    let i = choose|i: int| t.contains((u, i));
                    let x = choose|x: int| 0 <= x < t.len() && t[x] == (u, i);
                    assert(sel[x] == (u, i));
                    assert(sel.contains((u, i)));
                } else {
                    assert(u == e.0);
                    assert(sel[sel.len() - 1] == (u, e.1));
                    assert(sel.contains((u, e.1)));
                }
            }
            if exists|i: int| sel.contains((u, i)) {
                let i = choose|i: int| sel.contains((u, i));
                let x = choose|x: int| 0 <= x < sel.len() && sel[x] == (u, i);
                if x < t.len() {
                    assert(t[x] == (u, i));
                    assert(t.contains((u, i)));
                    assert(r.contains(u));
                    if !r.contains(e.0) {
                        let y = choose|y: int| 0 <= y < r.len() && r[y] == u;
                        assert(r.push(e.0)[y] == u);
                    }
                } else {
                    assert(e.0 == u);
                    if !r.contains(e.0) {
                        assert(r.push(e.0)[r.len() as int] == u);
                    }
                }
            }
        }
    }
}

/// Puts `x` into the increasing list `v` where it belongs, unless it is there already.
fn insert_sorted(v: &mut Vec<usize>, x: usize)
    requires
        increasing(old(v)@),
    ensures
        increasing(final(v)@),
        forall|i: usize| #[trigger] final(v)@.contains(i) <==> old(v)@.contains(i) || i == x,
{
    let mut p: usize = 0;
    while p < v.len() && v[p] < x
        invariant
            p <= v@.len(),
            forall|a: int| 0 <= a < p ==> #[trigger] v@[a] < x,
        decreases v@.len() - p,
    {
        p = p + 1;
    }
    if p < v.len() && v[p] == x {
        return;
    }
    let ghost before = v@;
    v.insert(p, x);
    assert(v@ =~= before.take(p as int).push(x) + before.skip(p as int));
    assert forall|a: int, b: int| 0 <= a < b < v@.len() implies #[trigger] v@[a] < #[trigger] v@[b] by {
        if b < p {
            assert(v@[a] == before[a] && v@[b] == before[b]);
        } else if b == p {
            assert(v@[a] == before[a]);
        } else if a < p {
            assert(v@[a] == before[a] && v@[b] == before[b - 1]);
            assert(before[a] < x);
            assert(before[p as int] > x || before[p as int] == x);
            if b - 1 > p {
                assert(before[p as int] < before[b - 1]);
            }
        } else if a == p {
            assert(v@[b] == before[b - 1]);
            if b - 1 > p {
                assert(before[p as int] < before[b - 1]);
            }
        } else {
            assert(v@[a] == before[a - 1] && v@[b] == before[b - 1]);
        }
    }
    assert forall|i: usize| #[trigger] v@.contains(i) <==> before.contains(i) || i == x by {
        if v@.contains(i) {
            let a = choose|a: int| 0 <= a < v@.len() && v@[a] == i;
            if a < p {
                assert(before[a] == i);
            } else if a > p {
                assert(before[a - 1] == i);
            }
        }
        if before.contains(i) {
            let a = choose|a: int| 0 <= a < before.len() && before[a] == i;
            if a < p {
                assert(v@[a] == i);
            } else {
                assert(v@[a + 1] == i);
            }
        }
        if i == x {
            assert(v@[p as int] == x);
        }
    }
}

/// For each person of `sel`, in the order they first appear, the items they ticked.
fn paid_lists(sel: &[(String, usize)]) -> (r: Vec<(String, Vec<usize>)>)
    ensures
        paid_record(pairs_view(sel@), r@),
{
    let ghost pv = pairs_view(sel@);
    let mut people: Vec<String> = Vec::new();
    let mut i: usize = 0;
    while i < sel.len()
        invariant
            i <= sel.len(),
            pv == pairs_view(sel@),
            names(people@) == people_of(pv.take(i as int)),
        decreases sel.len() - i,
    {
        let ghost r = people_of(pv.take(i as int));
        proof {
            assert(pv.take(i + 1).drop_last() =~= pv.take(i as int));
            assert(pv.take(i + 1).last() == (sel@[i as int].0@, sel@[i as int].1 as int));
        }
        if !contains_name(people.as_slice(), &sel[i].0) {
            let ghost before = people@;
            people.push(sel[i].0.clone());
            assert(names(people@) =~= names(before).push(sel@[i as int].0@));
        }
        i = i + 1;
    }
    assert(pv.take(i as int) =~= pv);
    let mut out: Vec<(String, Vec<usize>)> = Vec::new();
    let mut k: usize = 0;
    while k < people.len()
        invariant
            k <= people@.len(),
            pv == pairs_view(sel@),
            names(people@) == people_of(pv),
            out@.len() == k,
            forall|q: int| 0 <= q < k ==> (#[trigger] out@[q]).0@ == people_of(pv)[q],
            forall|q: int| 0 <= q < k ==> increasing((#[trigger] out@[q]).1@),
            forall|q: int, x: usize| 0 <= q < k ==> (#[trigger] out@[q].1@.contains(x) <==> pv.contains((people_of(pv)[q], x as int))),
        decreases people@.len() - k,
    {
        let who = &people[k];
        assert(who@ == people_of(pv)[k as int]);
        let mut items: Vec<usize> = Vec::new();
        let mut j: usize = 0;
        while j < sel.len()
            invariant
                j <= sel.len(),
                pv == pairs_view(sel@),
                increasing(items@),
                forall|x: usize| #[trigger] items@.contains(x) <==> pv.take(j as int).contains((who@, x as int)),
            decreases sel.len() - j,
        {
            proof {
                assert(pv.take(j + 1) =~= pv.take(j as int).push(pv[j as int]));
                assert(pv[j as int] == (sel@[j as int].0@, sel@[j as int].1 as int));
            }
            let ghost before = items@;
            let is_who = sel[j].0 == *who;
            if is_who {
                insert_sorted(&mut items, sel[j].1);
            }
            proof {
                assert(is_who == (pv[j as int].0 == who@));
                assert forall|x: usize| #[trigger] items@.contains(x) <==> pv.take(j + 1).contains((who@, x as int)) by {
                    let t = pv.take(j as int);
                    let t1 = pv.take(j + 1);
                    if t1.contains((who@, x as int)) {
                        let y = choose|y: int| 0 <= y < t1.len() && t1[y] == (who@, x as int);
                        if y < j {
                            assert(t[y] == (who@, x as int));
                            assert(t.contains((who@, x as int)));
                            assert(before.contains(x));
                        } else {
                            assert(pv[j as int] == (who@, x as int));
                            assert(sel@[j as int].1 == x);
                        }
                    }
                    if t.contains((who@, x as int)) {
                        let y = choose|y: int| 0 <= y < t.len() && t[y] == (who@, x as int);
                        assert(t1[y] == (who@, x as int));
                    }
                    if items@.contains(x) && !before.contains(x) {
                        assert(is_who && x == sel@[j as int].1);
                        assert(t1[j as int] == (who@, x as int));
                    }
                }
            }
            j = j + 1;
        }
        assert(pv.take(j as int) =~= pv);
        let ghost before_out = out@;
        out.push((who.clone(), items));
        proof {
            assert(out@[k as int].0@ == people_of(pv)[k as int]);
            assert forall|q: int, x: usize| 0 <= q < k + 1 implies (#[trigger] out@[q].1@.contains(x) <==> pv.contains((people_of(pv)[q], x as int))) by {
                if q < k {
                    assert(out@[q] == before_out[q]);
                }
            }
        }
        k = k + 1;
    }
    out
}

/// Why a submitted receipt was refused.
#[derive(Debug, PartialEq, Eq, Structural)]
pub enum SubmitError {
    MissingFn,
    MissingI,
    MissingUsername,
    MissingReceipt,
    InvalidReceipt,
    InvalidPaymentType,
}

pub open spec fn submit_error_message(e: SubmitError) -> Seq<char> {
    match e {
        SubmitError::MissingFn => "missing fn"@,
        SubmitError::MissingI => "missing i"@,
        SubmitError::MissingUsername => "missing username"@,
        SubmitError::MissingReceipt => "missing receipt cache 1"@,
        SubmitError::InvalidReceipt => "invalid receipt cache 2"@,
        SubmitError::InvalidPaymentType => "invalid payment type"@,
    }
}

impl SubmitError {
    /// The answer the form gets.
    pub fn message(&self) -> (r: &'static str)
        ensures
            r@ == submit_error_message(*self),
    {
        match self {
            SubmitError::MissingFn => "missing fn",
            SubmitError::MissingI => "missing i",
            SubmitError::MissingUsername => "missing username",
            SubmitError::MissingReceipt => "missing receipt cache 1",
            SubmitError::InvalidReceipt => "invalid receipt cache 2",
            SubmitError::InvalidPaymentType => "invalid payment type",
        }
    }
}

/// The receipt a form submits, and who paid for it.
pub struct SubmitRequest {
    /// The fiscal drive number.
    pub drive_num: String,
    /// The document number.
    pub doc_num: u32,
    /// Who paid.
    pub username: String,
}

/// What a submitted form is refused for, if it is: a drive number of digits, a
/// document number that reads as a `u32` and a name are owed.
pub open spec fn submit_refusal(f: Seq<(Seq<char>, Seq<char>)>) -> Option<SubmitError> {
    if !(form_value(f, "fn"@) matches Some(x) && all_ascii_digits(x)) {
        Some(SubmitError::MissingFn)
    } else if !(form_value(f, "i"@) matches Some(x) && parse_unsigned(x, u32::MAX as nat) is Some) {
        Some(SubmitError::MissingI)
    } else if form_value(f, "username"@) is None {
        Some(SubmitError::MissingUsername)
    } else {
        None
    }
}

/// Reads the receipt and the payer out of a submitted form.
pub fn submit_request(form: &[(String, String)]) -> (r: Result<SubmitRequest, SubmitError>)
    ensures
        r is Err <==> submit_refusal(form_view(form@)) is Some,
        r matches Err(e) ==> submit_refusal(form_view(form@)) == Some(e),
        r matches Ok(q) ==> {
            let f = form_view(form@);
            &&& q.drive_num@ == form_value(f, "fn"@)->0
            &&& q.doc_num as nat == parse_unsigned(form_value(f, "i"@)->0, u32::MAX as nat)->0
            &&& q.username@ == form_value(f, "username"@)->0
        },
{
    let drive_num = match get(form, "fn") {
        Some(x) => {
            if !is_all_digits(to_chars(x.as_str()).as_slice()) {
                return Err(SubmitError::MissingFn);
            }
            x
        },
        None => return Err(SubmitError::MissingFn),
    };
    let doc_num = match get(form, "i") {
        Some(x) => match parse_u32(to_chars(x.as_str()).as_slice()) {
            Some(v) => v,
            None => return Err(SubmitError::MissingI),
        },
        None => return Err(SubmitError::MissingI),
    };
    let username = match get(form, "username") {
        Some(x) => x,
        None => return Err(SubmitError::MissingUsername),
    };
    Ok(SubmitRequest { drive_num: drive_num.clone(), doc_num, username: username.clone() })
}

/// `{fn}_{i:07}`: the name a receipt is kept and remembered as paid under.
pub open spec fn receipt_id_spec(drive_num: Seq<char>, doc_num: u32) -> Seq<char> {
    drive_num + "_"@ + zero_pad(decimal(doc_num as nat), 7)
}

/// `{fn}_{i:07}`.
pub fn receipt_id(drive_num: &str, doc_num: u32) -> (r: String)
    ensures
        r@ == receipt_id_spec(drive_num@, doc_num),
{
    let mut v = to_chars(drive_num);
    v.push('_');
    let d = write_decimal_padded(doc_num as u64, 7);
    push_all(&mut v, d.as_slice());
    proof {
        reveal_strlit("_");
    }
    let r = from_chars(v.as_slice());
    assert(r@ =~= receipt_id_spec(drive_num@, doc_num));
    r
}

/// Whether paying for the receipt is a refund, by its payment type: a sale, or the
/// return of a purchase, is not; a purchase, or the return of a sale, is; a receipt
/// without a known payment type is refused.
pub open spec fn receipt_refund(o: Seq<(u16, FieldValue)>) -> Result<bool, SubmitError> {
    match read_num(o, PAYMENT_TYPE, u8::MAX as u64) {
        Ok(Some(c)) => {
            let t = payment_type_of(c as u8);
            if t == PaymentType::Sale || t == PaymentType::PurchaseReturn {
                Ok(false)
            } else if t == PaymentType::Purchase || t == PaymentType::SaleReturn {
                Ok(true)
            } else {
                Err(SubmitError::InvalidPaymentType)
            }
        },
        _ => Err(SubmitError::InvalidPaymentType),
    }
}

/// Whether paying for the receipt is a refund.
pub fn refund_of(rec: &Object) -> (r: Result<bool, SubmitError>)
    ensures
        r == receipt_refund(rec@),
{
    match rec.get_u8(PAYMENT_TYPE) {
        Ok(Some(c)) => match PaymentType::from_code(c) {
            PaymentType::Sale | PaymentType::PurchaseReturn => Ok(false),
            PaymentType::Purchase | PaymentType::SaleReturn => Ok(true),
            PaymentType::Unknown => Err(SubmitError::InvalidPaymentType),
        },
        _ => Err(SubmitError::InvalidPaymentType),
    }
}

/// The items of a receipt as the bill reads them: none where they do not read.
pub open spec fn bill_items(o: Seq<(u16, FieldValue)>) -> Seq<Seq<(u16, FieldValue)>> {
    match read_nested(o, RECEIPT_ITEM) {
        Ok(items) => items,
        Err(_) => Seq::empty(),
    }
}

/// The total price of an item as the bill reads it: zero where it is missing or does
/// not read.
pub open spec fn item_price(item: Seq<(u16, FieldValue)>) -> u64 {
    match read_num(item, ITEM_TOTAL_PRICE, u64::MAX) {
        Ok(Some(p)) => p,
        _ => 0,
    }
}

/// The total price of each item of the receipt.
pub fn item_prices(rec: &Object) -> (r: Vec<u64>)
    ensures
        r@.len() == bill_items(rec@).len(),
        forall|k: int| 0 <= k < r@.len() ==> #[trigger] r@[k] == item_price(bill_items(rec@)[k]),
{
    let items = match rec.get_nested(RECEIPT_ITEM) {
        Ok(v) => v,
        Err(_) => Vec::new(),
    };
    let ghost its = bill_items(rec@);
    assert(items@.len() == its.len());
    let mut out: Vec<u64> = Vec::new();
    let mut k: usize = 0;
    while k < items.len()
        invariant
            k <= items@.len(),
            items@.len() == its.len(),
            forall|q: int| 0 <= q < items@.len() ==> (#[trigger] items@[q])@ == its[q],
            out@.len() == k,
            forall|q: int| 0 <= q < k ==> #[trigger] out@[q] == item_price(its[q]),
        decreases items@.len() - k,
    {
        let p = match items[k].get_num(ITEM_TOTAL_PRICE, u64::MAX) {
            Ok(Some(p)) => p,
            _ => 0,
        };
        out.push(p);
        k = k + 1;
    }
    out
}

/// What paying for the receipt does to the amount of `n`: the bill, turned around
/// for a refund.
pub open spec fn receipt_amount(sel: Seq<(Seq<char>, int)>, prices: Seq<u64>, payee: Seq<char>, refund: bool, n: Seq<char>) -> int {
    if refund {
        -bill_amount(sel, prices, payee, n)
    } else {
        bill_amount(sel, prices, payee, n)
    }
}

/// The bill can be made: it fits the integer types, and a refund turns no amount of
/// `i64::MIN` around.
pub open spec fn receipt_fits(sel: Seq<(Seq<char>, int)>, prices: Seq<u64>, payee: Seq<char>, refund: bool) -> bool {
    &&& bill_fits(sel, prices, payee)
    &&& refund ==> forall|n: Seq<char>| #[trigger] bill_amount(sel, prices, payee, n) != i64::MIN
}

/// The transaction that pays for a receipt as the form splits it: the people who
/// ticked the same items share their total equally and pay `payee`. `None` where the
/// bill leaves the integer types (`receipt_fits`).
pub fn receipt_transaction(
    form: &[(String, String)],
    payee: &String,
    drive_num: &String,
    doc_num: u32,
    refund: bool,
    prices: &[u64],
    now: Timestamp,
) -> (r: Option<Transaction>)
    ensures
        r is Some <==> receipt_fits(ticked_pairs(form_view(form@)), prices@, payee@, refund),
        r matches Some(t) ==> {
            let sel = ticked_pairs(form_view(form@));
            &&& t.balanced()
            &&& no_zeros(t.balance_changes.view())
            &&& forall|n: Seq<char>| #[trigger] amount(t.balance_changes.view(), n)
                == receipt_amount(sel, prices@, payee@, refund, n)
            &&& t.date == now
            &&& t.prev_state is None
            &&& t.meta matches Some(TransactionMeta::Receipt { drive_num: d, doc_num: i, paid })
            &&& t.meta->Some_0->Receipt_drive_num@ == drive_num@
            &&& t.meta->Some_0->Receipt_doc_num == doc_num
            &&& paid_record(sel, t.meta->Some_0->Receipt_paid@)
        },
{
    let sel = collect_pairs(form);
    let paid = paid_lists(sel.as_slice());
    let mut tr = Transaction::new_at(
        Some(TransactionMeta::Receipt { drive_num: drive_num.clone(), doc_num, paid }),
        now,
    );
    let ok = settle_groups(sel.as_slice(), prices, payee, &mut tr);
    if !ok {
        return None;
    }
    let ghost pv = pairs_view(sel@);
    if refund {
        let mut i: usize = 0;
        while i < tr.balance_changes.entries.len()
            invariant
                i <= tr.balance_changes.entries@.len(),
                tr.balance_changes.wf(),
                forall|q: int| 0 <= q < i ==> (#[trigger] tr.balance_changes.view()[q]).1 != i64::MIN,
                pv == pairs_view(sel@),
                pv == ticked_pairs(form_view(form@)),
                refund,
                forall|n: Seq<char>| #[trigger] amount(tr.balance_changes.view(), n) == bill_amount(pv, prices@, payee@, n),
            decreases tr.balance_changes.entries@.len() - i,
        {
            if tr.balance_changes.entries[i].1 == i64::MIN {
                proof {
                    let l = tr.balance_changes.view();
                    crate::ledger::lemma_amount_at(l, i as int);
                    assert(bill_amount(pv, prices@, payee@, l[i as int].0) == i64::MIN);
                    assert(!receipt_fits(pv, prices@, payee@, refund));
                }
                return None;
            }
            assert(tr.balance_changes.view()[i as int].1 == tr.balance_changes.entries@[i as int].1);
            i = i + 1;
        }
        proof {
            let l = tr.balance_changes.view();
            assert forall|n: Seq<char>| #[trigger] bill_amount(pv, prices@, payee@, n) != i64::MIN by {
                if crate::ledger::has_name(l, n) {
                    let k = choose|k: int| 0 <= k < l.len() && #[trigger] l[k].0 == n;
                    crate::ledger::lemma_amount_at(l, k);
                } else {
                    crate::ledger::lemma_amount_absent(l, n);
                }
            }
        }
        let ghost before = tr.balance_changes.view();
        tr.invert();
        proof {
            crate::ledger::lemma_negate_facts(before);
        }
    }
    tr.finalize();
    Some(tr)
}

/// Whoever paid the receipt is only owed by it, and everyone else only owes.
pub proof fn law_bill_signs(sel: Seq<(Seq<char>, int)>, prices: Seq<u64>, payee: Seq<char>, n: Seq<char>)
    ensures
        n == payee ==> bill_amount(sel, prices, payee, n) >= 0,
        n != payee ==> bill_amount(sel, prices, payee, n) <= 0,
{
    lemma_bill_partial_mono(sel, prices, payee, n, 0, item_order(sel).len() as int);
}

/// Someone who ticked no item, and did not pay, owes nothing for the receipt.
pub proof fn law_bill_untouched(sel: Seq<(Seq<char>, int)>, prices: Seq<u64>, payee: Seq<char>, n: Seq<char>)
    requires
        n != payee,
        forall|i: int| !sel.contains((n, i)),
    ensures
        bill_amount(sel, prices, payee, n) == 0,
{
    lemma_bill_partial_untouched(sel, prices, payee, n, item_order(sel).len() as int);
}

pub proof fn lemma_bill_partial_untouched(sel: Seq<(Seq<char>, int)>, prices: Seq<u64>, payee: Seq<char>, n: Seq<char>, m: int)
    requires
        n != payee,
        forall|i: int| !sel.contains((n, i)),
    ensures
        bill_partial(sel, prices, item_order(sel), payee, m, n) == 0,
    decreases m,
{
    if m > 0 {
        lemma_bill_partial_untouched(sel, prices, payee, n, m - 1);
        let order = item_order(sel);
        let k = m - 1;
        if leads(sel, order, k) {
            let people = takers(sel, order[k]);
            lemma_takers_facts(sel, order[k]);
            assert(!people.contains(n));
            crate::pay::lemma_split_amount_fresh(
                people,
                payee,
                group_total(sel, prices, order, order[k]) / people.len() as int,
                n,
            );
        }
    }
}

/// A receipt is split as a refund exactly when its payment type (tag 1054) reads as
/// code 2 or 3 (sale return, purchase), as a purchase for code 1 or 4 (sale, purchase
/// return), and is refused for any other code or none.
pub proof fn lemma_receipt_refund_by_code(o: Seq<(u16, FieldValue)>)
    ensures
        receipt_refund(o) == match read_num(o, PAYMENT_TYPE, u8::MAX as u64) {
            Ok(Some(c)) => if c == 2 || c == 3 {
                Ok(true)
            } else if c == 1 || c == 4 {
                Ok(false)
            } else {
                Err(SubmitError::InvalidPaymentType)
            },
            _ => Err(SubmitError::InvalidPaymentType),
        },
{
}

} // verus!
