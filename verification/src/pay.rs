//! Direct payments between people: who pays how much to whom, as a form asks it.
use vstd::prelude::*;
use crate::form::{distinct_keys, falsy, form_value, form_view, get, is_falsy};
use crate::ledger::{amount, fits_i64, no_zeros, total, Timestamp, Transaction, TransactionMeta};
use crate::num::{parse_i64, parse_i64_spec};
use crate::text::{chars_eq, from_chars, has_prefix, starts_with, sub_chars, to_chars};

verus! {

/// Rust's integer division, which rounds toward zero.
pub open spec fn tdiv(a: int, b: int) -> int {
    if a >= 0 {
        a / b
    } else {
        -((-a) / b)
    }
}

/// What each of `payers` other than `to` paying `share` to `to` does to the amount of `n`.
pub open spec fn split_amount(payers: Seq<Seq<char>>, to: Seq<char>, share: int, n: Seq<char>) -> int
    decreases payers.len(),
{
    if payers.len() == 0 {
        0
    } else {
        let p = payers.last();
        split_amount(payers.drop_last(), to, share, n) + if p != to {
            (if n == to { share } else { 0int }) - (if n == p { share } else { 0int })
        } else {
            0int
        }
    }
}

/// `share` taken `m` times.
pub open spec fn scaled(share: int, m: int) -> int {
    share * m
}

/// How many of `payers` are not `to`.
pub open spec fn others_count(payers: Seq<Seq<char>>, to: Seq<char>) -> int
    decreases payers.len(),
{
    if payers.len() == 0 {
        0
    } else {
        others_count(payers.drop_last(), to) + if payers.last() != to { 1int } else { 0int }
    }
}

/// No name twice.
pub open spec fn distinct_names(s: Seq<Seq<char>>) -> bool {
    forall|i: int, j: int| 0 <= i < j < s.len() ==> #[trigger] s[i] != #[trigger] s[j]
}

/// The people who ticked `from_<name>` in the form, in form order.
pub open spec fn ticked_payers(f: Seq<(Seq<char>, Seq<char>)>) -> Seq<Seq<char>>
    decreases f.len(),
{
    if f.len() == 0 {
        Seq::empty()
    } else {
        let r = ticked_payers(f.drop_last());
        let e = f.last();
        if has_prefix(e.0, "from_"@) && !is_falsy(e.1) {
            r.push(e.0.skip(5))
        } else {
            r
        }
    }
}

/// Why a payment form was refused.
#[derive(Debug, PartialEq, Eq, Structural)]
pub enum PayError {
    MissingTo,
    MissingAmount,
    InvalidAmount,
}

impl PayError {
    /// The answer the form gets.
    pub fn message(&self) -> (r: &'static str)
        ensures
            r@ == pay_error_message(*self),
    {
        match self {
            PayError::MissingTo => "missing to",
            PayError::MissingAmount => "missing amount",
            PayError::InvalidAmount => "invalid amount",
        }
    }
}

pub open spec fn pay_error_message(e: PayError) -> Seq<char> {
    match e {
        PayError::MissingTo => "missing to"@,
        PayError::MissingAmount => "missing amount"@,
        PayError::InvalidAmount => "invalid amount"@,
    }
}

/// A payment as the form asks it.
pub struct PayPlan {
    pub transaction: Transaction,
    /// Who is paid.
    pub to: String,
    /// Whether the answer is a page rather than the balances as JSON.
    pub is_html: bool,
    /// The comment of the payment, if any.
    pub comment: Option<String>,
    /// The amount asked.
    pub amount: i64,
}

/// The amount the form asks for, where it reads and is not zero.
pub open spec fn asked_amount(f: Seq<(Seq<char>, Seq<char>)>) -> Option<int> {
    match form_value(f, "amount"@) {
        Some(a) => match parse_i64_spec(a) {
            Some(x) => if x != 0 { Some(x) } else { None },
            None => None,
        },
        None => None,
    }
}

/// What the form is refused for, if it is.
pub open spec fn pay_refusal(f: Seq<(Seq<char>, Seq<char>)>) -> Option<PayError> {
    if form_value(f, "to"@) is None {
        Some(PayError::MissingTo)
    } else if form_value(f, "amount"@) is None {
        Some(PayError::MissingAmount)
    } else if asked_amount(f) is None {
        Some(PayError::InvalidAmount)
    } else {
        None
    }
}

/// The form asks for the answer as a page.
pub open spec fn wants_html(f: Seq<(Seq<char>, Seq<char>)>) -> bool {
    form_value(f, "response-format"@) == Some("html"@)
}

/// What the payment the form asks does to the amount of `n`, before the zeros go:
/// the ticked people (for a page), or `from`, or else everyone, pay `to` equal shares.
pub open spec fn payment_amount(f: Seq<(Seq<char>, Seq<char>)>, users: Seq<Seq<char>>, n: Seq<char>) -> int {
    let to = form_value(f, "to"@)->0;
    let amt = asked_amount(f)->0;
    if wants_html(f) {
        let ps = ticked_payers(f);
        split_amount(ps, to, tdiv(amt, ps.len() as int), n)
    } else if form_value(f, "from"@) is Some {
        let from = form_value(f, "from"@)->0;
        (if n == to { amt } else { 0int }) - (if n == from { amt } else { 0int })
    } else {
        split_amount(users, to, tdiv(amt, users.len() as int), n)
    }
}

/// Someone would have to pay a share of `i64::MIN`, which cannot be negated: such a
/// payment cannot be made.
pub open spec fn payment_overflows(f: Seq<(Seq<char>, Seq<char>)>, users: Seq<Seq<char>>) -> bool {
    pay_refusal(f) is None && {
        let to = form_value(f, "to"@)->0;
        let amt = asked_amount(f)->0;
        if wants_html(f) {
            let ps = ticked_payers(f);
            others_count(ps, to) > 0 && tdiv(amt, ps.len() as int) == i64::MIN
        } else if form_value(f, "from"@) is Some {
            amt == i64::MIN
        } else {
            others_count(users, to) > 0 && tdiv(amt, users.len() as int) == i64::MIN
        }
    }
}

pub proof fn lemma_share_bounds(a: int, k: int, m: int)
    requires
        i64::MIN <= a <= i64::MAX,
        k > 0,
        0 <= m <= k,
    ensures
        i64::MIN <= tdiv(a, k) * m <= i64::MAX,
        tdiv(a, k) != i64::MIN ==> fits_i64(-tdiv(a, k)),
        i64::MIN <= tdiv(a, k) <= i64::MAX,
{
    if a >= 0 {
        assert(0 <= (a / k) * m <= a) by (nonlinear_arith)
            requires
                a >= 0,
                k > 0,
                0 <= m <= k,
        ;
        assert(a / k <= a) by (nonlinear_arith)
            requires
                a >= 0,
                k > 0,
        ;
    } else {
        assert(0 <= ((-a) / k) * m <= -a) by (nonlinear_arith)
            requires
                -a > 0,
                k > 0,
                0 <= m <= k,
        ;
        assert((-a) / k <= -a) by (nonlinear_arith)
            requires
                -a > 0,
                k > 0,
        ;
        assert(tdiv(a, k) * m == -(((-a) / k) * m)) by (nonlinear_arith)
            requires
                tdiv(a, k) == -((-a) / k),
        ;
    }
}

pub proof fn lemma_split_amount_step(payers: Seq<Seq<char>>, p: Seq<char>, to: Seq<char>, share: int)
    ensures
        forall|n: Seq<char>| #[trigger] split_amount(payers.push(p), to, share, n) == split_amount(payers, to, share, n) + if p != to {
            (if n == to { share } else { 0int }) - (if n == p { share } else { 0int })
        } else {
            0int
        },
        others_count(payers.push(p), to) == others_count(payers, to) + if p != to { 1int } else { 0int },
{
    assert(payers.push(p).drop_last() =~= payers);
}

pub proof fn lemma_split_amount_fresh(payers: Seq<Seq<char>>, to: Seq<char>, share: int, n: Seq<char>)
    requires
        !payers.contains(n),
        n != to,
    ensures
        split_amount(payers, to, share, n) == 0,
    decreases payers.len(),
{
    if payers.len() > 0 {
        assert(payers.drop_last().contains(n) ==> payers.contains(n)) by {
            if payers.drop_last().contains(n) {
                let i = choose|i: int| 0 <= i < payers.drop_last().len() && payers.drop_last()[i] == n;
                assert(payers[i] == n);
            }
        }
        assert(payers.last() != n) by {
            assert(payers[payers.len() - 1] == payers.last());
        }
        lemma_split_amount_fresh(payers.drop_last(), to, share, n);
    }
}

pub proof fn lemma_split_amount_to(payers: Seq<Seq<char>>, to: Seq<char>, share: int)
    ensures
        split_amount(payers, to, share, to) == share * others_count(payers, to),
        0 <= others_count(payers, to) <= payers.len(),
    decreases payers.len(),
{
    if payers.len() > 0 {
        lemma_split_amount_to(payers.drop_last(), to, share);
        assert(share * others_count(payers.drop_last(), to) + share == share * (others_count(payers.drop_last(), to) + 1)) by (nonlinear_arith);
    }
}

/// Makes every person of `payers` other than `to` pay `share` to `to`.
fn pay_shares(tr: &mut Transaction, payers: &[String], to: &String, share: i64)
    requires
        old(tr).balance_changes.wf(),
        forall|n: Seq<char>| #[trigger] amount(old(tr).balance_changes.view(), n) == 0,
        distinct_names(Seq::new(payers@.len(), |i: int| payers@[i]@)),
        share != i64::MIN || others_count(Seq::new(payers@.len(), |i: int| payers@[i]@), to@) == 0,
        forall|m: int| 0 <= m <= payers@.len() ==> fits_i64(#[trigger] scaled(share as int, m)),
    ensures
        final(tr).balance_changes.wf(),
        forall|n: Seq<char>| #[trigger] amount(final(tr).balance_changes.view(), n) == split_amount(
            Seq::new(payers@.len(), |i: int| payers@[i]@),
            to@,
            share as int,
            n,
        ),
        total(final(tr).balance_changes.view()) == total(old(tr).balance_changes.view()),
        final(tr).meta == old(tr).meta,
        final(tr).date == old(tr).date,
        final(tr).prev_state == old(tr).prev_state,
{
    let ghost ps = Seq::new(payers@.len(), |i: int| payers@[i]@);
    let mut j: usize = 0;
    while j < payers.len()
        invariant
            j <= payers.len(),
            ps == Seq::new(payers@.len(), |i: int| payers@[i]@),
            distinct_names(ps),
            share != i64::MIN || others_count(ps, to@) == 0,
            forall|m: int| 0 <= m <= payers@.len() ==> fits_i64(#[trigger] scaled(share as int, m)),
            tr.balance_changes.wf(),
            forall|n: Seq<char>| #[trigger] amount(tr.balance_changes.view(), n) == split_amount(ps.take(j as int), to@, share as int, n),
            total(tr.balance_changes.view()) == total(old(tr).balance_changes.view()),
            tr.meta == old(tr).meta,
            tr.date == old(tr).date,
            tr.prev_state == old(tr).prev_state,
        decreases payers.len() - j,
    {
        let p = &payers[j];
        proof {
            let t = ps.take(j as int);
            assert(ps.take(j + 1) =~= t.push(p@));
            lemma_split_amount_step(t, p@, to@, share as int);
            lemma_split_amount_to(t, to@, share as int);
            lemma_split_amount_to(ps, to@, share as int);
            assert(!t.contains(p@)) by {
                if t.contains(p@) {
                    let k = choose|k: int| 0 <= k < t.len() && t[k] == p@;
                    assert(ps[k] == ps[j as int]);
                }
            }
            lemma_others_count_prefix(ps, to@, j as int + 1);
            if p@ != to@ {
                lemma_split_amount_fresh(t, to@, share as int, p@);
            }
        }
        if *p != *to {
            proof {
                let t = ps.take(j as int);
                assert(others_count(t.push(p@), to@) <= others_count(ps, to@));
                assert(others_count(t.push(p@), to@) > 0);
                assert(share != i64::MIN);
                assert(fits_i64(scaled(share as int, others_count(t, to@) + 1)));
                assert(share * (others_count(t, to@) + 1) == share * others_count(t, to@) + share) by (nonlinear_arith);
            }
            tr.pay(p.as_str(), to.as_str(), share);
        }
        j = j + 1;
    }
    assert(ps.take(j as int) =~= ps);
}

pub proof fn lemma_others_count_prefix(ps: Seq<Seq<char>>, to: Seq<char>, n: int)
    requires
        0 <= n <= ps.len(),
    ensures
        others_count(ps.take(n), to) <= others_count(ps, to),
    decreases ps.len(),
{
    if n < ps.len() {
        assert(ps.take(n) =~= ps.drop_last().take(n));
        lemma_others_count_prefix(ps.drop_last(), to, n);
    } else {
        assert(ps.take(n) =~= ps);
    }
}

/// The names of a list of people.
pub open spec fn names_of(v: Seq<String>) -> Seq<Seq<char>> {
    Seq::new(v.len(), |i: int| v[i]@)
}

/// Some field of `f` is `from_` followed by `name`.
pub open spec fn ticked_in(f: Seq<(Seq<char>, Seq<char>)>, name: Seq<char>) -> bool {
    exists|i: int| 0 <= i < f.len() && has_prefix(#[trigger] f[i].0, "from_"@) && f[i].0.skip(5) == name
}

pub proof fn lemma_ticked_from(f: Seq<(Seq<char>, Seq<char>)>)
    ensures
        forall|k: int| 0 <= k < ticked_payers(f).len() ==> ticked_in(f, #[trigger] ticked_payers(f)[k]),
        ticked_payers(f).len() <= f.len(),
    decreases f.len(),
{
    if f.len() > 0 {
        let t = f.drop_last();
        lemma_ticked_from(t);
        let r = ticked_payers(t);
        assert forall|k: int| 0 <= k < ticked_payers(f).len() implies ticked_in(f, #[trigger] ticked_payers(f)[k]) by {
            if k < r.len() {
                assert(ticked_payers(f)[k] == r[k]);
                let i = choose|i: int| 0 <= i < t.len() && has_prefix(#[trigger] t[i].0, "from_"@) && t[i].0.skip(5) == r[k];
                assert(f[i] == t[i]);
            } else {
                assert(f[f.len() - 1] == f.last());
            }
        }
    }
}

/// Two names with the prefix `from_` and the same rest are the same name.
pub proof fn lemma_same_rest(a: Seq<char>, b: Seq<char>)
    requires
        has_prefix(a, "from_"@),
        has_prefix(b, "from_"@),
        a.skip(5) == b.skip(5),
    ensures
        a == b,
{
    reveal_strlit("from_");
    assert(a =~= a.take(5) + a.skip(5));
    assert(b =~= b.take(5) + b.skip(5));
}

pub proof fn lemma_ticked_distinct(f: Seq<(Seq<char>, Seq<char>)>)
    requires
        distinct_keys(f),
    ensures
        distinct_names(ticked_payers(f)),
    decreases f.len(),
{
    if f.len() > 0 {
        let t = f.drop_last();
        assert(distinct_keys(t)) by {
            assert forall|i: int, j: int| 0 <= i < j < t.len() implies #[trigger] t[i].0 != #[trigger] t[j].0 by {
                assert(t[i] == f[i] && t[j] == f[j]);
            }
        }
        lemma_ticked_distinct(t);
        lemma_ticked_from(t);
        let r = ticked_payers(t);
        let e = f.last();
        if has_prefix(e.0, "from_"@) && !is_falsy(e.1) {
            let p = r.push(e.0.skip(5));
            assert forall|i: int, j: int| 0 <= i < j < p.len() implies #[trigger] p[i] != #[trigger] p[j] by {
                if j == r.len() {
                    if p[i] == p[j] {
                        assert(p[i] == r[i]);
                        let x = choose|x: int| 0 <= x < t.len() && has_prefix(#[trigger] t[x].0, "from_"@) && t[x].0.skip(5) == r[i];
                        lemma_same_rest(t[x].0, e.0);
                        assert(f[x].0 == f[f.len() - 1].0);
                    }
                } else {
                    assert(p[i] == r[i] && p[j] == r[j]);
                }
            }
        }
    }
}

/// The people the form ticks, in form order (`from_<name>` with a value that means "yes").
fn collect_ticked(form: &[(String, String)]) -> (r: Vec<String>)
    ensures
        names_of(r@) == ticked_payers(form_view(form@)),
{
    let prefix = to_chars("from_");
    let mut out: Vec<String> = Vec::new();
    let mut i: usize = 0;
    while i < form.len()
        invariant
            i <= form.len(),
            prefix@ == "from_"@,
            names_of(out@) == ticked_payers(form_view(form@).take(i as int)),
        decreases form.len() - i,
    {
        let ghost fv = form_view(form@);
        proof {
            assert(fv.take(i + 1).drop_last() =~= fv.take(i as int));
            assert(fv.take(i + 1).last() == (form@[i as int].0@, form@[i as int].1@));
        }
        let k = to_chars(form[i].0.as_str());
        if starts_with(k.as_slice(), prefix.as_slice()) && !falsy(form[i].1.as_str()) {
            proof {
                reveal_strlit("from_");
            }
            let rest = sub_chars(k.as_slice(), 5, k.len());
            let name = from_chars(rest.as_slice());
            let ghost before = out@;
            out.push(name);
            assert(names_of(out@) =~= names_of(before).push(k@.skip(5)));
        }
        i = i + 1;
    }
    assert(form_view(form@).take(i as int) =~= form_view(form@));
    out
}

/// Rust's `/` on `i64` with a positive divisor.
fn div_toward_zero(a: i64, k: i64) -> (r: i64)
    requires
        k > 0,
    ensures
        r == tdiv(a as int, k as int),
{
    if a >= 0 {
        a / k
    } else {
        let mag: u64 = if a == i64::MIN { 0x8000_0000_0000_0000u64 } else { (0 - a) as u64 };
        let q: u64 = mag / (k as u64);
        assert(q <= mag) by (nonlinear_arith)
            requires
                q == mag / (k as u64),
                k > 0,
        ;
        if q == 0x8000_0000_0000_0000u64 {
            i64::MIN
        } else {
            0 - (q as i64)
        }
    }
}

/// Reads a payment form (`to`, `amount`, and `from`, `comment`, `response-format`,
/// `from_<name>`) and makes the transaction it asks for, among `usernames`.
/// Refused, with the answer the form gets, without `to`, without `amount`, or with
/// an amount that is not a nonzero `i64`.
pub fn plan_payment(form: &[(String, String)], usernames: &[String], now: Timestamp) -> (r: Result<PayPlan, PayError>)
    requires
        distinct_keys(form_view(form@)),
        distinct_names(names_of(usernames@)),
        form@.len() <= i64::MAX,
        usernames@.len() <= i64::MAX,
        !payment_overflows(form_view(form@), names_of(usernames@)),
    ensures
        r is Err <==> pay_refusal(form_view(form@)) is Some,
        r matches Err(e) ==> pay_refusal(form_view(form@)) == Some(e),
        r matches Ok(p) ==> {
            let f = form_view(form@);
            &&& p.transaction.balanced()
            &&& no_zeros(p.transaction.balance_changes.view())
            &&& forall|n: Seq<char>| #[trigger] amount(p.transaction.balance_changes.view(), n)
                == payment_amount(f, names_of(usernames@), n)
            &&& p.to@ == form_value(f, "to"@)->0
            &&& p.amount == asked_amount(f)->0
            &&& p.is_html == wants_html(f)
            &&& p.transaction.date == now
            &&& p.transaction.prev_state is None
            &&& (form_value(f, "comment"@) is None ==> p.comment is None && p.transaction.meta is None)
            &&& (form_value(f, "comment"@) matches Some(c) ==> (p.comment matches Some(pc) && pc@ == c)
                && (p.transaction.meta matches Some(TransactionMeta::Comment2(mc, ma)) && mc@ == c && ma == p.amount))
        },
{
    let ghost f = form_view(form@);
    let to = match get(form, "to") {
        Some(t) => t,
        None => return Err(PayError::MissingTo),
    };
    let amt_s = match get(form, "amount") {
        Some(a) => a,
        None => return Err(PayError::MissingAmount),
    };
    let amt = match parse_i64(to_chars(amt_s.as_str()).as_slice()) {
        Some(x) => {
            if x == 0 {
                return Err(PayError::InvalidAmount);
            }
            x
        },
        None => return Err(PayError::InvalidAmount),
    };
    assert(asked_amount(f) == Some(amt as int));
    assert(pay_refusal(f) is None);
    assert(to@ == form_value(f, "to"@)->0);
    let comment = match get(form, "comment") {
        Some(c) => Some(c.clone()),
        None => None,
    };
    let meta = match &comment {
        Some(c) => Some(TransactionMeta::Comment2(c.clone(), amt)),
        None => None,
    };
    let mut tr = Transaction::new_at(meta, now);
    let is_html = match get(form, "response-format") {
        Some(x) => chars_eq(to_chars(x.as_str()).as_slice(), to_chars("html").as_slice()),
        None => false,
    };
    assert(is_html == wants_html(f));
    assert(forall|n: Seq<char>| #[trigger] amount(tr.balance_changes.view(), n) == 0);
    if is_html {
        let payers = collect_ticked(form);
        proof {
            lemma_ticked_distinct(f);
            lemma_ticked_from(f);
        }
        let k = payers.len() as i64;
        if k > 0 {
            let share = div_toward_zero(amt, k);
            proof {
                let ps = ticked_payers(f);
                assert forall|m: int| 0 <= m <= payers@.len() implies fits_i64(#[trigger] scaled(share as int, m)) by {
                    lemma_share_bounds(amt as int, k as int, m);
                }
                assert(Seq::new(payers@.len(), |i: int| payers@[i]@) =~= ps);
                assert(names_of(payers@) == ps);
                assert(k as int == ps.len());
                lemma_split_amount_to(ps, to@, 0);
                assert(share != i64::MIN || others_count(ps, to@) == 0);
            }
            pay_shares(&mut tr, payers.as_slice(), to, share);
        } else {
            assert(ticked_payers(f).len() == 0);
        }
    } else {
        match get(form, "from") {
            Some(from) => {
                tr.pay(from.as_str(), to.as_str(), amt);
            },
            None => {
                let k = usernames.len() as i64;
                if k > 0 {
                    let share = div_toward_zero(amt, k);
                    proof {
                        assert forall|m: int| 0 <= m <= usernames@.len() implies fits_i64(#[trigger] scaled(share as int, m)) by {
                            lemma_share_bounds(amt as int, k as int, m);
                        }
                        assert(Seq::new(usernames@.len(), |i: int| usernames@[i]@) =~= names_of(usernames@));
                        assert(form_value(f, "from"@) is None);
                        lemma_split_amount_to(names_of(usernames@), to@, 0);
                        assert(share != i64::MIN || others_count(names_of(usernames@), to@) == 0);
                    }
                    pay_shares(&mut tr, usernames, to, share);
                } else {
                    assert(names_of(usernames@).len() == 0);
                }
            },
        }
    }
    tr.finalize();
    let to_owned = to.clone();
    Ok(PayPlan { transaction: tr, to: to_owned, is_html, comment, amount: amt })
}

/// Whether `plan_payment` can make the payment the form asks without a share of
/// `i64::MIN` changing hands (such a payment cannot be made).
pub fn payment_fits(form: &[(String, String)], usernames: &[String]) -> (r: bool)
    requires
        distinct_keys(form_view(form@)),
        form@.len() <= i64::MAX,
        usernames@.len() <= i64::MAX,
    ensures
        r == !payment_overflows(form_view(form@), names_of(usernames@)),
{
    let ghost f = form_view(form@);
    let to = match get(form, "to") {
        Some(t) => t,
        None => return true,
    };
    let amt_s = match get(form, "amount") {
        Some(a) => a,
        None => return true,
    };
    let amt = match parse_i64(to_chars(amt_s.as_str()).as_slice()) {
        Some(x) => {
            if x == 0 {
                return true;
            }
            x
        },
        None => return true,
    };
    assert(pay_refusal(f) is None);
    assert(asked_amount(f) == Some(amt as int));
    assert(to@ == form_value(f, "to"@)->0);
    let is_html = match get(form, "response-format") {
        Some(x) => chars_eq(to_chars(x.as_str()).as_slice(), to_chars("html").as_slice()),
        None => false,
    };
    if is_html {
        assert(is_html == wants_html(f));
        let payers = collect_ticked(form);
        let ghost ps = ticked_payers(f);
        proof {
            lemma_ticked_from(f);
            lemma_split_amount_to(ps, to@, 0);
        }
        assert(names_of(payers@) == ps);
        let k = payers.len() as i64;
        if k == 0 {
            return true;
        }
        let share = div_toward_zero(amt, k);
        let others = count_others(payers.as_slice(), to);
        !(others > 0 && share == i64::MIN)
    } else {
        match get(form, "from") {
            Some(_) => amt != i64::MIN,
            None => {
                proof {
                    lemma_split_amount_to(names_of(usernames@), to@, 0);
                }
                let k = usernames.len() as i64;
                if k == 0 {
                    return true;
                }
                let share = div_toward_zero(amt, k);
                let others = count_others(usernames, to);
                !(others > 0 && share == i64::MIN)
            },
        }
    }
}

/// How many of `people` are not `to`.
fn count_others(people: &[String], to: &String) -> (r: usize)
    ensures
        r == others_count(names_of(people@), to@),
{
    let ghost ps = names_of(people@);
    let mut n: usize = 0;
    let mut i: usize = 0;
    while i < people.len()
        invariant
            i <= people@.len(),
            ps == names_of(people@),
            n == others_count(ps.take(i as int), to@),
            n <= i,
        decreases people@.len() - i,
    {
        proof {
            assert(ps.take(i + 1).drop_last() =~= ps.take(i as int));
            assert(ps.take(i + 1).last() == people@[i as int]@);
        }
        if people[i] != *to {
            n = n + 1;
        }
        i = i + 1;
    }
    assert(ps.take(i as int) =~= ps);
    n
}

pub proof fn lemma_split_amount_member(payers: Seq<Seq<char>>, to: Seq<char>, share: int, p: Seq<char>)
    requires
        distinct_names(payers),
        payers.contains(p),
        p != to,
    ensures
        split_amount(payers, to, share, p) == -share,
    decreases payers.len(),
{
    let t = payers.drop_last();
    let last = payers.last();
    assert(distinct_names(t)) by {
        assert forall|i: int, j: int| 0 <= i < j < t.len() implies #[trigger] t[i] != #[trigger] t[j] by {
            assert(t[i] == payers[i] && t[j] == payers[j]);
        }
    }
    assert(last == payers[payers.len() - 1]);
    if last == p {
        assert(!t.contains(p)) by {
            if t.contains(p) {
                let k = choose|k: int| 0 <= k < t.len() && t[k] == p;
                assert(payers[k] == payers[payers.len() - 1]);
            }
        }
        lemma_split_amount_fresh(t, to, share, p);
    } else {
        let k = choose|k: int| 0 <= k < payers.len() && payers[k] == p;
        assert(k < t.len());
        assert(t[k] == p);
        lemma_split_amount_member(t, to, share, p);
    }
}

/// Splitting a sum in equal shares among people: each of them but the one paid pays
/// one share, the one paid receives a share from each of the others, and nobody else
/// is touched.
pub proof fn law_split_shares(payers: Seq<Seq<char>>, to: Seq<char>, share: int, n: Seq<char>)
    requires
        distinct_names(payers),
    ensures
        n == to ==> split_amount(payers, to, share, n) == share * others_count(payers, to),
        n != to && payers.contains(n) ==> split_amount(payers, to, share, n) == -share,
        n != to && !payers.contains(n) ==> split_amount(payers, to, share, n) == 0,
{
    lemma_split_amount_to(payers, to, share);
    if n != to && payers.contains(n) {
        lemma_split_amount_member(payers, to, share, n);
    }
    if n != to && !payers.contains(n) {
        lemma_split_amount_fresh(payers, to, share, n);
    }
}

} // verus!
