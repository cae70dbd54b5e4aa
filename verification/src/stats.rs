//! What the recorded transactions add up to: the balances, the receipts paid, and how
//! often each payment comment was used.
use vstd::prelude::*;
use crate::bill::{receipt_id, receipt_id_spec};
use crate::fields::{read_num, read_text, read_time, DATE_TIME, ITEM_NAME, ITEM_QUANTITY_UNIT, RECEIPT_ITEM, UNIT};
use crate::num::{decimal, write_decimal};
use crate::text::from_chars;
use crate::object::{DateTime, FieldValue, FiscalError, Object};
use crate::receipt::page_items;
use crate::ledger::{amount, fits_i64, names_are_nonzero, no_zeros, Ledger, Timestamp, Transaction, TransactionMeta};

verus! {

/// How often a payment comment was used, and when and for how much last.
#[derive(Clone, Copy, Debug, PartialEq, Eq, Structural)]
pub struct CommentStat {
    pub last_price: i64,
    pub last_time: Timestamp,
    pub count: usize,
}

/// The statistics of a comment not seen yet: no price, the start of 1970, no use.
pub open spec fn fresh_stat() -> CommentStat {
    CommentStat { last_price: 0, last_time: Timestamp { secs: 0, nanos: 0 }, count: 0 }
}

/// `s` after one more use at `time`, for `price` where the use names one.
pub open spec fn bumped(s: CommentStat, price: Option<i64>, time: Timestamp) -> CommentStat {
    CommentStat {
        last_price: match price {
            Some(p) => p,
            None => s.last_price,
        },
        last_time: time,
        count: (s.count + 1) as usize,
    }
}

/// The statistics of `c` in `v`, where it has an entry.
pub open spec fn stat_of(v: Map<Seq<char>, CommentStat>, c: Seq<char>) -> Option<CommentStat> {
    if v.dom().contains(c) {
        Some(v[c])
    } else {
        None
    }
}

/// `dashmap::DashMap`, the concurrent map the statistics are kept in; opaque here.
#[verifier::external_type_specification]
#[verifier::external_body]
#[verifier::reject_recursive_types(K)]
#[verifier::reject_recursive_types(V)]
#[verifier::reject_recursive_types(S)]
pub struct ExDashMap<K, V, S>(dashmap::DashMap<K, V, S>);

/// A concurrent table of statistics by comment.
pub type CommentTable = dashmap::DashMap<String, CommentStat>;

/// What a table of comment statistics holds: each comment, by its text, with its
/// statistics. A `DashMap` can be changed through a shared reference; the library
/// changes its tables only through the wrappers below, which take them by `&mut`.
pub uninterp spec fn comment_table(m: CommentTable) -> Map<Seq<char>, CommentStat>;

/// An empty table (`DashMap::new`).
#[verifier::external_body]
fn comment_table_new() -> (r: CommentTable)
    ensures
        comment_table(r).dom() == Set::<Seq<char>>::empty(),
{
    dashmap::DashMap::new()
}

/// The statistics of `k` in the table (`DashMap::get`, the value copied out), or
/// `None` where it has no entry.
#[verifier::external_body]
fn comment_table_get(m: &CommentTable, k: &String) -> (r: Option<CommentStat>)
    ensures
        r == stat_of(comment_table(*m), k@),
{
    m.get(k).map(|e| *e.value())
}

/// Puts `v` as the statistics of `k` (`DashMap::insert`): the entry of `k` is
/// replaced or added, the others stay.
#[verifier::external_body]
fn comment_table_insert(m: &mut CommentTable, k: String, v: CommentStat)
    ensures
        comment_table(*final(m)) == comment_table(*old(m)).insert(k@, v),
{
    m.insert(k, v);
}

/// Statistics per comment.
pub struct CommentStats {
    pub table: CommentTable,
}

impl CommentStats {
    pub open spec fn view(&self) -> Map<Seq<char>, CommentStat> {
        comment_table(self.table)
    }

    /// No statistics.
    pub fn new() -> (r: CommentStats)
        ensures
            forall|c: Seq<char>| #[trigger] stat_of(r.view(), c) is None,
    {
        CommentStats { table: comment_table_new() }
    }

    /// The statistics of `comment`, where it was used.
    pub fn get(&self, comment: &String) -> (r: Option<CommentStat>)
        ensures
            r == stat_of(self.view(), comment@),
    {
        comment_table_get(&self.table, comment)
    }

    /// Counts one more use of `comment` at `time`, for `price` where it names one
    /// (`entry(comment).or_default()`, then the update).
    pub fn record(&mut self, comment: &String, price: Option<i64>, time: Timestamp)
        requires
            stat_of(old(self).view(), comment@) matches Some(s) ==> s.count < usize::MAX,
        ensures
            stat_of(final(self).view(), comment@) == Some(bumped(
                match stat_of(old(self).view(), comment@) {
                    Some(s) => s,
                    None => fresh_stat(),
                },
                price,
                time,
            )),
            forall|c: Seq<char>| c != comment@ ==> #[trigger] stat_of(final(self).view(), c) == stat_of(old(self).view(), c),
    {
        let s = match comment_table_get(&self.table, comment) {
            Some(s) => s,
            None => CommentStat { last_price: 0, last_time: Timestamp { secs: 0, nanos: 0 }, count: 0 },
        };
        let ns = CommentStat {
            last_price: match price {
                Some(p) => p,
                None => s.last_price,
            },
            last_time: time,
            count: s.count + 1,
        };
        comment_table_insert(&mut self.table, comment.clone(), ns);
    }
}

/// The comment a transaction was made with, and the price it names, if any.
pub open spec fn comment_use(m: Option<TransactionMeta>) -> Option<(Seq<char>, Option<i64>)> {
    match m {
        Some(TransactionMeta::Comment(c)) => Some((c@, None)),
        Some(TransactionMeta::Comment2(c, p)) => Some((c@, Some(p))),
        _ => None,
    }
}

/// The statistics of comment `c` over the transactions `trs`, in order.
pub open spec fn comment_stat_after(trs: Seq<Transaction>, c: Seq<char>) -> Option<CommentStat>
    decreases trs.len(),
{
    if trs.len() == 0 {
        None
    } else {
        let r = comment_stat_after(trs.drop_last(), c);
        match comment_use(trs.last().meta) {
            Some(u) => if u.0 == c {
                Some(bumped(
                    match r {
                        Some(s) => s,
                        None => fresh_stat(),
                    },
                    u.1,
                    trs.last().date,
                ))
            } else {
                r
            },
            None => r,
        }
    }
}

/// Some transaction of `trs` paid the receipt remembered as `id`.
pub open spec fn paid_in(trs: Seq<Transaction>, id: Seq<char>) -> bool {
    exists|j: int| 0 <= j < trs.len() && (#[trigger] trs[j]).meta is Some && trs[j].meta->Some_0 is Receipt
        && id == receipt_id_spec(trs[j].meta->Some_0->Receipt_drive_num@, trs[j].meta->Some_0->Receipt_doc_num)
}

/// The amount of `n` after the first `k` transactions of `trs`.
pub open spec fn running(trs: Seq<Transaction>, k: int, n: Seq<char>) -> int
    decreases k,
{
    if k <= 0 {
        0
    } else {
        running(trs, k - 1, n) + amount(trs[k - 1].balance_changes.view(), n)
    }
}

/// Every amount fits an `i64` after every transaction.
pub open spec fn replay_fits(trs: Seq<Transaction>) -> bool {
    forall|k: int, n: Seq<char>| 0 <= k <= trs.len() ==> fits_i64(#[trigger] running(trs, k, n))
}

/// What the recorded transactions add up to.
pub struct Replay {
    /// The balances, without the people who are even.
    pub balance: Ledger,
    /// The receipts paid, each once, as `{fn}_{i:07}`.
    pub paid_receipts: Vec<String>,
    /// How often each payment comment was used.
    pub comments: CommentStats,
}

/// Adds up the recorded transactions, in order: the balances, the receipts paid and
/// the comment statistics. `None` where an amount leaves `i64` along the way.
pub fn replay(trs: &[Transaction]) -> (r: Option<Replay>)
    requires
        forall|j: int| 0 <= j < trs@.len() ==> (#[trigger] trs@[j]).balance_changes.wf(),
    ensures
        r is Some <==> replay_fits(trs@),
        r matches Some(rp) ==> {
            &&& rp.balance.wf()
            &&& no_zeros(rp.balance.view())
            &&& names_are_nonzero(rp.balance.view())
            &&& forall|n: Seq<char>| #[trigger] amount(rp.balance.view(), n) == running(trs@, trs@.len() as int, n)
            &&& forall|x: Seq<char>| #[trigger] crate::bill::names(rp.paid_receipts@).contains(x) <==> paid_in(trs@, x)
            &&& forall|a: int, b: int| 0 <= a < b < rp.paid_receipts@.len() ==> #[trigger] rp.paid_receipts@[a]@ != #[trigger] rp.paid_receipts@[b]@
            &&& forall|c: Seq<char>| #[trigger] stat_of(rp.comments.view(), c) == comment_stat_after(trs@, c)
        },
{
    let mut balance = Ledger::new();
    let mut ids: Vec<String> = Vec::new();
    let mut comments = CommentStats::new();
    let mut j: usize = 0;
    while j < trs.len()
        invariant
            j <= trs@.len(),
            forall|q: int| 0 <= q < trs@.len() ==> (#[trigger] trs@[q]).balance_changes.wf(),
            balance.wf(),
            forall|n: Seq<char>| #[trigger] amount(balance.view(), n) == running(trs@, j as int, n),
            forall|k: int, n: Seq<char>| 0 <= k <= j ==> fits_i64(#[trigger] running(trs@, k, n)),
            forall|x: Seq<char>| #[trigger] crate::bill::names(ids@).contains(x) <==> paid_in(trs@.take(j as int), x),
            forall|a: int, b: int| 0 <= a < b < ids@.len() ==> #[trigger] ids@[a]@ != #[trigger] ids@[b]@,
            forall|c: Seq<char>| #[trigger] stat_of(comments.view(), c) == comment_stat_after(trs@.take(j as int), c),
            forall|c: Seq<char>| #[trigger] stat_of(comments.view(), c) matches Some(s) ==> s.count <= j,
        decreases trs@.len() - j,
    {
        let tr = &trs[j];
        let ghost t0 = trs@.take(j as int);
        let ghost t1 = trs@.take(j + 1);
        proof {
            assert(t1.drop_last() =~= t0);
            assert(t1.last() == trs@[j as int]);
        }
        match &tr.meta {
            Some(TransactionMeta::Receipt { drive_num, doc_num, paid: _ }) => {
                let id = receipt_id(drive_num.as_str(), *doc_num);
                let ghost before = ids@;
                proof {
                    assert(t1[j as int].meta->Some_0->Receipt_drive_num == *drive_num);
                    assert(t1[j as int].meta->Some_0->Receipt_doc_num == *doc_num);
                    assert(paid_in(t1, id@));
                }
                let present = crate::bill::contains_name(ids.as_slice(), &id);
                let ghost idv = id@;
                if !present {
                    ids.push(id);
                    proof {
                        assert(crate::bill::names(ids@) =~= crate::bill::names(before).push(id@));
                        assert forall|a: int, b: int| 0 <= a < b < ids@.len() implies #[trigger] ids@[a]@ != #[trigger] ids@[b]@ by {
                            if b == before.len() {
                                assert(crate::bill::names(before)[a] == ids@[a]@);
                                assert(crate::bill::names(before).contains(ids@[a]@));
                            } else {
                                assert(ids@[a] == before[a] && ids@[b] == before[b]);
                            }
                        }
                    }
                }
                proof {
                    assert forall|x: Seq<char>| #[trigger] crate::bill::names(ids@).contains(x) <==> paid_in(t1, x) by {
                        if paid_in(t1, x) {
                            let q = choose|q: int| 0 <= q < t1.len() && (#[trigger] t1[q]).meta is Some && t1[q].meta->Some_0 is Receipt
                                && x == receipt_id_spec(t1[q].meta->Some_0->Receipt_drive_num@, t1[q].meta->Some_0->Receipt_doc_num);
                            if q < j {
                                assert(t0[q] == t1[q]);
                                assert(paid_in(t0, x));
                            }
                        }
                        if paid_in(t0, x) {
                            let q = choose|q: int| 0 <= q < t0.len() && (#[trigger] t0[q]).meta is Some && t0[q].meta->Some_0 is Receipt
                                && x == receipt_id_spec(t0[q].meta->Some_0->Receipt_drive_num@, t0[q].meta->Some_0->Receipt_doc_num);
                            assert(t1[q] == t0[q]);
                        }
                        if crate::bill::names(ids@).contains(x) && x != idv {
                            let a = choose|a: int| 0 <= a < crate::bill::names(ids@).len() && crate::bill::names(ids@)[a] == x;
                            assert(a < before.len());
                            assert(crate::bill::names(before)[a] == x);
                            assert(crate::bill::names(before).contains(x));
                        }
                        if x == idv && !crate::bill::names(ids@).contains(x) {
                            if !present {
                                assert(crate::bill::names(ids@)[before.len() as int] == idv);
                            }
                            assert(crate::bill::names(before).contains(idv));
                            let a = choose|a: int| 0 <= a < crate::bill::names(before).len() && crate::bill::names(before)[a] == x;
                            assert(crate::bill::names(ids@)[a] == x);
                        }
                        if paid_in(t0, x) && !crate::bill::names(ids@).contains(x) {
                            assert(crate::bill::names(before).contains(x));
                            let a = choose|a: int| 0 <= a < crate::bill::names(before).len() && crate::bill::names(before)[a] == x;
                            assert(crate::bill::names(ids@)[a] == x);
                        }
                    }
                    assert forall|c: Seq<char>| #[trigger] stat_of(comments.view(), c) == comment_stat_after(t1, c) by {}
                }
            },
            Some(TransactionMeta::Comment(c)) => {
                comments.record(c, None, tr.date);
                proof {
                    lemma_paid_in_step(trs@, j as int);
                }
            },
            Some(TransactionMeta::Comment2(c, p)) => {
                comments.record(c, Some(*p), tr.date);
                proof {
                    lemma_paid_in_step(trs@, j as int);
                }
            },
            None => {
                proof {
                    lemma_paid_in_step(trs@, j as int);
                }
            },
        }
        let bc = &tr.balance_changes;
        let ghost bcv = bc.view();
        let mut q: usize = 0;
        while q < bc.entries.len()
            invariant
                q <= bc.entries@.len(),
                bcv == bc.view(),
                bc.wf(),
                balance.wf(),
                j < trs@.len(),
                *bc == trs@[j as int].balance_changes,
                forall|k: int, n: Seq<char>| 0 <= k <= j ==> fits_i64(#[trigger] running(trs@, k, n)),
                forall|n: Seq<char>| #[trigger] amount(balance.view(), n) == running(trs@, j as int, n) + amount(bcv.take(q as int), n),
            decreases bc.entries@.len() - q,
        {
            let name = &bc.entries[q].0;
            let v = bc.entries[q].1;
            let cur = balance.get(name);
            proof {
                let t = bcv.take(q as int);
                assert(bcv[q as int] == (name@, v as int));
                assert(!crate::ledger::has_name(t, name@)) by {
                    if crate::ledger::has_name(t, name@) {
                        let k = choose|k: int| 0 <= k < t.len() && #[trigger] t[k].0 == name@;
                        assert(bcv[k].0 == bcv[q as int].0);
                    }
                }
                crate::ledger::lemma_amount_absent(t, name@);
                assert(bcv.take(q + 1) =~= t.push((name@, v as int)));
                assert(t.push((name@, v as int)).drop_last() =~= t);
            }
            if (cur as i128) + (v as i128) > 0x7fff_ffff_ffff_ffffi128 || (cur as i128) + (v as i128) < -0x8000_0000_0000_0000i128 {
                proof {
                    crate::ledger::lemma_amount_at(bcv, q as int);
                    assert(running(trs@, j + 1, name@) == running(trs@, j as int, name@) + v);
                    assert(!fits_i64(running(trs@, j + 1, name@)));
                }
                return None;
            }
            balance.add(name, v);
            q = q + 1;
        }
        proof {
            assert(bcv.take(q as int) =~= bcv);
            assert forall|n: Seq<char>| #[trigger] amount(balance.view(), n) == running(trs@, j + 1, n) by {}
            assert forall|k: int, n: Seq<char>| 0 <= k <= j + 1 implies fits_i64(#[trigger] running(trs@, k, n)) by {
                if k == j + 1 {
                    crate::bill::lemma_ledger_amount_fits(balance.entries@, n);
                }
            }
        }
        j = j + 1;
    }
    assert(trs@.take(j as int) =~= trs@);
    balance.retain_nonzero();
    proof {
        crate::ledger::lemma_no_zeros_names(balance.view());
    }
    Some(Replay { balance, paid_receipts: ids, comments })
}

pub proof fn lemma_paid_in_step(trs: Seq<Transaction>, j: int)
    requires
        0 <= j < trs.len(),
        !(trs[j].meta is Some && trs[j].meta->Some_0 is Receipt),
    ensures
        forall|x: Seq<char>| #[trigger] paid_in(trs.take(j + 1), x) == paid_in(trs.take(j), x),
{
    let t0 = trs.take(j);
    let t1 = trs.take(j + 1);
    assert forall|x: Seq<char>| #[trigger] paid_in(t1, x) == paid_in(t0, x) by {
        if paid_in(t1, x) {
            let q = choose|q: int| 0 <= q < t1.len() && (#[trigger] t1[q]).meta is Some && t1[q].meta->Some_0 is Receipt
                && x == receipt_id_spec(t1[q].meta->Some_0->Receipt_drive_num@, t1[q].meta->Some_0->Receipt_doc_num);
            assert(q != j);
            assert(t0[q] == t1[q]);
        }
        if paid_in(t0, x) {
            let q = choose|q: int| 0 <= q < t0.len() && (#[trigger] t0[q]).meta is Some && t0[q].meta->Some_0 is Receipt
                && x == receipt_id_spec(t0[q].meta->Some_0->Receipt_drive_num@, t0[q].meta->Some_0->Receipt_doc_num);
            assert(t1[q] == t0[q]);
        }
    }
}

/// `a` is no later than `b` (dates and times compare part by part, year first).
pub open spec fn not_later(a: DateTime, b: DateTime) -> bool {
    (a.year, a.month, a.day, a.hour, a.minute, a.second) == (b.year, b.month, b.day, b.hour, b.minute, b.second) || {
        ||| a.year < b.year
        ||| a.year == b.year && a.month < b.month
        ||| a.year == b.year && a.month == b.month && a.day < b.day
        ||| a.year == b.year && a.month == b.month && a.day == b.day && a.hour < b.hour
        ||| a.year == b.year && a.month == b.month && a.day == b.day && a.hour == b.hour && a.minute < b.minute
        ||| a.year == b.year && a.month == b.month && a.day == b.day && a.hour == b.hour && a.minute == b.minute && a.second < b.second
    }
}

/// The later of two dates and times (`max`).
pub open spec fn later_of(a: DateTime, b: DateTime) -> DateTime {
    if not_later(a, b) { b } else { a }
}

/// Whether `a` is no later than `b`.
pub fn is_not_later(a: DateTime, b: DateTime) -> (r: bool)
    ensures
        r == not_later(a, b),
{
    if a.year != b.year {
        a.year < b.year
    } else if a.month != b.month {
        a.month < b.month
    } else if a.day != b.day {
        a.day < b.day
    } else if a.hour != b.hour {
        a.hour < b.hour
    } else if a.minute != b.minute {
        a.minute < b.minute
    } else {
        a.second <= b.second
    }
}

/// What is known of a kind of goods bought: its unit, when it was last bought and how
/// often.
#[derive(Clone, Debug)]
pub struct Commodity {
    pub unit: String,
    pub last_time: DateTime,
    pub count: usize,
}

/// The view of a commodity: unit, last time, count.
pub open spec fn commodity_view(c: Commodity) -> (Seq<char>, DateTime, usize) {
    (c.unit@, c.last_time, c.count)
}

/// A commodity not seen yet: no unit, the start of 1970, never bought.
pub open spec fn fresh_commodity() -> (Seq<char>, DateTime, usize) {
    (Seq::empty(), DateTime { year: 1970, month: 1, day: 1, hour: 0, minute: 0, second: 0 }, 0)
}

/// `c` after one more purchase: the unit replaced where one is given, the time
/// replaced by `date` (or by the later of the two where `latest`), the count up.
pub open spec fn bought(c: (Seq<char>, DateTime, usize), unit: Option<Seq<char>>, date: Option<DateTime>, latest: bool) -> (Seq<char>, DateTime, usize) {
    (
        match unit {
            Some(u) => u,
            None => c.0,
        },
        match date {
            Some(d) => if latest { later_of(c.1, d) } else { d },
            None => c.1,
        },
        (c.2 + 1) as usize,
    )
}

/// The commodity `name` in `v`, where it has an entry.
pub open spec fn commodity_of(v: Map<Seq<char>, (Seq<char>, DateTime, usize)>, name: Seq<char>) -> Option<(Seq<char>, DateTime, usize)> {
    if v.dom().contains(name) {
        Some(v[name])
    } else {
        None
    }
}

/// A concurrent table of commodities by name.
pub type CommodityTable = dashmap::DashMap<String, Commodity>;

/// What a table of commodities holds: each name with the view of its commodity.
pub uninterp spec fn commodity_table(m: CommodityTable) -> Map<Seq<char>, (Seq<char>, DateTime, usize)>;

/// An empty table (`DashMap::new`).
#[verifier::external_body]
fn commodity_table_new() -> (r: CommodityTable)
    ensures
        commodity_table(r).dom() == Set::<Seq<char>>::empty(),
{
    dashmap::DashMap::new()
}

/// A copy of the commodity of `k` in the table (`DashMap::get`, the value cloned
/// out), or `None` where it has no entry.
#[verifier::external_body]
fn commodity_table_get(m: &CommodityTable, k: &String) -> (r: Option<Commodity>)
    ensures
        r is None <==> commodity_of(commodity_table(*m), k@) is None,
        r matches Some(c) ==> commodity_of(commodity_table(*m), k@) == Some(commodity_view(c)),
{
    m.get(k).map(|e| e.value().clone())
}

/// Puts `v` as the commodity of `k` (`DashMap::insert`): the entry of `k` is
/// replaced or added, the others stay.
#[verifier::external_body]
fn commodity_table_insert(m: &mut CommodityTable, k: String, v: Commodity)
    ensures
        commodity_table(*final(m)) == commodity_table(*old(m)).insert(k@, commodity_view(v)),
{
    m.insert(k, v);
}

/// Commodities by name.
pub struct Commodities {
    pub table: CommodityTable,
}

impl Commodities {
    pub open spec fn view(&self) -> Map<Seq<char>, (Seq<char>, DateTime, usize)> {
        commodity_table(self.table)
    }

    /// No commodities.
    pub fn new() -> (r: Commodities)
        ensures
            forall|n: Seq<char>| #[trigger] commodity_of(r.view(), n) is None,
    {
        Commodities { table: commodity_table_new() }
    }

    /// What is known of `name`, where it was bought.
    pub fn get(&self, name: &String) -> (r: Option<Commodity>)
        ensures
            r is None <==> commodity_of(self.view(), name@) is None,
            r matches Some(c) ==> commodity_of(self.view(), name@) == Some(commodity_view(c)),
    {
        commodity_table_get(&self.table, name)
    }

    /// Counts one more purchase of `name` (`entry(name).or_default()`, then the update).
    pub fn record(&mut self, name: &String, unit: Option<String>, date: Option<DateTime>, latest: bool)
        requires
            commodity_of(old(self).view(), name@) matches Some(c) ==> c.2 < usize::MAX,
        ensures
            commodity_of(final(self).view(), name@) == Some(bought(
                match commodity_of(old(self).view(), name@) {
                    Some(c) => c,
                    None => fresh_commodity(),
                },
                match unit {
                    Some(u) => Some(u@),
                    None => None,
                },
                date,
                latest,
            )),
            forall|n: Seq<char>| n != name@ ==> #[trigger] commodity_of(final(self).view(), n) == commodity_of(old(self).view(), n),
    {
        let epoch = DateTime { year: 1970, month: 1, day: 1, hour: 0, minute: 0, second: 0 };
        let c = match commodity_table_get(&self.table, name) {
            Some(c) => c,
            None => Commodity { unit: String::new(), last_time: epoch, count: 0 },
        };
        let new_unit = match unit {
            Some(u) => u,
            None => c.unit,
        };
        let new_time = match date {
            Some(d) => if latest {
                if is_not_later(c.last_time, d) { d } else { c.last_time }
            } else {
                d
            },
            None => c.last_time,
        };
        let nc = Commodity { unit: new_unit, last_time: new_time, count: c.count + 1 };
        commodity_table_insert(&mut self.table, name.clone(), nc);
    }
}

/// Every item of the receipt has a name that reads.
pub open spec fn items_named(o: Seq<(u16, FieldValue)>) -> bool {
    forall|k: int| 0 <= k < page_items(o).len() ==> (#[trigger] read_text(page_items(o)[k], ITEM_NAME)) matches Ok(Some(_))
}

/// The unit of an item as the goods list keeps it: its unit of measure, where it
/// reads and is not empty; otherwise the code of its quantity unit in decimal, where
/// that reads.
pub open spec fn item_unit(item: Seq<(u16, FieldValue)>) -> Option<Seq<char>> {
    match read_text(item, UNIT) {
        Ok(Some(u)) if u.len() > 0 => Some(u),
        _ => match read_num(item, ITEM_QUANTITY_UNIT, u8::MAX as u64) {
            Ok(Some(c)) => Some(decimal(c as nat)),
            _ => None,
        },
    }
}

/// What the goods list knows of `n` after the purchases of `items` on a receipt of
/// `date`, starting from `c`.
pub open spec fn commodity_after(
    c: Option<(Seq<char>, DateTime, usize)>,
    items: Seq<Seq<(u16, FieldValue)>>,
    n: Seq<char>,
    date: Option<DateTime>,
    latest: bool,
) -> Option<(Seq<char>, DateTime, usize)>
    decreases items.len(),
{
    if items.len() == 0 {
        c
    } else {
        let r = commodity_after(c, items.drop_last(), n, date, latest);
        let it = items.last();
        if read_text(it, ITEM_NAME) == Ok::<Option<Seq<char>>, FiscalError>(Some(n)) {
            Some(bought(
                match r {
                    Some(x) => x,
                    None => fresh_commodity(),
                },
                item_unit(it),
                date,
                latest,
            ))
        } else {
            r
        }
    }
}

/// The date of a receipt as the goods list takes it: where it reads.
pub open spec fn receipt_date(o: Seq<(u16, FieldValue)>) -> Option<DateTime> {
    match read_time(o, DATE_TIME) {
        Ok(Some(t)) => Some(t),
        _ => None,
    }
}

impl Commodities {
    /// Counts the purchase of each item of the receipt: its unit where it gives one,
    /// the receipt's date (or the later of the two where `latest`).
    pub fn record_receipt(&mut self, rec: &Object, latest: bool)
        requires
            items_named(rec@),
            forall|n: Seq<char>| #[trigger] commodity_of(old(self).view(), n) matches Some(c) ==> c.2 + page_items(rec@).len() < usize::MAX,
        ensures
            forall|n: Seq<char>| #[trigger] commodity_of(final(self).view(), n) == commodity_after(
                commodity_of(old(self).view(), n),
                page_items(rec@),
                n,
                receipt_date(rec@),
                latest,
            ),
    {
        let date = match rec.get_time(DATE_TIME) {
            Ok(Some(t)) => Some(t),
            _ => None,
        };
        let items = match rec.get_nested(RECEIPT_ITEM) {
            Ok(v) => v,
            Err(_) => Vec::new(),
        };
        let ghost its = page_items(rec@);
        let ghost v0 = self.view();
        let mut k: usize = 0;
        while k < items.len()
            invariant
                k <= items@.len(),
                items@.len() == its.len(),
                its == page_items(rec@),
                forall|q: int| 0 <= q < items@.len() ==> (#[trigger] items@[q])@ == its[q],
                items_named(rec@),
                date == receipt_date(rec@),
                forall|n: Seq<char>| #[trigger] commodity_of(v0, n) matches Some(c) ==> c.2 + its.len() < usize::MAX,
                forall|n: Seq<char>| #[trigger] commodity_of(self.view(), n) == commodity_after(commodity_of(v0, n), its.take(k as int), n, date, latest),
                forall|n: Seq<char>| #[trigger] commodity_of(self.view(), n) matches Some(c) ==> c.2 <= (match commodity_of(v0, n) {
                    Some(c0) => c0.2 as int,
                    None => 0,
                }) + k,
            decreases items@.len() - k,
        {
            let item = &items[k];
            assert(item@ == its[k as int]);
            assert(read_text(its[k as int], ITEM_NAME) matches Ok(Some(_)));
            let name = match item.get_text(ITEM_NAME) {
                Ok(Some(n)) => n,
                _ => {
                    assert(false);
                    String::new()
                },
            };
            let named_unit = match item.get_text(UNIT) {
                Ok(Some(u)) => if crate::text::to_chars(u.as_str()).len() > 0 { Some(u) } else { None },
                _ => None,
            };
            let unit = match named_unit {
                Some(u) => Some(u),
                None => match item.get_u8(ITEM_QUANTITY_UNIT) {
                    Ok(Some(c)) => Some(from_chars(write_decimal(c as u64).as_slice())),
                    _ => None,
                },
            };
            proof {
                assert(its.take(k + 1).drop_last() =~= its.take(k as int));
                assert(its.take(k + 1).last() == its[k as int]);
            }
            self.record(&name, unit, date, latest);
            k = k + 1;
        }
        assert(its.take(k as int) =~= its);
    }
}

/// Whether every item of the receipt has a name that reads.
pub fn all_items_named(rec: &Object) -> (r: bool)
    ensures
        r == items_named(rec@),
{
    let items = match rec.get_nested(RECEIPT_ITEM) {
        Ok(v) => v,
        Err(_) => Vec::new(),
    };
    let ghost its = page_items(rec@);
    let mut k: usize = 0;
    while k < items.len()
        invariant
            k <= items@.len(),
            items@.len() == its.len(),
            its == page_items(rec@),
            forall|q: int| 0 <= q < items@.len() ==> (#[trigger] items@[q])@ == its[q],
            forall|q: int| 0 <= q < k ==> (#[trigger] read_text(its[q], ITEM_NAME)) matches Ok(Some(_)),
        decreases items@.len() - k,
    {
        match items[k].get_text(ITEM_NAME) {
            Ok(Some(_)) => {},
            _ => {
                assert(items@[k as int]@ == its[k as int]);
                return false;
            },
        }
        assert(items@[k as int]@ == its[k as int]);
        k = k + 1;
    }
    true
}

/// The parts of a date and time are in their ranges (the day of the month at most 31).
pub open spec fn parts_in_range(t: DateTime) -> bool {
    &&& 1 <= t.month <= 12
    &&& 1 <= t.day <= 31
    &&& t.hour < 24
    &&& t.minute < 60
    &&& t.second < 60
}

/// A count of seconds that grows with time: months of 31 days, years of 12 months.
pub open spec fn clock_seconds(t: DateTime) -> int {
    ((((t.year as int * 12 + (t.month - 1)) * 31 + (t.day - 1)) * 24 + t.hour) * 60 + t.minute) * 60 + t.second
}

proof fn lemma_mixed_radix(a: int, b: int, x: int, y: int, n: int)
    requires
        0 <= x < n,
        0 <= y < n,
    ensures
        (a * n + x <= b * n + y) <==> (a < b || (a == b && x <= y)),
        (a * n + x == b * n + y) <==> (a == b && x == y),
{
    if a < b {
        assert(a * n + x < b * n + y) by (nonlinear_arith)
            requires a < b, 0 <= x < n, 0 <= y < n;
    } else if a > b {
        assert(a * n + x > b * n + y) by (nonlinear_arith)
            requires a > b, 0 <= x < n, 0 <= y < n;
    }
}

/// `is_not_later` is the order of time: for dates and times whose parts are in their
/// ranges, `a` is no later than `b` exactly when no more seconds have passed by `a`
/// than by `b`; and the later of two is no earlier than either.
pub proof fn lemma_not_later_is_time_order(a: DateTime, b: DateTime)
    requires
        parts_in_range(a),
        parts_in_range(b),
    ensures
        not_later(a, b) <==> clock_seconds(a) <= clock_seconds(b),
        clock_seconds(later_of(a, b)) >= clock_seconds(a),
        clock_seconds(later_of(a, b)) >= clock_seconds(b),
        later_of(a, b) == a || later_of(a, b) == b,
{
    let ym_a = a.year as int * 12 + (a.month - 1);
    let ym_b = b.year as int * 12 + (b.month - 1);
    lemma_mixed_radix(a.year as int, b.year as int, (a.month - 1) as int, (b.month - 1) as int, 12);
    let d_a = ym_a * 31 + (a.day - 1);
    let d_b = ym_b * 31 + (b.day - 1);
    lemma_mixed_radix(ym_a, ym_b, (a.day - 1) as int, (b.day - 1) as int, 31);
    let h_a = d_a * 24 + a.hour;
    let h_b = d_b * 24 + b.hour;
    lemma_mixed_radix(d_a, d_b, a.hour as int, b.hour as int, 24);
    let m_a = h_a * 60 + a.minute;
    let m_b = h_b * 60 + b.minute;
    lemma_mixed_radix(h_a, h_b, a.minute as int, b.minute as int, 60);
    lemma_mixed_radix(m_a, m_b, a.second as int, b.second as int, 60);
    assert(clock_seconds(a) == m_a * 60 + a.second);
    assert(clock_seconds(b) == m_b * 60 + b.second);
    lemma_mixed_radix(m_b, m_a, b.second as int, a.second as int, 60);
}

} // verus!
