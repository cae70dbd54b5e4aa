//! Who owes whom: balances per person and the transactions that move them.
use vstd::prelude::*;
use crate::clock::{utc_time_exists, ClockError};

verus! {

/// Balances per person, in kopecks: a name appears at most once.
pub struct Ledger {
    pub entries: Vec<(String, i64)>,
}

/// The names and amounts of a ledger.
pub open spec fn ledger_view(es: Seq<(String, i64)>) -> Seq<(Seq<char>, int)> {
    Seq::new(es.len(), |i: int| (es[i].0@, es[i].1 as int))
}

/// No name appears twice.
pub open spec fn distinct_names(l: Seq<(Seq<char>, int)>) -> bool {
    forall|i: int, j: int| 0 <= i < j < l.len() ==> #[trigger] l[i].0 != #[trigger] l[j].0
}

/// The amount of `name`: what its entry holds, or zero without one.
pub open spec fn amount(l: Seq<(Seq<char>, int)>, name: Seq<char>) -> int
    decreases l.len(),
{
    if l.len() == 0 {
        0
    } else if l.last().0 == name {
        l.last().1
    } else {
        amount(l.drop_last(), name)
    }
}

/// The ledger has an entry for `name`.
pub open spec fn has_name(l: Seq<(Seq<char>, int)>, name: Seq<char>) -> bool {
    exists|i: int| 0 <= i < l.len() && #[trigger] l[i].0 == name
}

/// The sum of all amounts.
pub open spec fn total(l: Seq<(Seq<char>, int)>) -> int
    decreases l.len(),
{
    if l.len() == 0 {
        0
    } else {
        total(l.drop_last()) + l.last().1
    }
}

/// No entry holds zero.
pub open spec fn no_zeros(l: Seq<(Seq<char>, int)>) -> bool {
    forall|i: int| 0 <= i < l.len() ==> (#[trigger] l[i]).1 != 0
}

/// Every amount fits an `i64` when `delta` is added to the amount of `name`.
pub open spec fn fits_i64(x: int) -> bool {
    i64::MIN <= x <= i64::MAX
}

impl Ledger {
    pub open spec fn view(&self) -> Seq<(Seq<char>, int)> {
        ledger_view(self.entries@)
    }

    /// Well formed: every name at most once.
    pub open spec fn wf(&self) -> bool {
        distinct_names(self.view())
    }

    /// An empty ledger.
    pub fn new() -> (r: Ledger)
        ensures
            r.view() == Seq::<(Seq<char>, int)>::empty(),
            r.wf(),
    {
        let r = Ledger { entries: Vec::new() };
        assert(r.view() =~= Seq::<(Seq<char>, int)>::empty());
        r
    }

    /// Where `name` stands.
    pub fn find(&self, name: &String) -> (r: Option<usize>)
        ensures
            r matches Some(i) ==> i < self.entries@.len() && self.view()[i as int].0 == name@,
            r is None ==> !has_name(self.view(), name@),
    {
        let mut i: usize = 0;
        while i < self.entries.len()
            invariant
                i <= self.entries.len(),
                forall|k: int| 0 <= k < i ==> #[trigger] self.view()[k].0 != name@,
            decreases self.entries.len() - i,
        {
            if self.entries[i].0 == *name {
                return Some(i);
            }
            i = i + 1;
        }
        proof {
            if has_name(self.view(), name@) {
                let k = choose|k: int| 0 <= k < self.view().len() && #[trigger] self.view()[k].0 == name@;
                assert(self.view()[k].0 != name@);
            }
        }
        None
    }

    /// The amount of `name` (zero without an entry).
    pub fn get(&self, name: &String) -> (r: i64)
        requires
            self.wf(),
        ensures
            r as int == amount(self.view(), name@),
    {
        match self.find(name) {
            Some(i) => {
                proof {
                    lemma_amount_at(self.view(), i as int);
                }
                self.entries[i].1
            },
            None => {
                proof {
                    lemma_amount_absent(self.view(), name@);
                }
                0
            },
        }
    }

    /// Adds `delta` to the amount of `name`, making an entry for it where there is none
    /// (`*entry(name).or_default() += delta`).
    pub fn add(&mut self, name: &String, delta: i64)
        requires
            old(self).wf(),
            fits_i64(amount(old(self).view(), name@) + delta),
        ensures
            final(self).wf(),
            forall|n: Seq<char>| #[trigger] amount(final(self).view(), n) == amount(old(self).view(), n) + if n == name@ {
                delta as int
            } else {
                0
            },
            forall|n: Seq<char>| #[trigger] has_name(final(self).view(), n) <==> has_name(old(self).view(), n) || n == name@,
            total(final(self).view()) == total(old(self).view()) + delta,
    {
        let ghost old_view = self.view();
        match self.find(name) {
            Some(i) => {
                let cur = self.entries[i].1;
                proof {
                    lemma_amount_at(old_view, i as int);
                }
                let nv = cur + delta;
                let ghost updated = old_view.update(i as int, (name@, nv as int));
                self.entries.set(i, (name.clone(), nv));
                assert(self.view() =~= updated);
                proof {
                    lemma_update_facts(old_view, i as int, nv as int);
                }
            },
            None => {
                self.entries.push((name.clone(), delta));
                assert(self.view() =~= old_view.push((name@, delta as int)));
                proof {
                    lemma_push_facts(old_view, name@, delta as int);
                }
            },
        }
    }

    /// Subtracts `delta` from the amount of `name` (`*entry(name).or_default() -= delta`).
    pub fn sub(&mut self, name: &String, delta: i64)
        requires
            old(self).wf(),
            fits_i64(amount(old(self).view(), name@) - delta),
        ensures
            final(self).wf(),
            forall|n: Seq<char>| #[trigger] amount(final(self).view(), n) == amount(old(self).view(), n) - if n == name@ {
                delta as int
            } else {
                0
            },
            forall|n: Seq<char>| #[trigger] has_name(final(self).view(), n) <==> has_name(old(self).view(), n) || n == name@,
            total(final(self).view()) == total(old(self).view()) - delta,
    {
        let ghost old_view = self.view();
        match self.find(name) {
            Some(i) => {
                let cur = self.entries[i].1;
                proof {
                    lemma_amount_at(old_view, i as int);
                }
                let nv = cur - delta;
                self.entries.set(i, (name.clone(), nv));
                assert(self.view() =~= old_view.update(i as int, (name@, nv as int)));
                proof {
                    lemma_update_facts(old_view, i as int, nv as int);
                }
            },
            None => {
                proof {
                    lemma_amount_absent(old_view, name@);
                }
                let nv = 0i64 - delta;
                self.entries.push((name.clone(), nv));
                assert(self.view() =~= old_view.push((name@, nv as int)));
                proof {
                    lemma_push_facts(old_view, name@, nv as int);
                }
            },
        }
    }

    /// Negates every amount.
    pub fn negate(&mut self)
        requires
            old(self).wf(),
            forall|i: int| 0 <= i < old(self).view().len() ==> (#[trigger] old(self).view()[i]).1 != i64::MIN,
        ensures
            final(self).wf(),
            final(self).view() == negated(old(self).view()),
            forall|n: Seq<char>| #[trigger] amount(final(self).view(), n) == -amount(old(self).view(), n),
            forall|n: Seq<char>| #[trigger] has_name(final(self).view(), n) == has_name(old(self).view(), n),
            total(final(self).view()) == -total(old(self).view()),
    {
        let ghost old_view = self.view();
        let mut i: usize = 0;
        while i < self.entries.len()
            invariant
                i <= self.entries.len(),
                self.view().len() == old_view.len(),
                forall|k: int| 0 <= k < old_view.len() ==> (#[trigger] old_view[k]).1 != i64::MIN,
                forall|k: int| 0 <= k < i ==> #[trigger] self.view()[k] == (old_view[k].0, -old_view[k].1),
                forall|k: int| i <= k < old_view.len() ==> #[trigger] self.view()[k] == old_view[k],
            decreases self.entries.len() - i,
        {
            let name = self.entries[i].0.clone();
            let v = self.entries[i].1;
            assert(self.view()[i as int] == old_view[i as int]);
            assert(self.view()[i as int] == (self.entries@[i as int].0@, self.entries@[i as int].1 as int));
            assert(old_view[i as int].1 == v);
            assert(name@ == old_view[i as int].0);
            let ghost before = self.view();
            self.entries.set(i, (name, -v));
            assert(self.view() =~= before.update(i as int, (old_view[i as int].0, -old_view[i as int].1)));
            i = i + 1;
        }
        assert(self.view() =~= negated(old_view));
        proof {
            lemma_negate_facts(old_view);
        }
    }

    /// Drops the entries that hold zero.
    pub fn retain_nonzero(&mut self)
        requires
            old(self).wf(),
        ensures
            final(self).wf(),
            no_zeros(final(self).view()),
            forall|n: Seq<char>| #[trigger] amount(final(self).view(), n) == amount(old(self).view(), n),
            forall|n: Seq<char>| #[trigger] has_name(final(self).view(), n) <==> has_name(old(self).view(), n)
                && amount(old(self).view(), n) != 0,
            total(final(self).view()) == total(old(self).view()),
    {
        let ghost old_view = self.view();
        let mut rest: Vec<(String, i64)> = Vec::new();
        std::mem::swap(&mut rest, &mut self.entries);
        let ghost src = rest@;
        assert(ledger_view(src) == old_view);
        let n = rest.len();
        let mut kept: Vec<(String, i64)> = Vec::new();
        let mut i: usize = 0;
        while rest.len() > 0
            invariant
                rest@ == src.skip(i as int),
                i + rest@.len() == src.len(),
                src.len() == n,
                ledger_view(kept@) == nonzero_of(ledger_view(src).take(i as int)),
            decreases rest@.len(),
        {
            let e = rest.remove(0);
            proof {
                assert(rest@ =~= src.skip(i + 1));
                assert(e == src[i as int]);
                let lv = ledger_view(src);
                assert(lv.take(i + 1).drop_last() =~= lv.take(i as int));
                assert(lv.take(i + 1).last() == (e.0@, e.1 as int));
            }
            if e.1 != 0 {
                let ghost kv = ledger_view(kept@);
                kept.push(e);
                assert(ledger_view(kept@) =~= kv.push((e.0@, e.1 as int)));
            }
            i = i + 1;
        }
        assert(ledger_view(src).take(i as int) =~= old_view);
        self.entries = kept;
        proof {
            lemma_nonzero_facts(old_view);
        }
    }
}

/// `l` has an entry for a name exactly when its amount is not zero.
pub open spec fn names_are_nonzero(l: Seq<(Seq<char>, int)>) -> bool {
    forall|n: Seq<char>| #[trigger] has_name(l, n) <==> amount(l, n) != 0
}

/// `after` is what applying the changes `c` to the balances `b` gives: amounts add
/// up name by name, names with nothing left leave, and the totals add up.
pub open spec fn applies(b: Seq<(Seq<char>, int)>, c: Seq<(Seq<char>, int)>, after: Seq<(Seq<char>, int)>) -> bool {
    &&& distinct_names(after)
    &&& no_zeros(after)
    &&& names_are_nonzero(after)
    &&& forall|n: Seq<char>| #[trigger] amount(after, n) == amount(b, n) + amount(c, n)
    &&& total(after) == total(b) + total(c)
}

/// The two ledgers hold the same names with the same amounts.
pub open spec fn same_balances(a: Seq<(Seq<char>, int)>, b: Seq<(Seq<char>, int)>) -> bool {
    &&& forall|n: Seq<char>| #[trigger] amount(a, n) == amount(b, n)
    &&& forall|n: Seq<char>| #[trigger] has_name(a, n) == has_name(b, n)
}

/// Applying changes never fails on an amount: each name's new amount fits.
pub open spec fn can_apply(b: Seq<(Seq<char>, int)>, c: Seq<(Seq<char>, int)>) -> bool {
    forall|i: int| 0 <= i < c.len() ==> fits_i64(amount(b, (#[trigger] c[i]).0) + c[i].1)
}

/// `l` with every amount negated.
pub open spec fn negated(l: Seq<(Seq<char>, int)>) -> Seq<(Seq<char>, int)> {
    Seq::new(l.len(), |i: int| (l[i].0, -l[i].1))
}

/// The entries of `l` that do not hold zero, in order.
pub open spec fn nonzero_of(l: Seq<(Seq<char>, int)>) -> Seq<(Seq<char>, int)>
    decreases l.len(),
{
    if l.len() == 0 {
        Seq::empty()
    } else if l.last().1 != 0 {
        nonzero_of(l.drop_last()).push(l.last())
    } else {
        nonzero_of(l.drop_last())
    }
}

pub proof fn lemma_no_zeros_names(l: Seq<(Seq<char>, int)>)
    requires
        distinct_names(l),
        no_zeros(l),
    ensures
        names_are_nonzero(l),
{
    assert forall|n: Seq<char>| #[trigger] has_name(l, n) <==> amount(l, n) != 0 by {
        if has_name(l, n) {
            let k = choose|k: int| 0 <= k < l.len() && #[trigger] l[k].0 == n;
            lemma_amount_at(l, k);
        } else {
            lemma_amount_absent(l, n);
        }
    }
}

/// Undoing a transaction: applying changes and then the same changes negated gives
/// back the balances one started from.
pub proof fn law_apply_then_negated_restores(
    b: Seq<(Seq<char>, int)>,
    c: Seq<(Seq<char>, int)>,
    b1: Seq<(Seq<char>, int)>,
    b2: Seq<(Seq<char>, int)>,
)
    requires
        distinct_names(b),
        no_zeros(b),
        applies(b, c, b1),
        applies(b1, negated(c), b2),
    ensures
        same_balances(b2, b),
        total(b2) == total(b),
{
    lemma_negate_facts(c);
    lemma_no_zeros_names(b);
    assert forall|n: Seq<char>| #[trigger] amount(b2, n) == amount(b, n) by {
        assert(amount(b1, n) == amount(b, n) + amount(c, n));
        assert(amount(negated(c), n) == -amount(c, n));
    }
    assert forall|n: Seq<char>| #[trigger] has_name(b2, n) == has_name(b, n) by {
        assert(amount(b2, n) == amount(b, n));
    }
}

/// Balances that add up to zero still do after changes that add up to zero: money
/// only moves between people.
pub proof fn law_balanced_changes_keep_zero_sum(
    b: Seq<(Seq<char>, int)>,
    c: Seq<(Seq<char>, int)>,
    after: Seq<(Seq<char>, int)>,
)
    requires
        total(b) == 0,
        total(c) == 0,
        applies(b, c, after),
    ensures
        total(after) == 0,
{
}

/// Turning changes around twice gives them back.
pub proof fn law_negated_twice(c: Seq<(Seq<char>, int)>)
    ensures
        negated(negated(c)) == c,
{
    assert(negated(negated(c)) =~= c);
}

pub proof fn lemma_amount_at(l: Seq<(Seq<char>, int)>, i: int)
    requires
        distinct_names(l),
        0 <= i < l.len(),
    ensures
        amount(l, l[i].0) == l[i].1,
    decreases l.len(),
{
    if i < l.len() - 1 {
        let t = l.drop_last();
        assert(l[l.len() - 1].0 != l[i].0);
        assert(distinct_names(t)) by {
            assert forall|a: int, b: int| 0 <= a < b < t.len() implies #[trigger] t[a].0 != #[trigger] t[b].0 by {
                assert(t[a] == l[a] && t[b] == l[b]);
            }
        }
        lemma_amount_at(t, i);
    }
}

pub proof fn lemma_amount_absent(l: Seq<(Seq<char>, int)>, n: Seq<char>)
    requires
        !has_name(l, n),
    ensures
        amount(l, n) == 0,
    decreases l.len(),
{
    if l.len() > 0 {
        let t = l.drop_last();
        assert(l[l.len() - 1].0 != n);
        assert(!has_name(t, n)) by {
            if has_name(t, n) {
                let k = choose|k: int| 0 <= k < t.len() && #[trigger] t[k].0 == n;
                assert(l[k].0 == n);
            }
        }
        lemma_amount_absent(t, n);
    }
}

pub proof fn lemma_push_facts(l: Seq<(Seq<char>, int)>, n: Seq<char>, v: int)
    requires
        distinct_names(l),
        !has_name(l, n),
    ensures
        distinct_names(l.push((n, v))),
        forall|m: Seq<char>| #[trigger] amount(l.push((n, v)), m) == amount(l, m) + if m == n {
            v
        } else {
            0
        },
        forall|m: Seq<char>| #[trigger] has_name(l.push((n, v)), m) <==> has_name(l, m) || m == n,
        total(l.push((n, v))) == total(l) + v,
{
    let p = l.push((n, v));
    assert(p.drop_last() =~= l);
    assert forall|a: int, b: int| 0 <= a < b < p.len() implies #[trigger] p[a].0 != #[trigger] p[b].0 by {
        if b == l.len() {
            assert(p[a] == l[a]);
        } else {
            assert(p[a] == l[a] && p[b] == l[b]);
        }
    }
    lemma_amount_absent(l, n);
    assert forall|m: Seq<char>| #[trigger] has_name(p, m) <==> has_name(l, m) || m == n by {
        if has_name(l, m) {
            let k = choose|k: int| 0 <= k < l.len() && #[trigger] l[k].0 == m;
            assert(p[k].0 == m);
        }
        if m == n {
            assert(p[l.len() as int].0 == m);
        }
        if has_name(p, m) && m != n {
            let k = choose|k: int| 0 <= k < p.len() && #[trigger] p[k].0 == m;
            assert(l[k].0 == m);
        }
    }
}

pub proof fn lemma_update_facts(l: Seq<(Seq<char>, int)>, i: int, v: int)
    requires
        distinct_names(l),
        0 <= i < l.len(),
    ensures
        distinct_names(l.update(i, (l[i].0, v))),
        forall|m: Seq<char>| #[trigger] amount(l.update(i, (l[i].0, v)), m) == amount(l, m) + if m == l[i].0 {
            v - l[i].1
        } else {
            0
        },
        forall|m: Seq<char>| #[trigger] has_name(l.update(i, (l[i].0, v)), m) == has_name(l, m),
        total(l.update(i, (l[i].0, v))) == total(l) + v - l[i].1,
    decreases l.len(),
{
    let u = l.update(i, (l[i].0, v));
    assert forall|a: int, b: int| 0 <= a < b < u.len() implies #[trigger] u[a].0 != #[trigger] u[b].0 by {
        assert(u[a].0 == l[a].0 && u[b].0 == l[b].0);
    }
    assert forall|m: Seq<char>| #[trigger] has_name(u, m) == has_name(l, m) by {
        if has_name(l, m) {
            let k = choose|k: int| 0 <= k < l.len() && #[trigger] l[k].0 == m;
            assert(u[k].0 == m);
        }
        if has_name(u, m) {
            let k = choose|k: int| 0 <= k < u.len() && #[trigger] u[k].0 == m;
            assert(l[k].0 == m);
        }
    }
    let t = l.drop_last();
    assert(distinct_names(t)) by {
        assert forall|a: int, b: int| 0 <= a < b < t.len() implies #[trigger] t[a].0 != #[trigger] t[b].0 by {
            assert(t[a] == l[a] && t[b] == l[b]);
        }
    }
    if i == l.len() - 1 {
        assert(u.drop_last() =~= t);
        assert forall|m: Seq<char>| #[trigger] amount(u, m) == amount(l, m) + if m == l[i].0 {
            v - l[i].1
        } else {
            0
        } by {}
    } else {
        lemma_update_facts(t, i, v);
        assert(u.drop_last() =~= t.update(i, (t[i].0, v)));
        assert(u.last() == l.last());
        assert(l.last().0 != l[i].0);
        assert forall|m: Seq<char>| #[trigger] amount(u, m) == amount(l, m) + if m == l[i].0 {
            v - l[i].1
        } else {
            0
        } by {
            if m == l.last().0 {
            } else {
                assert(amount(t.update(i, (t[i].0, v)), m) == amount(t, m) + if m == t[i].0 {
                    v - t[i].1
                } else {
                    0
                });
            }
        }
    }
}

pub proof fn lemma_negate_facts(l: Seq<(Seq<char>, int)>)
    ensures
        forall|m: Seq<char>| #[trigger] amount(negated(l), m) == -amount(l, m),
        forall|m: Seq<char>| #[trigger] has_name(negated(l), m) == has_name(l, m),
        total(negated(l)) == -total(l),
        distinct_names(l) ==> distinct_names(negated(l)),
    decreases l.len(),
{
    let nl = negated(l);
    assert forall|m: Seq<char>| #[trigger] has_name(nl, m) == has_name(l, m) by {
        if has_name(l, m) {
            let k = choose|k: int| 0 <= k < l.len() && #[trigger] l[k].0 == m;
            assert(nl[k].0 == m);
        }
        if has_name(nl, m) {
            let k = choose|k: int| 0 <= k < nl.len() && #[trigger] nl[k].0 == m;
            assert(l[k].0 == m);
        }
    }
    if distinct_names(l) {
        assert forall|a: int, b: int| 0 <= a < b < nl.len() implies #[trigger] nl[a].0 != #[trigger] nl[b].0 by {
            assert(nl[a].0 == l[a].0 && nl[b].0 == l[b].0);
        }
    }
    if l.len() > 0 {
        let t = l.drop_last();
        lemma_negate_facts(t);
        assert(nl.drop_last() =~= negated(t));
        assert(nl.last() == (l.last().0, -l.last().1));
        assert forall|m: Seq<char>| #[trigger] amount(negated(l), m) == -amount(l, m) by {
            if nl.last().0 != m {
                assert(amount(nl, m) == amount(negated(t), m));
            }
        }
    }
}

pub proof fn lemma_nonzero_facts(l: Seq<(Seq<char>, int)>)
    requires
        distinct_names(l),
    ensures
        distinct_names(nonzero_of(l)),
        no_zeros(nonzero_of(l)),
        forall|m: Seq<char>| #[trigger] amount(nonzero_of(l), m) == amount(l, m),
        forall|m: Seq<char>| #[trigger] has_name(nonzero_of(l), m) <==> has_name(l, m) && amount(l, m) != 0,
        total(nonzero_of(l)) == total(l),
        forall|i: int| 0 <= i < nonzero_of(l).len() ==> has_name(l, #[trigger] nonzero_of(l)[i].0),
    decreases l.len(),
{
    if l.len() > 0 {
        let t = l.drop_last();
        let e = l.last();
        assert(distinct_names(t)) by {
            assert forall|a: int, b: int| 0 <= a < b < t.len() implies #[trigger] t[a].0 != #[trigger] t[b].0 by {
                assert(t[a] == l[a] && t[b] == l[b]);
            }
        }
        lemma_nonzero_facts(t);
        let nt = nonzero_of(t);
        assert(!has_name(t, e.0)) by {
            if has_name(t, e.0) {
                let k = choose|k: int| 0 <= k < t.len() && #[trigger] t[k].0 == e.0;
                assert(l[k].0 == l[l.len() - 1].0);
            }
        }
        assert forall|m: Seq<char>| #[trigger] has_name(l, m) <==> has_name(t, m) || m == e.0 by {
            if has_name(t, m) {
                let k = choose|k: int| 0 <= k < t.len() && #[trigger] t[k].0 == m;
                assert(l[k].0 == m);
            }
            if m == e.0 {
                assert(l[l.len() - 1].0 == m);
            }
            if has_name(l, m) && m != e.0 {
                let k = choose|k: int| 0 <= k < l.len() && #[trigger] l[k].0 == m;
                assert(t[k].0 == m);
            }
        }
        if e.1 != 0 {
            assert(!has_name(nt, e.0));
            lemma_push_facts(nt, e.0, e.1);
            let p = nt.push(e);
            assert(p.drop_last() =~= nt);
            assert forall|i: int| 0 <= i < p.len() implies (#[trigger] p[i]).1 != 0 by {
                if i < nt.len() {
                    assert(p[i] == nt[i]);
                }
            }
            assert forall|i: int| 0 <= i < p.len() implies has_name(l, #[trigger] p[i].0) by {
                if i < nt.len() {
                    assert(p[i] == nt[i]);
                    assert(has_name(t, nt[i].0));
                } else {
                    assert(l[l.len() - 1].0 == p[i].0);
                }
            }
        } else {
            assert forall|i: int| 0 <= i < nt.len() implies has_name(l, #[trigger] nt[i].0) by {
                assert(has_name(t, nt[i].0));
            }
            lemma_amount_absent(t, e.0);
        }
    }
}


/// A point in time: seconds and nanoseconds since 1970-01-01 UTC.
#[derive(Clone, Copy, Debug, PartialEq, Eq, Structural)]
pub struct Timestamp {
    pub secs: i64,
    pub nanos: u32,
}

/// What a transaction is about.
pub enum TransactionMeta {
    /// Paying for a receipt: the drive and document number, and which items each
    /// person took.
    Receipt { drive_num: String, doc_num: u32, paid: Vec<(String, Vec<usize>)> },
    /// A payment with a comment.
    Comment(String),
    /// A payment with a comment and its amount.
    Comment2(String, i64),
}

/// A change of balances, and what it is about.
pub struct Transaction {
    pub balance_changes: Ledger,
    pub date: Timestamp,
    pub meta: Option<TransactionMeta>,
    /// The balances before this transaction, kept in case the stored ones are lost.
    pub prev_state: Option<Ledger>,
}

impl Ledger {
    /// A copy of the ledger.
    pub fn duplicate(&self) -> (r: Ledger)
        ensures
            r.view() == self.view(),
    {
        let mut out: Vec<(String, i64)> = Vec::new();
        let mut i: usize = 0;
        while i < self.entries.len()
            invariant
                i <= self.entries.len(),
                ledger_view(out@) == self.view().take(i as int),
            decreases self.entries.len() - i,
        {
            let name = self.entries[i].0.clone();
            let ghost before = ledger_view(out@);
            out.push((name, self.entries[i].1));
            assert(ledger_view(out@) =~= before.push(self.view()[i as int]));
            assert(self.view().take(i + 1) =~= self.view().take(i as int).push(self.view()[i as int]));
            i = i + 1;
        }
        assert(self.view().take(i as int) =~= self.view());
        Ledger { entries: out }
    }

    /// Whether the ledger has no entry.
    pub fn is_empty(&self) -> (r: bool)
        ensures
            r == (self.view().len() == 0),
    {
        self.entries.len() == 0
    }

    /// Applies the changes `c` (`*entry(name).or_default() += change` for each, then
    /// the names with nothing left leave).
    pub fn apply(&mut self, c: &Ledger)
        requires
            old(self).wf(),
            c.wf(),
            can_apply(old(self).view(), c.view()),
        ensures
            final(self).wf(),
            applies(old(self).view(), c.view(), final(self).view()),
    {
        let ghost b0 = self.view();
        let ghost cv = c.view();
        let mut j: usize = 0;
        while j < c.entries.len()
            invariant
                j <= c.entries.len(),
                cv == c.view(),
                distinct_names(cv),
                can_apply(b0, cv),
                self.wf(),
                forall|n: Seq<char>| #[trigger] amount(self.view(), n) == amount(b0, n) + amount(cv.take(j as int), n),
                total(self.view()) == total(b0) + total(cv.take(j as int)),
            decreases c.entries.len() - j,
        {
            let name = &c.entries[j].0;
            let delta = c.entries[j].1;
            proof {
                let t = cv.take(j as int);
                assert(cv[j as int] == (name@, delta as int));
                assert(!has_name(t, name@)) by {
                    if has_name(t, name@) {
                        let k = choose|k: int| 0 <= k < t.len() && #[trigger] t[k].0 == name@;
                        assert(cv[k].0 == cv[j as int].0);
                    }
                }
                lemma_amount_absent(t, name@);
                assert(fits_i64(amount(b0, cv[j as int].0) + cv[j as int].1));
                assert(cv.take(j + 1) =~= t.push((name@, delta as int)));
                assert(t.push((name@, delta as int)).drop_last() =~= t);
            }
            self.add(name, delta);
            j = j + 1;
        }
        assert(cv.take(j as int) =~= cv);
        self.retain_nonzero();
        proof {
            lemma_no_zeros_names(self.view());
        }
    }
}

impl Transaction {
    /// The changes add up to zero and name nobody twice.
    pub open spec fn balanced(&self) -> bool {
        &&& self.balance_changes.wf()
        &&& total(self.balance_changes.view()) == 0
    }

    /// A transaction with no changes yet, dated now; `None` where the clock gives
    /// no time (`clock::now`).
    pub fn new(meta: Option<TransactionMeta>) -> (r: Option<Transaction>)
        ensures
            r matches Some(t) ==> {
                &&& t.date.nanos < 1_000_000_000
                &&& utc_time_exists(t.date.secs, t.date.nanos)
                &&& t.balanced()
                &&& t.balance_changes.view().len() == 0
                &&& t.meta == meta
                &&& t.prev_state is None
            },
    {
        match crate::clock::now() {
            Some(now) => Some(Transaction::new_at(meta, now)),
            None => None,
        }
    }

    /// A transaction with no changes yet, dated `now`.
    pub fn new_at(meta: Option<TransactionMeta>, now: Timestamp) -> (r: Transaction)
        ensures
            r.balanced(),
            r.balance_changes.view().len() == 0,
            r.date == now,
            r.meta == meta,
            r.prev_state is None,
    {
        Transaction { balance_changes: Ledger::new(), date: now, meta, prev_state: None }
    }

    /// `src` pays `cnt` to `dst`.
    pub fn pay(&mut self, src: &str, dst: &str, cnt: i64)
        requires
            old(self).balance_changes.wf(),
            fits_i64(amount(old(self).balance_changes.view(), src@) - cnt),
            fits_i64(amount(old(self).balance_changes.view(), dst@) - (if src@ == dst@ { cnt as int } else { 0 }) + cnt),
        ensures
            final(self).balance_changes.wf(),
            forall|n: Seq<char>| #[trigger] amount(final(self).balance_changes.view(), n) == amount(old(self).balance_changes.view(), n)
                - (if n == src@ { cnt as int } else { 0 }) + (if n == dst@ { cnt as int } else { 0 }),
            total(final(self).balance_changes.view()) == total(old(self).balance_changes.view()),
            final(self).date == old(self).date,
            final(self).meta == old(self).meta,
            final(self).prev_state == old(self).prev_state,
    {
        let s = src.to_owned();
        let d = dst.to_owned();
        self.balance_changes.sub(&s, cnt);
        self.balance_changes.add(&d, cnt);
    }

    /// Turns the transaction around: every change is negated (a refund).
    pub fn invert(&mut self)
        requires
            old(self).balance_changes.wf(),
            forall|i: int| 0 <= i < old(self).balance_changes.view().len() ==> (#[trigger] old(self).balance_changes.view()[i]).1 != i64::MIN,
        ensures
            final(self).balance_changes.wf(),
            final(self).balance_changes.view() == negated(old(self).balance_changes.view()),
            total(final(self).balance_changes.view()) == -total(old(self).balance_changes.view()),
            final(self).date == old(self).date,
            final(self).meta == old(self).meta,
            final(self).prev_state == old(self).prev_state,
    {
        self.balance_changes.negate();
    }

    /// Drops the changes of zero.
    pub fn finalize(&mut self)
        requires
            old(self).balance_changes.wf(),
        ensures
            final(self).balance_changes.wf(),
            no_zeros(final(self).balance_changes.view()),
            forall|n: Seq<char>| #[trigger] amount(final(self).balance_changes.view(), n) == amount(old(self).balance_changes.view(), n),
            total(final(self).balance_changes.view()) == total(old(self).balance_changes.view()),
            final(self).date == old(self).date,
            final(self).meta == old(self).meta,
            final(self).prev_state == old(self).prev_state,
    {
        self.balance_changes.retain_nonzero();
    }

    /// A transaction that changes nothing and is about nothing is not recorded.
    pub fn is_noop(&self) -> (r: bool)
        ensures
            r == (self.balance_changes.view().len() == 0 && self.meta is None),
    {
        self.balance_changes.is_empty() && self.meta.is_none()
    }
}

/// Readies `tr` to be recorded against `balance` now, as `prepare_transaction` says:
/// `Ok(None)` for a transaction that changes nothing and is about nothing (the clock is
/// not read); otherwise the transaction dated now, or `ClockError` where the clock
/// gives no time.
pub fn stamp_transaction(balance: &Ledger, tr: Transaction) -> (r: Result<Option<Transaction>, ClockError>)
    ensures
        (tr.balance_changes.view().len() == 0 && tr.meta is None) ==> r == Ok::<Option<Transaction>, ClockError>(None),
        !(tr.balance_changes.view().len() == 0 && tr.meta is None) ==> (r is Err || (r matches Ok(Some(t)) && {
            &&& t.date.nanos < 1_000_000_000
            &&& utc_time_exists(t.date.secs, t.date.nanos)
            &&& t.prev_state is Some
            &&& t.prev_state->0.view() == balance.view()
            &&& t.balance_changes == tr.balance_changes
            &&& t.meta == tr.meta
        })),
{
    if tr.is_noop() {
        return Ok(None);
    }
    match crate::clock::now() {
        Some(now) => Ok(prepare_transaction(balance, tr, now)),
        None => Err(ClockError),
    }
}

/// Readies `tr` to be recorded against `balance` at `now`: `None` for a transaction
/// that changes nothing and is about nothing; otherwise it is dated `now` and keeps
/// a copy of the balances before it.
pub fn prepare_transaction(balance: &Ledger, tr: Transaction, now: Timestamp) -> (r: Option<Transaction>)
    ensures
        (tr.balance_changes.view().len() == 0 && tr.meta is None) ==> r is None,
        !(tr.balance_changes.view().len() == 0 && tr.meta is None) ==> (r matches Some(t) && {
            &&& t.date == now
            &&& t.prev_state is Some
            &&& t.prev_state->0.view() == balance.view()
            &&& t.balance_changes == tr.balance_changes
            &&& t.meta == tr.meta
        }),
{
    if tr.is_noop() {
        return None;
    }
    let mut tr = tr;
    tr.date = now;
    tr.prev_state = Some(balance.duplicate());
    Some(tr)
}

impl Ledger {
    /// Whether the changes `c` can be applied without an amount leaving `i64`.
    pub fn can_apply_changes(&self, c: &Ledger) -> (r: bool)
        requires
            self.wf(),
        ensures
            r == can_apply(self.view(), c.view()),
    {
        let mut j: usize = 0;
        while j < c.entries.len()
            invariant
                j <= c.entries@.len(),
                self.wf(),
                forall|q: int| 0 <= q < j ==> fits_i64(amount(self.view(), (#[trigger] c.view()[q]).0) + c.view()[q].1),
            decreases c.entries@.len() - j,
        {
            let cur = self.get(&c.entries[j].0);
            let d = c.entries[j].1;
            assert(c.view()[j as int] == (c.entries@[j as int].0@, d as int));
            if (cur as i128) + (d as i128) > 0x7fff_ffff_ffff_ffffi128 || (cur as i128) + (d as i128) < -0x8000_0000_0000_0000i128 {
                return false;
            }
            j = j + 1;
        }
        true
    }
}

/// The names of `users`, each once, in their order.
pub open spec fn user_names(users: Seq<String>) -> Seq<Seq<char>> {
    Seq::new(users.len(), |i: int| users[i]@)
}

/// The entries of `l` whose names are not among `users`, in order.
pub open spec fn strangers(l: Seq<(Seq<char>, int)>, users: Seq<Seq<char>>) -> Seq<(Seq<char>, int)>
    decreases l.len(),
{
    if l.len() == 0 {
        Seq::empty()
    } else if users.contains(l.last().0) {
        strangers(l.drop_last(), users)
    } else {
        strangers(l.drop_last(), users).push(l.last())
    }
}

/// The entries of `l` for each of `users` that has one, in the order of `users`.
pub open spec fn known(l: Seq<(Seq<char>, int)>, users: Seq<Seq<char>>) -> Seq<(Seq<char>, int)>
    decreases users.len(),
{
    if users.len() == 0 {
        Seq::empty()
    } else if has_name(l, users.last()) {
        known(l, users.drop_last()).push((users.last(), amount(l, users.last())))
    } else {
        known(l, users.drop_last())
    }
}

/// The balances in the order the page shows them: those of people who are not users
/// first, then the users' in the order the users are configured (a stable sort by the
/// position among the users).
pub open spec fn by_users(l: Seq<(Seq<char>, int)>, users: Seq<Seq<char>>) -> Seq<(Seq<char>, int)> {
    strangers(l, users) + known(l, users)
}

/// The balances of `l`, ordered as `by_users` says.
pub fn order_by_users(l: &Ledger, users: &[String]) -> (r: Vec<(String, i64)>)
    requires
        l.wf(),
    ensures
        ledger_view(r@) == by_users(l.view(), user_names(users@)),
{
    let ghost us = user_names(users@);
    let mut out: Vec<(String, i64)> = Vec::new();
    let mut i: usize = 0;
    while i < l.entries.len()
        invariant
            i <= l.entries@.len(),
            us == user_names(users@),
            ledger_view(out@) == strangers(l.view().take(i as int), us),
        decreases l.entries@.len() - i,
    {
        let ghost lv = l.view();
        proof {
            assert(lv.take(i + 1).drop_last() =~= lv.take(i as int));
            assert(lv.take(i + 1).last() == lv[i as int]);
        }
        let mut found = false;
        let mut k: usize = 0;
        while k < users.len()
            invariant
                k <= users@.len(),
                i < l.entries@.len(),
                us == user_names(users@),
                found == exists|q: int| 0 <= q < k && us[q] == l.entries@[i as int].0@,
            decreases users@.len() - k,
        {
            if users[k] == l.entries[i].0 {
                found = true;
            }
            assert(us[k as int] == users@[k as int]@);
            k = k + 1;
        }
        proof {
            if us.contains(lv[i as int].0) {
                let q = choose|q: int| 0 <= q < us.len() && us[q] == lv[i as int].0;
                assert(found);
            }
        }
        if !found {
            let ghost before = out@;
            out.push((l.entries[i].0.clone(), l.entries[i].1));
            assert(ledger_view(out@) =~= ledger_view(before).push(lv[i as int]));
        }
        i = i + 1;
    }
    assert(l.view().take(i as int) =~= l.view());
    let ghost head = ledger_view(out@);
    let mut k: usize = 0;
    while k < users.len()
        invariant
            k <= users@.len(),
            us == user_names(users@),
            l.wf(),
            ledger_view(out@) == head + known(l.view(), us.take(k as int)),
        decreases users@.len() - k,
    {
        proof {
            assert(us.take(k + 1).drop_last() =~= us.take(k as int));
            assert(us.take(k + 1).last() == users@[k as int]@);
        }
        match l.find(&users[k]) {
            Some(p) => {
                let v = l.entries[p].1;
                proof {
                    lemma_amount_at(l.view(), p as int);
                    assert(has_name(l.view(), users@[k as int]@));
                }
                let ghost before = out@;
                out.push((users[k].clone(), v));
                assert(ledger_view(out@) =~= ledger_view(before).push((users@[k as int]@, v as int)));
            },
            None => {},
        }
        k = k + 1;
    }
    assert(us.take(k as int) =~= us);
    out
}

} // verus!
