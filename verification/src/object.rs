//! A fiscal-data record: tagged values in the order they were written, where a
//! value may itself be a nested record (a receipt item, for instance).
use vstd::prelude::*;

verus! {

/// A local date and time, as a receipt prints it.
#[derive(Clone, Copy, Debug, PartialEq, Eq, Structural)]
pub struct DateTime {
    pub year: i32,
    pub month: u32,
    pub day: u32,
    pub hour: u32,
    pub minute: u32,
    pub second: u32,
}

/// One stored value.
#[derive(Debug)]
pub enum Value {
    /// Raw bytes (a fiscal sign, a code).
    Bytes(Vec<u8>),
    /// Text.
    Text(String),
    /// An unsigned integer (a sum in kopecks, a document number, an enumeration).
    Num(u64),
    /// A decimal with `scale` digits after the point: `digits / 10^scale`.
    Fixed(u64, u8),
    /// A date and time.
    Time(DateTime),
    /// A nested record.
    Nested(Object),
}

/// A tag and its value.
#[derive(Debug)]
pub struct Entry {
    pub tag: u16,
    pub value: Value,
}

/// A record: entries in the order they were written.  A tag may occur more than
/// once (receipt items, provider ids).
#[derive(Debug)]
pub struct Object {
    pub entries: Vec<Entry>,
}

/// The mathematical content of a [`Value`].
pub enum FieldValue {
    Bytes(Seq<u8>),
    Text(Seq<char>),
    Num(u64),
    Fixed(u64, u8),
    Time(DateTime),
    Nested(Seq<(u16, FieldValue)>),
}

/// The errors of reading a field.
#[derive(Debug, PartialEq, Eq, Structural)]
pub enum FiscalError {
    /// The field holds a value of another kind or range than the field has.
    InvalidFormat,
}

pub open spec fn value_view(v: Value) -> FieldValue
    decreases v,
{
    match v {
        Value::Bytes(b) => FieldValue::Bytes(b@),
        Value::Text(s) => FieldValue::Text(s@),
        Value::Num(n) => FieldValue::Num(n),
        Value::Fixed(d, s) => FieldValue::Fixed(d, s),
        Value::Time(t) => FieldValue::Time(t),
        Value::Nested(o) => FieldValue::Nested(entries_view(o.entries@)),
    }
}

pub open spec fn entries_view(es: Seq<Entry>) -> Seq<(u16, FieldValue)>
    decreases es,
{
    if es.len() == 0 {
        Seq::empty()
    } else {
        entries_view(es.drop_last()).push((es.last().tag, value_view(es.last().value)))
    }
}

impl View for Object {
    type V = Seq<(u16, FieldValue)>;

    open spec fn view(&self) -> Seq<(u16, FieldValue)> {
        entries_view(self.entries@)
    }
}

/// The record holds an entry with `tag`.
pub open spec fn has_tag(o: Seq<(u16, FieldValue)>, tag: u16) -> bool {
    exists|i: int| 0 <= i < o.len() && #[trigger] o[i].0 == tag
}

/// The value of the first entry with `tag`.
pub open spec fn first_value(o: Seq<(u16, FieldValue)>, tag: u16) -> Option<FieldValue>
    decreases o.len(),
{
    if o.len() == 0 {
        None
    } else {
        match first_value(o.drop_last(), tag) {
            Some(v) => Some(v),
            None => if o.last().0 == tag {
                Some(o.last().1)
            } else {
                None
            },
        }
    }
}

/// The entries of `o` without those with `tag`, in order.
pub open spec fn without_tag(o: Seq<(u16, FieldValue)>, tag: u16) -> Seq<(u16, FieldValue)>
    decreases o.len(),
{
    if o.len() == 0 {
        Seq::empty()
    } else if o.last().0 != tag {
        without_tag(o.drop_last(), tag).push(o.last())
    } else {
        without_tag(o.drop_last(), tag)
    }
}

/// `o` after setting `tag` to `v`: the old entries with `tag` leave, the new one
/// comes last.
pub open spec fn set_value(o: Seq<(u16, FieldValue)>, tag: u16, v: FieldValue) -> Seq<
    (u16, FieldValue),
> {
    without_tag(o, tag).push((tag, v))
}

/// The values of all entries with `tag`, in order.
pub open spec fn values_of(o: Seq<(u16, FieldValue)>, tag: u16) -> Seq<FieldValue>
    decreases o.len(),
{
    if o.len() == 0 {
        Seq::empty()
    } else if o.last().0 == tag {
        values_of(o.drop_last(), tag).push(o.last().1)
    } else {
        values_of(o.drop_last(), tag)
    }
}

pub proof fn lemma_entries_view_len(es: Seq<Entry>)
    ensures
        entries_view(es).len() == es.len(),
    decreases es.len(),
{
    if es.len() > 0 {
        lemma_entries_view_len(es.drop_last());
    }
}

pub proof fn lemma_entries_view_index(es: Seq<Entry>, i: int)
    requires
        0 <= i < es.len(),
    ensures
        entries_view(es)[i] == (es[i].tag, value_view(es[i].value)),
    decreases es.len(),
{
    lemma_entries_view_len(es.drop_last());
    if i < es.len() - 1 {
        lemma_entries_view_index(es.drop_last(), i);
    }
}

pub proof fn lemma_entries_view_push(es: Seq<Entry>, e: Entry)
    ensures
        entries_view(es.push(e)) == entries_view(es).push((e.tag, value_view(e.value))),
{
    assert(es.push(e).drop_last() =~= es);
}

pub proof fn lemma_first_value_has_tag(o: Seq<(u16, FieldValue)>, tag: u16)
    ensures
        first_value(o, tag) is Some <==> has_tag(o, tag),
    decreases o.len(),
{
    if o.len() > 0 {
        let t = o.drop_last();
        lemma_first_value_has_tag(t, tag);
        if has_tag(t, tag) {
            let i = choose|i: int| 0 <= i < t.len() && #[trigger] t[i].0 == tag;
            assert(o[i].0 == tag);
        }
        if has_tag(o, tag) && o.last().0 != tag {
            let i = choose|i: int| 0 <= i < o.len() && #[trigger] o[i].0 == tag;
            assert(t[i].0 == tag);
        }
    }
}

/// A copy of `b`.
pub fn copy_bytes(b: &[u8]) -> (r: Vec<u8>)
    ensures
        r@ == b@,
{
    let mut r: Vec<u8> = Vec::new();
    let mut i: usize = 0;
    while i < b.len()
        invariant
            i <= b.len(),
            r@ == b@.take(i as int),
        decreases b.len() - i,
    {
        r.push(b[i]);
        i = i + 1;
        assert(r@ =~= b@.take(i as int));
    }
    assert(r@ =~= b@);
    r
}

impl Value {
    /// A copy of the value, nested records included.
    pub fn duplicate(&self) -> (r: Value)
        ensures
            value_view(r) == value_view(*self),
        decreases *self,
    {
        match self {
            Value::Bytes(b) => Value::Bytes(copy_bytes(b.as_slice())),
            Value::Text(s) => Value::Text(s.clone()),
            Value::Num(n) => Value::Num(*n),
            Value::Fixed(d, s) => Value::Fixed(*d, *s),
            Value::Time(t) => Value::Time(*t),
            Value::Nested(o) => Value::Nested(o.duplicate()),
        }
    }
}

impl Object {
    /// An empty record.
    pub fn new() -> (r: Object)
        ensures
            r@ == Seq::<(u16, FieldValue)>::empty(),
    {
        Object { entries: Vec::new() }
    }

    /// A copy of the record, nested records included.
    pub fn duplicate(&self) -> (r: Object)
        ensures
            r@ == self@,
        decreases *self,
    {
        let mut out: Vec<Entry> = Vec::new();
        let mut i: usize = 0;
        while i < self.entries.len()
            invariant
                i <= self.entries.len(),
                entries_view(out@) == entries_view(self.entries@.take(i as int)),
            decreases self.entries.len() - i,
        {
            let e = &self.entries[i];
            assert(decreases_to!(*self => self.entries));
            let v = e.value.duplicate();
            let ne = Entry { tag: e.tag, value: v };
            proof {
                lemma_entries_view_push(out@, ne);
                assert(self.entries@.take(i + 1).drop_last() =~= self.entries@.take(i as int));
            }
            out.push(ne);
            i = i + 1;
        }
        assert(self.entries@.take(i as int) =~= self.entries@);
        Object { entries: out }
    }

    /// Whether the record holds an entry with `tag`.
    pub fn contains(&self, tag: u16) -> (r: bool)
        ensures
            r == has_tag(self@, tag),
    {
        proof {
            lemma_entries_view_len(self.entries@);
        }
        let mut i: usize = 0;
        while i < self.entries.len()
            invariant
                i <= self.entries.len(),
                entries_view(self.entries@).len() == self.entries@.len(),
                forall|k: int| 0 <= k < i ==> #[trigger] self@[k].0 != tag,
            decreases self.entries.len() - i,
        {
            proof {
                lemma_entries_view_index(self.entries@, i as int);
            }
            if self.entries[i].tag == tag {
                assert(self@[i as int].0 == tag);
                return true;
            }
            i = i + 1;
        }
        false
    }

    /// Where the first entry with `tag` stands.
    pub fn position(&self, tag: u16) -> (r: Option<usize>)
        ensures
            r matches Some(i) ==> i < self.entries.len() && self.entries@[i as int].tag == tag
                && first_value(self@, tag) == Some(value_view(self.entries@[i as int].value)),
            r is None ==> first_value(self@, tag) is None && !has_tag(self@, tag),
    {
        proof {
            lemma_entries_view_len(self.entries@);
        }
        let mut i: usize = 0;
        while i < self.entries.len()
            invariant
                i <= self.entries.len(),
                entries_view(self.entries@).len() == self.entries@.len(),
                forall|k: int| 0 <= k < i ==> #[trigger] self@[k].0 != tag,
            decreases self.entries.len() - i,
        {
            proof {
                lemma_entries_view_index(self.entries@, i as int);
            }
            if self.entries[i].tag == tag {
                proof {
                    lemma_first_value_skip(self@, tag, i as int);
                }
                return Some(i);
            }
            i = i + 1;
        }
        proof {
            lemma_first_value_has_tag(self@, tag);
        }
        None
    }

    /// A copy of the value of the first entry with `tag`.
    pub fn get(&self, tag: u16) -> (r: Option<Value>)
        ensures
            r matches Some(v) ==> first_value(self@, tag) == Some(value_view(v)),
            r is None ==> first_value(self@, tag) is None,
    {
        match self.position(tag) {
            Some(i) => Some(self.entries[i].value.duplicate()),
            None => None,
        }
    }

    /// Adds an entry with `tag` at the end, keeping the others.
    pub fn push(&mut self, tag: u16, value: Value)
        ensures
            final(self)@ == old(self)@.push((tag, value_view(value))),
    {
        let e = Entry { tag, value };
        proof {
            lemma_entries_view_push(self.entries@, e);
        }
        self.entries.push(e);
    }

    /// Sets `tag` to `value`: every entry with `tag` leaves and the new one comes last.
    pub fn set(&mut self, tag: u16, value: Value)
        ensures
            final(self)@ == set_value(old(self)@, tag, value_view(value)),
    {
        let ghost old_view = self@;
        let mut kept: Vec<Entry> = Vec::new();
        let mut old_entries: Vec<Entry> = Vec::new();
        std::mem::swap(&mut old_entries, &mut self.entries);
        let ghost src = old_entries@;
        assert(entries_view(src) == old_view);
        proof {
            lemma_entries_view_len(src);
        }
        let mut rest = old_entries;
        assert(src.len() == rest.len());
        let mut i: usize = 0;
        while rest.len() > 0
            invariant
                rest@ == src.skip(i as int),
                i + rest@.len() == src.len(),
                src.len() <= usize::MAX,
                entries_view(kept@) == without_tag(entries_view(src.take(i as int)), tag),
            decreases rest@.len(),
        {
            let e = rest.remove(0);
            proof {
                assert(e == src[i as int]);
                assert(rest@ =~= src.skip(i + 1));
                lemma_entries_view_push(src.take(i as int), e);
                assert(src.take(i + 1) =~= src.take(i as int).push(e));
                lemma_filter_push(entries_view(src.take(i as int)), (e.tag, value_view(e.value)), tag);
            }
            if e.tag != tag {
                proof {
                    lemma_entries_view_push(kept@, e);
                }
                kept.push(e);
            }
            i = i + 1;
        }
        assert(src.take(i as int) =~= src);
        let ne = Entry { tag, value };
        proof {
            lemma_entries_view_push(kept@, ne);
        }
        kept.push(ne);
        self.entries = kept;
    }

    /// The values of all entries with `tag`, in order.
    pub fn get_all(&self, tag: u16) -> (r: Vec<Value>)
        ensures
            r@.len() == values_of(self@, tag).len(),
            forall|k: int| 0 <= k < r@.len() ==> value_view(#[trigger] r@[k]) == values_of(self@, tag)[k],
    {
        let mut r: Vec<Value> = Vec::new();
        let mut i: usize = 0;
        while i < self.entries.len()
            invariant
                i <= self.entries.len(),
                r@.len() == values_of(entries_view(self.entries@.take(i as int)), tag).len(),
                forall|k: int| 0 <= k < r@.len() ==> value_view(#[trigger] r@[k]) == values_of(entries_view(self.entries@.take(i as int)), tag)[k],
            decreases self.entries.len() - i,
        {
            let e = &self.entries[i];
            proof {
                assert(self.entries@.take(i + 1) =~= self.entries@.take(i as int).push(*e));
                lemma_entries_view_push(self.entries@.take(i as int), *e);
                let ev = entries_view(self.entries@.take(i + 1));
                assert(ev.drop_last() == entries_view(self.entries@.take(i as int)));
            }
            if e.tag == tag {
                let v = e.value.duplicate();
                r.push(v);
            }
            i = i + 1;
        }
        assert(self.entries@.take(i as int) =~= self.entries@);
        r
    }
}

pub proof fn lemma_filter_push(o: Seq<(u16, FieldValue)>, e: (u16, FieldValue), tag: u16)
    ensures
        without_tag(o.push(e), tag) == if e.0 != tag {
            without_tag(o, tag).push(e)
        } else {
            without_tag(o, tag)
        },
{
    assert(o.push(e).drop_last() =~= o);
}

pub proof fn lemma_push_facts(o: Seq<(u16, FieldValue)>, e: (u16, FieldValue), tag: u16)
    ensures
        first_value(o.push(e), tag) == match first_value(o, tag) {
            Some(v) => Some(v),
            None => if e.0 == tag {
                Some(e.1)
            } else {
                None
            },
        },
        has_tag(o.push(e), tag) <==> has_tag(o, tag) || e.0 == tag,
        values_of(o.push(e), tag) == if e.0 == tag {
            values_of(o, tag).push(e.1)
        } else {
            values_of(o, tag)
        },
{
    let p = o.push(e);
    assert(p.drop_last() =~= o);
    if has_tag(o, tag) {
        let i = choose|i: int| 0 <= i < o.len() && #[trigger] o[i].0 == tag;
        assert(p[i].0 == tag);
    }
    if e.0 == tag {
        assert(p[o.len() as int].0 == tag);
    }
    if has_tag(p, tag) && e.0 != tag {
        let i = choose|i: int| 0 <= i < p.len() && #[trigger] p[i].0 == tag;
        assert(o[i].0 == tag);
    }
}

pub proof fn lemma_without_tag_facts(o: Seq<(u16, FieldValue)>, tag: u16, other: u16)
    requires
        other != tag,
    ensures
        !has_tag(without_tag(o, tag), tag),
        first_value(without_tag(o, tag), other) == first_value(o, other),
        has_tag(without_tag(o, tag), other) == has_tag(o, other),
        values_of(without_tag(o, tag), other) == values_of(o, other),
    decreases o.len(),
{
    if o.len() > 0 {
        let t = o.drop_last();
        lemma_without_tag_facts(t, tag, other);
        assert(o =~= t.push(o.last()));
        lemma_push_facts(t, o.last(), other);
        lemma_push_facts(without_tag(t, tag), o.last(), other);
        lemma_push_facts(without_tag(t, tag), o.last(), tag);
    }
}

/// A read gives back what was written: after `set`, the tag reads as the value set,
/// and it is the only value the tag holds.
pub proof fn law_set_then_read(o: Seq<(u16, FieldValue)>, tag: u16, v: FieldValue)
    ensures
        first_value(set_value(o, tag, v), tag) == Some(v),
        values_of(set_value(o, tag, v), tag) == seq![v],
{
    lemma_without_tag_facts(o, tag, (if tag == 0 { 1u16 } else { 0u16 }));
    lemma_first_value_has_tag(without_tag(o, tag), tag);
    lemma_push_facts(without_tag(o, tag), (tag, v), tag);
    lemma_values_of_absent(without_tag(o, tag), tag);
    assert(Seq::<FieldValue>::empty().push(v) =~= seq![v]);
}

pub proof fn lemma_values_of_absent(o: Seq<(u16, FieldValue)>, tag: u16)
    requires
        !has_tag(o, tag),
    ensures
        values_of(o, tag) == Seq::<FieldValue>::empty(),
    decreases o.len(),
{
    if o.len() > 0 {
        let t = o.drop_last();
        assert(o =~= t.push(o.last()));
        lemma_push_facts(t, o.last(), tag);
        lemma_values_of_absent(t, tag);
    }
}

/// Setting one tag leaves what every other tag reads as.
pub proof fn law_set_keeps_others(o: Seq<(u16, FieldValue)>, tag: u16, v: FieldValue, other: u16)
    requires
        other != tag,
    ensures
        first_value(set_value(o, tag, v), other) == first_value(o, other),
        has_tag(set_value(o, tag, v), other) == has_tag(o, other),
        values_of(set_value(o, tag, v), other) == values_of(o, other),
{
    lemma_without_tag_facts(o, tag, other);
    lemma_push_facts(without_tag(o, tag), (tag, v), other);
}

pub proof fn lemma_first_value_skip(o: Seq<(u16, FieldValue)>, tag: u16, i: int)
    requires
        0 <= i < o.len(),
        o[i].0 == tag,
        forall|k: int| 0 <= k < i ==> #[trigger] o[k].0 != tag,
    ensures
        first_value(o, tag) == Some(o[i].1),
    decreases o.len(),
{
    let t = o.drop_last();
    if i < o.len() - 1 {
        assert forall|k: int| 0 <= k < i implies #[trigger] t[k].0 != tag by {
            assert(t[k] == o[k]);
        }
        lemma_first_value_skip(t, tag, i);
    } else {
        assert forall|k: int| 0 <= k < t.len() implies #[trigger] t[k].0 != tag by {
            assert(t[k] == o[k]);
        }
        lemma_first_value_has_tag(t, tag);
    }
}

/// What `fill_missing_fields(a, b)` makes of `a`: each entry of `b`, in order,
/// is added when `a` holds no entry with its tag yet.
pub open spec fn fill_missing(a: Seq<(u16, FieldValue)>, b: Seq<(u16, FieldValue)>) -> Seq<
    (u16, FieldValue),
>
    decreases b.len(),
{
    if b.len() == 0 {
        a
    } else {
        let f = fill_missing(a, b.drop_last());
        if has_tag(f, b.last().0) {
            f
        } else {
            f.push(b.last())
        }
    }
}

pub proof fn lemma_without_absent_tag(o: Seq<(u16, FieldValue)>, tag: u16)
    requires
        !has_tag(o, tag),
    ensures
        without_tag(o, tag) == o,
    decreases o.len(),
{
    if o.len() > 0 {
        let t = o.drop_last();
        assert(o =~= t.push(o.last()));
        lemma_push_facts(t, o.last(), tag);
        lemma_without_absent_tag(t, tag);
    }
}

pub proof fn lemma_fill_missing_facts(a: Seq<(u16, FieldValue)>, b: Seq<(u16, FieldValue)>)
    ensures
        fill_missing(a, b).len() >= a.len(),
        fill_missing(a, b).take(a.len() as int) == a,
        forall|t: u16| #[trigger] has_tag(fill_missing(a, b), t) <==> has_tag(a, t) || has_tag(b, t),
        forall|t: u16| has_tag(a, t) ==> #[trigger] first_value(fill_missing(a, b), t) == first_value(a, t),
        forall|t: u16| !has_tag(a, t) ==> #[trigger] first_value(fill_missing(a, b), t) == first_value(b, t),
    decreases b.len(),
{
    if b.len() > 0 {
        let bl = b.drop_last();
        let e = b.last();
        let f = fill_missing(a, bl);
        lemma_fill_missing_facts(a, bl);
        assert(b =~= bl.push(e));
        assert forall|t: u16| #[trigger] has_tag(fill_missing(a, b), t) <==> has_tag(a, t) || has_tag(b, t) by {
            lemma_push_facts(bl, e, t);
            lemma_push_facts(f, e, t);
        }
        assert forall|t: u16| has_tag(a, t) implies #[trigger] first_value(fill_missing(a, b), t) == first_value(a, t) by {
            lemma_push_facts(f, e, t);
            lemma_first_value_has_tag(a, t);
        }
        assert forall|t: u16| !has_tag(a, t) implies #[trigger] first_value(fill_missing(a, b), t) == first_value(b, t) by {
            lemma_push_facts(bl, e, t);
            lemma_push_facts(f, e, t);
            lemma_first_value_has_tag(f, t);
            lemma_first_value_has_tag(bl, t);
        }
        if !has_tag(f, e.0) {
            assert(f.push(e).take(a.len() as int) =~= f.take(a.len() as int));
        }
    } else {
        assert(a.take(a.len() as int) =~= a);
        assert forall|t: u16| !has_tag(a, t) implies #[trigger] first_value(fill_missing(a, b), t) == first_value(b, t) by {
            lemma_first_value_has_tag(a, t);
        }
    }
}

/// Filling in fields a second time from the same source changes nothing: once
/// `fill_missing_fields(a, b)` has run, `a` holds every tag of `b`.
pub proof fn law_fill_missing_idempotent(a: Seq<(u16, FieldValue)>, b: Seq<(u16, FieldValue)>)
    ensures
        fill_missing(fill_missing(a, b), b) == fill_missing(a, b),
{
    lemma_fill_missing_facts(a, b);
    lemma_fill_missing_covered(fill_missing(a, b), b);
}

pub proof fn lemma_fill_missing_covered(a: Seq<(u16, FieldValue)>, b: Seq<(u16, FieldValue)>)
    requires
        forall|t: u16| has_tag(b, t) ==> #[trigger] has_tag(a, t),
    ensures
        fill_missing(a, b) == a,
    decreases b.len(),
{
    if b.len() > 0 {
        let bl = b.drop_last();
        assert(b =~= bl.push(b.last()));
        assert forall|t: u16| has_tag(bl, t) implies #[trigger] has_tag(a, t) by {
            lemma_push_facts(bl, b.last(), t);
        }
        lemma_fill_missing_covered(a, bl);
        lemma_push_facts(bl, b.last(), b.last().0);
    }
}

/// Copies into `a` every entry of `b` whose tag `a` does not hold yet (the
/// first such entry of `b` for each tag), leaving the entries of `a` as they are.
pub fn fill_missing_fields(a: &mut Object, b: &Object)
    ensures
        final(a)@ == fill_missing(old(a)@, b@),
        final(a)@.take(old(a)@.len() as int) == old(a)@,
        forall|t: u16| #[trigger] has_tag(final(a)@, t) <==> has_tag(old(a)@, t) || has_tag(b@, t),
        forall|t: u16| has_tag(old(a)@, t) ==> #[trigger] first_value(final(a)@, t) == first_value(old(a)@, t),
        forall|t: u16| !has_tag(old(a)@, t) ==> #[trigger] first_value(final(a)@, t) == first_value(b@, t),
{
    let ghost a0 = a@;
    let mut i: usize = 0;
    while i < b.entries.len()
        invariant
            i <= b.entries.len(),
            a@ == fill_missing(a0, entries_view(b.entries@.take(i as int))),
        decreases b.entries.len() - i,
    {
        let e = &b.entries[i];
        proof {
            assert(b.entries@.take(i + 1) =~= b.entries@.take(i as int).push(*e));
            lemma_entries_view_push(b.entries@.take(i as int), *e);
            let bv = entries_view(b.entries@.take(i + 1));
            assert(bv.drop_last() == entries_view(b.entries@.take(i as int)));
        }
        if !a.contains(e.tag) {
            let v = e.value.duplicate();
            proof {
                lemma_without_absent_tag(a@, e.tag);
            }
            a.set(e.tag, v);
        }
        i = i + 1;
    }
    assert(b.entries@.take(i as int) =~= b.entries@);
    proof {
        lemma_fill_missing_facts(a0, b@);
    }
}

} // verus!
