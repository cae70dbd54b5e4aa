//! Submitted web forms: names and values, each name at most once.
use vstd::prelude::*;
use crate::text::{chars_eq, to_chars};

verus! {

/// The names and values of a form.
pub open spec fn form_view(f: Seq<(String, String)>) -> Seq<(Seq<char>, Seq<char>)> {
    Seq::new(f.len(), |i: int| (f[i].0@, f[i].1@))
}

/// No name appears twice (a form arrives as a map).
pub open spec fn distinct_keys(f: Seq<(Seq<char>, Seq<char>)>) -> bool {
    forall|i: int, j: int| 0 <= i < j < f.len() ==> #[trigger] f[i].0 != #[trigger] f[j].0
}

/// The value of the field `key`.
pub open spec fn form_value(f: Seq<(Seq<char>, Seq<char>)>, key: Seq<char>) -> Option<Seq<char>>
    decreases f.len(),
{
    if f.len() == 0 {
        None
    } else if f[0].0 == key {
        Some(f[0].1)
    } else {
        form_value(f.drop_first(), key)
    }
}

/// A checkbox value that means "no": empty, `off`, `0` or `false`.
pub open spec fn is_falsy(v: Seq<char>) -> bool {
    v == ""@ || v == "off"@ || v == "0"@ || v == "false"@
}

/// Whether `v` means "no" for a checkbox.
pub fn falsy(v: &str) -> (r: bool)
    ensures
        r == is_falsy(v@),
{
    let c = to_chars(v);
    let e = to_chars("");
    let off = to_chars("off");
    let zero = to_chars("0");
    let no = to_chars("false");
    chars_eq(c.as_slice(), e.as_slice()) || chars_eq(c.as_slice(), off.as_slice()) || chars_eq(
        c.as_slice(),
        zero.as_slice(),
    ) || chars_eq(c.as_slice(), no.as_slice())
}

/// The value of the field `key`.
pub fn get<'a>(f: &'a [(String, String)], key: &str) -> (r: Option<&'a String>)
    ensures
        r matches Some(v) ==> form_value(form_view(f@), key@) == Some(v@),
        r is None ==> form_value(form_view(f@), key@) is None,
{
    let k = to_chars(key);
    let mut i: usize = 0;
    assert(form_view(f@).skip(0) =~= form_view(f@));
    while i < f.len()
        invariant
            i <= f.len(),
            k@ == key@,
            form_value(form_view(f@), key@) == form_value(form_view(f@).skip(i as int), key@),
        decreases f.len() - i,
    {
        let name = to_chars(f[i].0.as_str());
        let ghost fv = form_view(f@).skip(i as int);
        assert(fv[0] == (f@[i as int].0@, f@[i as int].1@));
        assert(fv.drop_first() =~= form_view(f@).skip(i + 1));
        if chars_eq(name.as_slice(), k.as_slice()) {
            return Some(&f[i].1);
        }
        i = i + 1;
    }
    None
}

pub proof fn lemma_form_value_in(f: Seq<(Seq<char>, Seq<char>)>, key: Seq<char>)
    ensures
        form_value(f, key) matches Some(v) ==> exists|i: int| 0 <= i < f.len() && #[trigger] f[i] == (key, v),
    decreases f.len(),
{
    if f.len() > 0 && f[0].0 != key {
        lemma_form_value_in(f.drop_first(), key);
        if let Some(v) = form_value(f.drop_first(), key) {
            let i = choose|i: int| 0 <= i < f.drop_first().len() && #[trigger] f.drop_first()[i] == (key, v);
            assert(f[i + 1] == (key, v));
        }
    } else if f.len() > 0 {
        assert(f[0] == (key, f[0].1));
    }
}

} // verus!
