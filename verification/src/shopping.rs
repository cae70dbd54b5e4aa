//! The shopping list: which item of a paid receipt a list entry was bought as.
use vstd::prelude::*;
use crate::fields::{read_text, ITEM_NAME, RECEIPT_ITEM};
use crate::object::{FieldValue, Object};
use crate::receipt::page_items;
use crate::text::{find, find_first, has_prefix, starts_with, to_chars};

verus! {

/// What `str::to_lowercase` gives (Unicode lower case, independent of locale).
pub uninterp spec fn str_lowercase(s: Seq<char>) -> Seq<char>;

/// `s.to_lowercase()`. The result is named, not stated.
#[verifier::external_body]
fn lowercase(s: &str) -> (r: String)
    ensures
        r@ == str_lowercase(s@),
{
    s.to_lowercase()
}

/// A list entry named `entry` was bought as an item named `item`: compared in lower
/// case, a short entry (under six characters) must begin the item's name, a longer
/// one occur in it.
pub open spec fn bought_as(entry: Seq<char>, item: Seq<char>) -> bool {
    let e = str_lowercase(entry);
    let i = str_lowercase(item);
    if e.len() < 6 {
        has_prefix(i, e)
    } else {
        find_first(i, e) is Some
    }
}

/// The first of `items` from index `from` on whose name reads and that `entry` was bought as.
pub open spec fn first_bought_from(entry: Seq<char>, items: Seq<Seq<(u16, FieldValue)>>, from: int) -> Option<int>
    decreases items.len() - from,
{
    if from < 0 || from >= items.len() {
        None
    } else if read_text(items[from], ITEM_NAME) matches Ok(Some(n)) && bought_as(entry, n) {
        Some(from)
    } else {
        first_bought_from(entry, items, from + 1)
    }
}

/// The item of the receipt that the list entry `entry` was bought as: the first whose
/// name reads and matches.
pub fn bought_item(entry: &str, rec: &Object) -> (r: Option<usize>)
    ensures
        r matches Some(k) ==> first_bought_from(entry@, page_items(rec@), 0) == Some(k as int),
        r is None ==> first_bought_from(entry@, page_items(rec@), 0) is None,
{
    let e = to_chars(lowercase(entry).as_str());
    let short = e.len() < 6;
    let items = match rec.get_nested(RECEIPT_ITEM) {
        Ok(v) => v,
        Err(_) => Vec::new(),
    };
    let ghost its = page_items(rec@);
    let mut k: usize = 0;
    while k < items.len()
        invariant
            k <= items@.len(),
            items@.len() == its.len(),
            its == page_items(rec@),
            forall|q: int| 0 <= q < items@.len() ==> (#[trigger] items@[q])@ == its[q],
            e@ == str_lowercase(entry@),
            short == (e@.len() < 6),
            first_bought_from(entry@, its, 0) == first_bought_from(entry@, its, k as int),
        decreases items@.len() - k,
    {
        assert(items@[k as int]@ == its[k as int]);
        match items[k].get_text(ITEM_NAME) {
            Ok(Some(n)) => {
                let i = to_chars(lowercase(n.as_str()).as_str());
                let hit = if short {
                    starts_with(i.as_slice(), e.as_slice())
                } else {
                    find(i.as_slice(), e.as_slice(), 0).is_some()
                };
                if hit {
                    return Some(k);
                }
            },
            _ => {},
        }
        k = k + 1;
    }
    None
}

} // verus!
