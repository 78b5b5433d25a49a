//! A generic structured document value, as a YAML or JSON deserializer
//! hands it over, reduced to the shapes the schema grammar distinguishes.

use vstd::prelude::*;

verus! {

/// One value of the input document.
///
/// The grammar reads booleans, strings, lists and string-keyed mappings;
/// a numeric scalar is never read beyond its kind, so no number is
/// carried. A mapping keeps its entries in document order.
#[derive(Debug)]
pub enum RawValue {
    Null,
    Bool(bool),
    Number,
    Str(String),
    List(Vec<RawValue>),
    Mapping(Vec<(String, RawValue)>),
}

/// Each key occurs at most once in the entry list.
pub open spec fn keys_unique(entries: Seq<(String, RawValue)>) -> bool {
    forall|i: int, j: int| 0 <= i < j < entries.len() ==> (#[trigger] entries[i]).0@ != (#[trigger] entries[j]).0@
}

/// A well-formed document value: every mapping in it has pairwise
/// distinct keys, as a YAML or JSON deserializer guarantees.
pub open spec fn wf_raw(v: RawValue) -> bool
    decreases v,
{
    match v {
        RawValue::List(items) => wf_list(items@),
        RawValue::Mapping(entries) => keys_unique(entries@) && wf_entries(entries@),
        _ => true,
    }
}

/// Well-formedness of every element of a list.
pub open spec fn wf_list(items: Seq<RawValue>) -> bool
    decreases items,
{
    forall|i: int| 0 <= i < items.len() ==> wf_raw(#[trigger] items[i])
}

/// Well-formedness of every value of a mapping.
pub open spec fn wf_entries(entries: Seq<(String, RawValue)>) -> bool
    decreases entries,
{
    forall|i: int| 0 <= i < entries.len() ==> wf_raw(#[trigger] entries[i].1)
}

/// Whether some entry of the mapping carries this key.
pub open spec fn has_key(entries: Seq<(String, RawValue)>, key: Seq<char>) -> bool {
    exists|i: int| 0 <= i < entries.len() && (#[trigger] entries[i]).0@ == key
}

/// The position of the entry carrying this key, where one exists.
pub open spec fn key_index(entries: Seq<(String, RawValue)>, key: Seq<char>) -> int {
    choose|i: int| 0 <= i < entries.len() && (#[trigger] entries[i]).0@ == key
}

/// The value stored under this key, where one exists.
pub open spec fn lookup(entries: Seq<(String, RawValue)>, key: Seq<char>) -> RawValue {
    entries[key_index(entries, key)].1
}

/// The value under this key, or `None` where the key is absent.
pub open spec fn opt_lookup(entries: Seq<(String, RawValue)>, key: Seq<char>) -> Option<RawValue> {
    if has_key(entries, key) {
        Option::Some(lookup(entries, key))
    } else {
        Option::None
    }
}

/// Finds the entry carrying `key`, if any.
#[verifier::loop_isolation(false)]
pub fn find_key<'a>(entries: &'a Vec<(String, RawValue)>, key: &String) -> (r: Option<&'a RawValue>)
    requires
        keys_unique(entries@),
    ensures
        r is Some <==> has_key(entries@, key@),
        r is Some ==> *r->Some_0 == lookup(entries@, key@),
{
    let mut i: usize = 0;
    while i < entries.len()
        invariant
            i <= entries@.len(),
            forall|j: int| 0 <= j < i ==> (#[trigger] entries@[j]).0@ != key@,
        decreases entries@.len() - i,
    {
        if entries[i].0 == *key {
            proof {
                assert(entries@[i as int].0@ == key@);
                let w = key_index(entries@, key@);
                assert(0 <= w < entries@.len() && entries@[w].0@ == key@);
                if w < i as int {
                    assert(entries@[w].0@ != entries@[i as int].0@);
                } else if w > i as int {
                    assert(entries@[i as int].0@ != entries@[w].0@);
                }
                assert(w == i as int);
            }
            return Option::Some(&entries[i].1);
        }
        i = i + 1;
    }
    Option::None
}

} // verus!
