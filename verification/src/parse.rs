//! The parser: from a generic document value to a schema tree, including
//! the discriminated-shape resolution of the `additionalProperties` field.

use vstd::prelude::*;
use crate::raw::{RawValue, has_key, key_index, lookup, keys_unique, wf_raw, wf_entries, find_key};
use crate::schema::{SchemaNode, SchemaView, view_entries, view_strings, view_node, lemma_view_entries, wf_view};
use crate::text::{seq_char_lt, str_lt};

verus! {

/// Why a document fails to parse as a schema tree.
#[derive(Debug, Clone, Copy, PartialEq, Eq, Structural)]
pub enum ParseError {
    /// A schema node is not a mapping.
    ExpectedMapping,
    /// A schema node carries no `type` key.
    MissingType,
    /// The `type` value is not a string.
    InvalidType,
    /// The `type` string names none of the known kinds.
    UnknownType,
    /// `properties` is neither a mapping nor null.
    InvalidProperties,
    /// `additionalProperties` is neither a boolean nor a mapping.
    InvalidAdditionalProperties,
    /// `required` is not a list of strings.
    InvalidRequired,
    /// An `array` node carries no `items` key.
    MissingItems,
    /// `enum` is neither a list of strings nor null.
    InvalidEnum,
}

/// Inserts a parsed property into a key-sorted entry list, replacing any
/// entry already carrying the same key.
pub open spec fn insert_entry(
    entries: Seq<(Seq<char>, SchemaView)>,
    key: Seq<char>,
    val: SchemaView,
) -> Seq<(Seq<char>, SchemaView)>
    decreases entries.len(),
{
    if entries.len() == 0 {
        seq![(key, val)]
    } else if seq_char_lt(key, entries[0].0) {
        seq![(key, val)] + entries
    } else if key == entries[0].0 {
        seq![(key, val)] + entries.drop_first()
    } else {
        seq![entries[0]] + insert_entry(entries.drop_first(), key, val)
    }
}

/// Reads a list of string scalars, in order; any other element kind is
/// the given error.
pub open spec fn spec_parse_strings(items: Seq<RawValue>, err: ParseError) -> Result<Seq<Seq<char>>, ParseError>
    decreases items.len(),
{
    if items.len() == 0 {
        Result::Ok(Seq::empty())
    } else {
        match spec_parse_strings(items.drop_last(), err) {
            Result::Err(e) => Result::Err(e),
            Result::Ok(pre) => match items.last() {
                RawValue::Str(s) => Result::Ok(pre.push(s@)),
                _ => Result::Err(err),
            },
        }
    }
}

/// Parses the value of every property, left to right, gathering the
/// results into a key-sorted entry list; a later duplicate key replaces
/// an earlier one.
pub open spec fn spec_parse_props(entries: Seq<(String, RawValue)>) -> Result<Seq<(Seq<char>, SchemaView)>, ParseError>
    decreases entries, 1int,
{
    if entries.len() == 0 {
        Result::Ok(Seq::empty())
    } else {
        match spec_parse_props(entries.drop_last()) {
            Result::Err(e) => Result::Err(e),
            Result::Ok(pre) => match spec_parse(entries.last().1) {
                Result::Err(e) => Result::Err(e),
                Result::Ok(v) => Result::Ok(insert_entry(pre, entries.last().0@, v)),
            },
        }
    }
}

/// Parses the body of an `object` node from its mapping entries.
pub open spec fn spec_parse_object(entries: Seq<(String, RawValue)>) -> Result<SchemaView, ParseError>
    decreases entries, 2int,
{
    let props_r: Result<Option<Seq<(Seq<char>, SchemaView)>>, ParseError> = if !has_key(entries, "properties"@) {
        Result::Ok(Option::None)
    } else {
        match lookup(entries, "properties"@) {
            RawValue::Null => Result::Ok(Option::None),
            RawValue::Mapping(pe) => match spec_parse_props(pe@) {
                Result::Ok(s) => Result::Ok(Option::Some(s)),
                Result::Err(e) => Result::Err(e),
            },
            _ => Result::Err(ParseError::InvalidProperties),
        }
    };
    match props_r {
        Result::Err(e) => Result::Err(e),
        Result::Ok(props) => {
            let ap_r: Result<Option<SchemaView>, ParseError> = if !has_key(entries, "additionalProperties"@) {
                Result::Ok(Option::None)
            } else {
                spec_resolve(lookup(entries, "additionalProperties"@))
            };
            match ap_r {
                Result::Err(e) => Result::Err(e),
                Result::Ok(ap) => {
                    let req_r: Result<Seq<Seq<char>>, ParseError> = if !has_key(entries, "required"@) {
                        Result::Ok(Seq::empty())
                    } else {
                        match lookup(entries, "required"@) {
                            RawValue::List(items) => spec_parse_strings(items@, ParseError::InvalidRequired),
                            _ => Result::Err(ParseError::InvalidRequired),
                        }
                    };
                    match req_r {
                        Result::Err(e) => Result::Err(e),
                        Result::Ok(req) => Result::Ok(SchemaView::Object {
                            properties: props,
                            additional_properties: match ap {
                                Option::Some(v) => Option::Some(Box::new(v)),
                                Option::None => Option::None,
                            },
                            required: req,
                        }),
                    }
                },
            }
        },
    }
}

/// Parses the body of a `string` node: an optional ordered `enum` list.
pub open spec fn spec_parse_string_node(entries: Seq<(String, RawValue)>) -> Result<SchemaView, ParseError> {
    if !has_key(entries, "enum"@) {
        Result::Ok(SchemaView::Str { enum_values: Option::None })
    } else {
        match lookup(entries, "enum"@) {
            RawValue::Null => Result::Ok(SchemaView::Str { enum_values: Option::None }),
            RawValue::List(items) => match spec_parse_strings(items@, ParseError::InvalidEnum) {
                Result::Ok(vs) => Result::Ok(SchemaView::Str { enum_values: Option::Some(vs) }),
                Result::Err(e) => Result::Err(e),
            },
            _ => Result::Err(ParseError::InvalidEnum),
        }
    }
}

/// The ambiguous-shape resolution for `additionalProperties`: a boolean,
/// either one, means "no additional-properties schema"; a mapping is a
/// nested schema; any other shape is an error.
pub open spec fn spec_resolve(raw: RawValue) -> Result<Option<SchemaView>, ParseError>
    decreases raw, 4int,
{
    match raw {
        RawValue::Bool(_) => Result::Ok(Option::None),
        RawValue::Mapping(_) => match spec_parse(raw) {
            Result::Ok(v) => Result::Ok(Option::Some(v)),
            Result::Err(e) => Result::Err(e),
        },
        _ => Result::Err(ParseError::InvalidAdditionalProperties),
    }
}

/// Parses one document value as a schema node: a mapping whose `type`
/// key names the node's kind.
pub open spec fn spec_parse(raw: RawValue) -> Result<SchemaView, ParseError>
    decreases raw, 3int,
{
    match raw {
        RawValue::Mapping(entries) => {
            if !has_key(entries@, "type"@) {
                Result::Err(ParseError::MissingType)
            } else {
                match lookup(entries@, "type"@) {
                    RawValue::Str(t) => {
                        if t@ == "object"@ {
                            spec_parse_object(entries@)
                        } else if t@ == "array"@ {
                            if !has_key(entries@, "items"@) {
                                Result::Err(ParseError::MissingItems)
                            } else {
                                match spec_parse(lookup(entries@, "items"@)) {
                                    Result::Ok(v) => Result::Ok(SchemaView::Array { items: Box::new(v) }),
                                    Result::Err(e) => Result::Err(e),
                                }
                            }
                        } else if t@ == "integer"@ {
                            Result::Ok(SchemaView::Integer)
                        } else if t@ == "number"@ {
                            Result::Ok(SchemaView::Number)
                        } else if t@ == "boolean"@ {
                            Result::Ok(SchemaView::Boolean)
                        } else if t@ == "string"@ {
                            spec_parse_string_node(entries@)
                        } else {
                            Result::Err(ParseError::UnknownType)
                        }
                    },
                    _ => Result::Err(ParseError::InvalidType),
                }
            }
        },
        _ => Result::Err(ParseError::ExpectedMapping),
    }
}

/// Law: the additional-properties resolver treats the two booleans
/// alike — either one resolves to no schema at all.
pub proof fn lemma_resolve_boolean(b: bool)
    ensures
        spec_resolve(RawValue::Bool(b)) == Result::<Option<SchemaView>, ParseError>::Ok(Option::None),
{
}

/// Law: an object map whose `additionalProperties` value is a boolean,
/// true or false, parses — and hence renders — exactly as the same map
/// with no `additionalProperties` key at all.
pub proof fn lemma_boolean_additional_is_absent(
    with_bool: Seq<(String, RawValue)>,
    without: Seq<(String, RawValue)>,
    b: bool,
)
    requires
        has_key(with_bool, "additionalProperties"@),
        lookup(with_bool, "additionalProperties"@) == RawValue::Bool(b),
        !has_key(without, "additionalProperties"@),
        has_key(with_bool, "properties"@) == has_key(without, "properties"@),
        has_key(with_bool, "properties"@) ==> lookup(with_bool, "properties"@) == lookup(without, "properties"@),
        has_key(with_bool, "required"@) == has_key(without, "required"@),
        has_key(with_bool, "required"@) ==> lookup(with_bool, "required"@) == lookup(without, "required"@),
    ensures
        spec_parse_object(with_bool) == spec_parse_object(without),
{
}

/// Transitivity of the key order.
proof fn lemma_lt_trans(a: Seq<char>, b: Seq<char>, c: Seq<char>)
    requires
        seq_char_lt(a, b),
        seq_char_lt(b, c),
    ensures
        seq_char_lt(a, c),
    decreases a.len(),
{
    if a.len() > 0 && b.len() > 0 && c.len() > 0 {
        if a[0] == b[0] && b[0] == c[0] {
            lemma_lt_trans(
                a.subrange(1, a.len() as int),
                b.subrange(1, b.len() as int),
                c.subrange(1, c.len() as int),
            );
        }
    }
}

/// `insert_entry` adds the new entry, keeps the others, and preserves
/// strictly ascending key order.
proof fn lemma_insert_entry_props(es: Seq<(Seq<char>, SchemaView)>, key: Seq<char>, val: SchemaView)
    ensures
        forall|i: int| 0 <= i < insert_entry(es, key, val).len()
            ==> (#[trigger] insert_entry(es, key, val)[i] == (key, val)
                || exists|j: int| 0 <= j < es.len() && es[j] == insert_entry(es, key, val)[i]),
        crate::schema::entries_sorted(es) ==> crate::schema::entries_sorted(insert_entry(es, key, val)),
    decreases es.len(),
{
    let res = insert_entry(es, key, val);
    if es.len() == 0 {
    } else if seq_char_lt(key, es[0].0) {
        if crate::schema::entries_sorted(es) {
            assert forall|i: int, j: int| 0 <= i < j < res.len()
                implies seq_char_lt((#[trigger] res[i]).0, (#[trigger] res[j]).0) by {
                if i == 0 && j > 1 {
                    lemma_lt_trans(key, es[0].0, es[j - 1].0);
                }
            };
        }
    } else if key == es[0].0 {
        assert forall|i: int| 0 <= i < res.len()
            implies (#[trigger] res[i] == (key, val)
                || exists|j: int| 0 <= j < es.len() && es[j] == res[i]) by {
            if i > 0 {
                assert(es[i] == res[i]);
            }
        };
    } else {
        lemma_lt_props(key, es[0].0);
        lemma_lt_props(es[0].0, key);
        let tail = es.drop_first();
        lemma_insert_entry_props(tail, key, val);
        let sub = insert_entry(tail, key, val);
        assert forall|i: int| 0 <= i < res.len()
            implies (#[trigger] res[i] == (key, val)
                || exists|j: int| 0 <= j < es.len() && es[j] == res[i]) by {
            if i == 0 {
                assert(es[0] == res[0]);
            } else {
                assert(res[i] == sub[i - 1]);
                if sub[i - 1] != (key, val) {
                    let j = choose|j: int| 0 <= j < tail.len() && tail[j] == sub[i - 1];
                    assert(es[j + 1] == res[i]);
                }
            }
        };
        if crate::schema::entries_sorted(es) {
            assert(crate::schema::entries_sorted(tail));
            assert forall|i: int, j: int| 0 <= i < j < res.len()
                implies seq_char_lt((#[trigger] res[i]).0, (#[trigger] res[j]).0) by {
                if i == 0 {
                    if sub[j - 1] == (key, val) {
                        assert(seq_char_lt(es[0].0, key));
                    } else {
                        let k = choose|k: int| 0 <= k < tail.len() && tail[k] == sub[j - 1];
                        assert(seq_char_lt(es[0].0, es[k + 1].0));
                    }
                } else {
                    assert(seq_char_lt(sub[i - 1].0, sub[j - 1].0));
                }
            };
        }
    }
}

/// The parser establishes the tree invariant: every property list it
/// builds is strictly sorted by key, and recursively well-formed.
pub proof fn lemma_parse_props_wf(pe: Seq<(String, RawValue)>)
    ensures
        spec_parse_props(pe) is Ok ==> crate::schema::entries_sorted(spec_parse_props(pe)->Ok_0)
            && crate::schema::wf_entries(spec_parse_props(pe)->Ok_0),
    decreases pe, 1int,
{
    if pe.len() > 0 && spec_parse_props(pe) is Ok {
        lemma_parse_props_wf(pe.drop_last());
        lemma_parse_wf(pe.last().1);
        let pre = spec_parse_props(pe.drop_last())->Ok_0;
        let v = spec_parse(pe.last().1)->Ok_0;
        lemma_insert_entry_props(pre, pe.last().0@, v);
        let res = spec_parse_props(pe)->Ok_0;
        assert forall|i: int| 0 <= i < res.len() implies wf_view(#[trigger] res[i].1) by {
            if res[i] != (pe.last().0@, v) {
                let j = choose|j: int| 0 <= j < pre.len() && pre[j] == res[i];
                assert(wf_view(pre[j].1));
            }
        };
    }
}

/// The parser establishes the tree invariant for an `object` body.
pub proof fn lemma_parse_object_wf(entries: Seq<(String, RawValue)>)
    ensures
        spec_parse_object(entries) is Ok ==> wf_view(spec_parse_object(entries)->Ok_0),
    decreases entries, 2int,
{
    if spec_parse_object(entries) is Ok {
        if has_key(entries, "properties"@) && lookup(entries, "properties"@) is Mapping {
            lemma_parse_props_wf(lookup(entries, "properties"@)->Mapping_0@);
        }
        if has_key(entries, "additionalProperties"@) {
            lemma_resolve_wf(lookup(entries, "additionalProperties"@));
        }
    }
}

/// The resolver hands back only well-formed schema trees.
pub proof fn lemma_resolve_wf(raw: RawValue)
    ensures
        spec_resolve(raw) is Ok ==> (match spec_resolve(raw)->Ok_0 {
            Option::Some(v) => wf_view(v),
            Option::None => true,
        }),
    decreases raw, 4int,
{
    if raw is Mapping {
        lemma_parse_wf(raw);
    }
}

/// The parser establishes the tree invariant: every schema tree it
/// accepts is well-formed.
pub proof fn lemma_parse_wf(raw: RawValue)
    ensures
        spec_parse(raw) is Ok ==> wf_view(spec_parse(raw)->Ok_0),
    decreases raw, 3int,
{
    match raw {
        RawValue::Mapping(entries) => {
            if has_key(entries@, "type"@) {
                match lookup(entries@, "type"@) {
                    RawValue::Str(t) => {
                        if t@ == "object"@ {
                            lemma_parse_object_wf(entries@);
                        } else if t@ == "array"@ {
                            if has_key(entries@, "items"@) {
                                lemma_parse_wf(lookup(entries@, "items"@));
                            }
                        }
                    },
                    _ => {},
                }
            }
        },
        _ => {},
    }
}

/// Ordering facts about `seq_char_lt`: asymmetry and totality.
pub proof fn lemma_lt_props(a: Seq<char>, b: Seq<char>)
    ensures
        seq_char_lt(a, b) ==> !seq_char_lt(b, a) && a != b,
        !seq_char_lt(a, b) && !seq_char_lt(b, a) ==> a == b,
    decreases a.len(),
{
    if a.len() > 0 && b.len() > 0 {
        let ta = a.subrange(1, a.len() as int);
        let tb = b.subrange(1, b.len() as int);
        lemma_lt_props(ta, tb);
        if a[0] == b[0] && ta == tb {
            assert forall|i: int| 0 <= i < a.len() implies a[i] == b[i] by {
                if i > 0 {
                    assert(ta[i - 1] == tb[i - 1]);
                }
            };
            assert(a =~= b);
        }
    }
}

/// `insert_entry` walks past every entry whose key is below the new one.
proof fn lemma_insert_skip(entries: Seq<(Seq<char>, SchemaView)>, key: Seq<char>, val: SchemaView, j: int)
    requires
        0 <= j <= entries.len(),
        forall|k: int| 0 <= k < j ==> seq_char_lt((#[trigger] entries[k]).0, key),
    ensures
        insert_entry(entries, key, val) == entries.subrange(0, j) + insert_entry(entries.subrange(j, entries.len() as int), key, val),
    decreases j,
{
    if j == 0 {
        assert(entries.subrange(0, entries.len() as int) =~= entries);
        assert(entries.subrange(0, 0) + insert_entry(entries, key, val) =~= insert_entry(entries, key, val));
    } else {
        lemma_lt_props(entries[0].0, key);
        let tail = entries.drop_first();
        assert(forall|k: int| 0 <= k < j - 1 ==> seq_char_lt((#[trigger] tail[k]).0, key));
        lemma_insert_skip(tail, key, val, j - 1);
        assert(tail.subrange(0, j - 1) =~= entries.subrange(1, j));
        assert(tail.subrange(j - 1, tail.len() as int) =~= entries.subrange(j, entries.len() as int));
        assert(seq![entries[0]] + (entries.subrange(1, j) + insert_entry(entries.subrange(j, entries.len() as int), key, val))
            =~= entries.subrange(0, j) + insert_entry(entries.subrange(j, entries.len() as int), key, val));
    }
}

/// A failed prefix decides the whole string-list parse.
proof fn lemma_parse_strings_extend(items: Seq<RawValue>, err: ParseError, k: int, m: int)
    requires
        0 <= k <= m <= items.len(),
        spec_parse_strings(items.subrange(0, k), err) is Err,
    ensures
        spec_parse_strings(items.subrange(0, m), err) == spec_parse_strings(items.subrange(0, k), err),
    decreases m - k,
{
    if m > k {
        lemma_parse_strings_extend(items, err, k, m - 1);
        assert(items.subrange(0, m).drop_last() =~= items.subrange(0, m - 1));
    }
}

/// A failed prefix decides the whole property-list parse.
proof fn lemma_parse_props_extend(entries: Seq<(String, RawValue)>, k: int, m: int)
    requires
        0 <= k <= m <= entries.len(),
        spec_parse_props(entries.subrange(0, k)) is Err,
    ensures
        spec_parse_props(entries.subrange(0, m)) == spec_parse_props(entries.subrange(0, k)),
    decreases m - k,
{
    if m > k {
        lemma_parse_props_extend(entries, k, m - 1);
        assert(entries.subrange(0, m).drop_last() =~= entries.subrange(0, m - 1));
    }
}

/// Inserts one parsed property into a key-sorted list, replacing an
/// entry that already carries the same key.
#[verifier::loop_isolation(false)]
fn insert_sorted(acc: &mut Vec<(String, SchemaNode)>, key: String, val: SchemaNode)
    ensures
        view_entries(final(acc)@) == insert_entry(view_entries(old(acc)@), key@, val@),
{
    proof {
        lemma_view_entries(acc@);
    }
    let ghost view0 = view_entries(old(acc)@);
    let mut j: usize = 0;
    while j < acc.len() && str_lt(acc[j].0.as_str(), key.as_str())
        invariant
            j <= acc@.len(),
            *acc == *old(acc),
            forall|k: int| 0 <= k < j ==> seq_char_lt((#[trigger] acc@[k]).0@, key@),
        decreases acc@.len() - j,
    {
        j = j + 1;
    }
    proof {
        assert(forall|k: int| 0 <= k < j ==> seq_char_lt((#[trigger] view0[k]).0, key@));
        lemma_insert_skip(view0, key@, val@, j as int);
    }
    let ghost tail = view0.subrange(j as int, view0.len() as int);
    if j < acc.len() && acc[j].0 == key {
        proof {
            assert(tail[0] == view0[j as int]);
            assert(tail[0].0 == key@);
            lemma_lt_props(key@, tail[0].0);
            assert(insert_entry(tail, key@, val@) == seq![(key@, val@)] + tail.drop_first());
        }
        acc.remove(j);
        acc.insert(j, (key, val));
        proof {
            lemma_view_entries(acc@);
            assert(view_entries(acc@) =~= view0.subrange(0, j as int) + insert_entry(tail, key@, val@));
        }
    } else {
        proof {
            if j < view0.len() {
                assert(!seq_char_lt(view0[j as int].0, key@));
                assert(view0[j as int].0 != key@);
                lemma_lt_props(view0[j as int].0, key@);
                assert(seq_char_lt(key@, view0[j as int].0));
                assert(insert_entry(tail, key@, val@) == seq![(key@, val@)] + tail);
            } else {
                assert(tail.len() == 0);
                assert(insert_entry(tail, key@, val@) == seq![(key@, val@)]);
            }
        }
        acc.insert(j, (key, val));
        proof {
            lemma_view_entries(acc@);
            assert(view_entries(acc@) =~= view0.subrange(0, j as int) + insert_entry(tail, key@, val@));
        }
    }
}

/// The view of an optional boxed schema node.
pub open spec fn view_opt_node(o: Option<Box<SchemaNode>>) -> Option<SchemaView> {
    match o {
        Option::Some(b) => Option::Some(view_node(*b)),
        Option::None => Option::None,
    }
}

/// Reads a list of string scalars in document order.
#[verifier::loop_isolation(false)]
fn parse_strings(items: &Vec<RawValue>, err: ParseError) -> (r: Result<Vec<String>, ParseError>)
    ensures
        r is Ok <==> spec_parse_strings(items@, err) is Ok,
        r is Ok ==> view_strings(r->Ok_0@) == spec_parse_strings(items@, err)->Ok_0,
        r is Err ==> r->Err_0 == spec_parse_strings(items@, err)->Err_0,
{
    let mut out: Vec<String> = Vec::new();
    let mut i: usize = 0;
    while i < items.len()
        invariant
            i <= items@.len(),
            spec_parse_strings(items@.subrange(0, i as int), err) is Ok,
            view_strings(out@) == spec_parse_strings(items@.subrange(0, i as int), err)->Ok_0,
        decreases items@.len() - i,
    {
        proof {
            assert(items@.subrange(0, (i + 1) as int).drop_last() =~= items@.subrange(0, i as int));
            assert(items@.subrange(0, (i + 1) as int).last() == items@[i as int]);
        }
        match &items[i] {
            RawValue::Str(s) => {
                out.push(s.clone());
                proof {
                    assert(view_strings(out@) =~= spec_parse_strings(items@.subrange(0, (i + 1) as int), err)->Ok_0);
                }
            },
            _ => {
                proof {
                    lemma_parse_strings_extend(items@, err, (i + 1) as int, items@.len() as int);
                    assert(items@.subrange(0, items@.len() as int) =~= items@);
                }
                return Result::Err(err);
            },
        }
        i = i + 1;
    }
    proof {
        assert(items@.subrange(0, items@.len() as int) =~= items@);
    }
    Result::Ok(out)
}

/// Parses every property value, gathering a key-sorted entry list.
#[verifier::loop_isolation(false)]
fn parse_props(pe: &Vec<(String, RawValue)>) -> (r: Result<Vec<(String, SchemaNode)>, ParseError>)
    requires
        wf_entries(pe@),
    ensures
        r is Ok <==> spec_parse_props(pe@) is Ok,
        r is Ok ==> view_entries(r->Ok_0@) == spec_parse_props(pe@)->Ok_0,
        r is Err ==> r->Err_0 == spec_parse_props(pe@)->Err_0,
    decreases pe@, 1int,
{
    let mut acc: Vec<(String, SchemaNode)> = Vec::new();
    let mut i: usize = 0;
    while i < pe.len()
        invariant
            i <= pe@.len(),
            spec_parse_props(pe@.subrange(0, i as int)) is Ok,
            view_entries(acc@) == spec_parse_props(pe@.subrange(0, i as int))->Ok_0,
        decreases pe@.len() - i,
    {
        proof {
            assert(pe@.subrange(0, (i + 1) as int).drop_last() =~= pe@.subrange(0, i as int));
            assert(pe@.subrange(0, (i + 1) as int).last() == pe@[i as int]);
            assert(decreases_to!(pe@, 1int => pe@[i as int].1, 3int));
        }
        let parsed = parse(&pe[i].1);
        match parsed {
            Result::Err(e) => {
                proof {
                    lemma_parse_props_extend(pe@, (i + 1) as int, pe@.len() as int);
                    assert(pe@.subrange(0, pe@.len() as int) =~= pe@);
                }
                return Result::Err(e);
            },
            Result::Ok(node) => {
                let key = pe[i].0.clone();
                insert_sorted(&mut acc, key, node);
            },
        }
        i = i + 1;
    }
    proof {
        assert(pe@.subrange(0, pe@.len() as int) =~= pe@);
    }
    Result::Ok(acc)
}

/// Resolves an `additionalProperties` value by its shape: a boolean is
/// no schema, a mapping is a nested schema, anything else an error.
pub fn resolve_additional(raw: &RawValue) -> (r: Result<Option<Box<SchemaNode>>, ParseError>)
    requires
        wf_raw(*raw),
    ensures
        r is Ok <==> spec_resolve(*raw) is Ok,
        r is Ok ==> view_opt_node(r->Ok_0) == spec_resolve(*raw)->Ok_0,
        r is Err ==> r->Err_0 == spec_resolve(*raw)->Err_0,
    decreases *raw, 4int,
{
    match raw {
        RawValue::Bool(_) => Result::Ok(Option::None),
        RawValue::Mapping(_) => match parse(raw) {
            Result::Ok(node) => Result::Ok(Option::Some(Box::new(node))),
            Result::Err(e) => Result::Err(e),
        },
        _ => Result::Err(ParseError::InvalidAdditionalProperties),
    }
}

/// Parses the body of an `object` node from its mapping entries.
fn parse_object(entries: &Vec<(String, RawValue)>) -> (r: Result<SchemaNode, ParseError>)
    requires
        keys_unique(entries@),
        wf_entries(entries@),
    ensures
        r is Ok <==> spec_parse_object(entries@) is Ok,
        r is Ok ==> r->Ok_0@ == spec_parse_object(entries@)->Ok_0,
        r is Err ==> r->Err_0 == spec_parse_object(entries@)->Err_0,
    decreases entries@, 2int,
{
    let properties: Option<Vec<(String, SchemaNode)>>;
    match find_key(entries, &String::from_str("properties")) {
        Option::None => {
            properties = Option::None;
        },
        Option::Some(v) => {
            proof {
                let ki = key_index(entries@, "properties"@);
                assert(wf_raw(entries@[ki].1));
            }
            match v {
                RawValue::Null => {
                    properties = Option::None;
                },
                RawValue::Mapping(pe) => {
                    match parse_props(pe) {
                        Result::Err(e) => {
                            return Result::Err(e);
                        },
                        Result::Ok(list) => {
                            properties = Option::Some(list);
                        },
                    }
                },
                _ => {
                    return Result::Err(ParseError::InvalidProperties);
                },
            }
        },
    }
    let additional_properties: Option<Box<SchemaNode>>;
    match find_key(entries, &String::from_str("additionalProperties")) {
        Option::None => {
            additional_properties = Option::None;
        },
        Option::Some(v) => {
            proof {
                let ki = key_index(entries@, "additionalProperties"@);
                assert(wf_raw(entries@[ki].1));
            }
            match resolve_additional(v) {
                Result::Err(e) => {
                    return Result::Err(e);
                },
                Result::Ok(o) => {
                    additional_properties = o;
                },
            }
        },
    }
    let required: Vec<String>;
    match find_key(entries, &String::from_str("required")) {
        Option::None => {
            required = Vec::new();
            proof {
                assert(view_strings(required@) =~= Seq::<Seq<char>>::empty());
            }
        },
        Option::Some(v) => match v {
            RawValue::List(items) => match parse_strings(items, ParseError::InvalidRequired) {
                Result::Err(e) => {
                    return Result::Err(e);
                },
                Result::Ok(list) => {
                    required = list;
                },
            },
            _ => {
                return Result::Err(ParseError::InvalidRequired);
            },
        },
    }
    Result::Ok(SchemaNode::Object { properties, additional_properties, required })
}

/// Parses the body of a `string` node: an optional ordered `enum` list.
fn parse_string_node(entries: &Vec<(String, RawValue)>) -> (r: Result<SchemaNode, ParseError>)
    requires
        keys_unique(entries@),
    ensures
        r is Ok <==> spec_parse_string_node(entries@) is Ok,
        r is Ok ==> r->Ok_0@ == spec_parse_string_node(entries@)->Ok_0,
        r is Err ==> r->Err_0 == spec_parse_string_node(entries@)->Err_0,
{
    match find_key(entries, &String::from_str("enum")) {
        Option::None => Result::Ok(SchemaNode::Str { enum_values: Option::None }),
        Option::Some(v) => match v {
            RawValue::Null => Result::Ok(SchemaNode::Str { enum_values: Option::None }),
            RawValue::List(items) => match parse_strings(items, ParseError::InvalidEnum) {
                Result::Err(e) => Result::Err(e),
                Result::Ok(list) => Result::Ok(SchemaNode::Str { enum_values: Option::Some(list) }),
            },
            _ => Result::Err(ParseError::InvalidEnum),
        },
    }
}

/// Parses one document value as a schema node.
pub fn parse(raw: &RawValue) -> (r: Result<SchemaNode, ParseError>)
    requires
        wf_raw(*raw),
    ensures
        r is Ok <==> spec_parse(*raw) is Ok,
        r is Ok ==> r->Ok_0@ == spec_parse(*raw)->Ok_0,
        r is Ok ==> wf_view(r->Ok_0@),
        r is Err ==> r->Err_0 == spec_parse(*raw)->Err_0,
    decreases *raw, 3int,
{
    proof {
        lemma_parse_wf(*raw);
    }
    match raw {
        RawValue::Mapping(entries) => {
            match find_key(entries, &String::from_str("type")) {
                Option::None => Result::Err(ParseError::MissingType),
                Option::Some(tv) => match tv {
                    RawValue::Str(t) => {
                        if *t == String::from_str("object") {
                            parse_object(entries)
                        } else if *t == String::from_str("array") {
                            match find_key(entries, &String::from_str("items")) {
                                Option::None => Result::Err(ParseError::MissingItems),
                                Option::Some(v) => {
                                    proof {
                                        let ki = key_index(entries@, "items"@);
                                        assert(wf_raw(entries@[ki].1));
                                    }
                                    match parse(v) {
                                        Result::Err(e) => Result::Err(e),
                                        Result::Ok(node) => Result::Ok(SchemaNode::Array { items: Box::new(node) }),
                                    }
                                },
                            }
                        } else if *t == String::from_str("integer") {
                            Result::Ok(SchemaNode::Integer)
                        } else if *t == String::from_str("number") {
                            Result::Ok(SchemaNode::Number)
                        } else if *t == String::from_str("boolean") {
                            Result::Ok(SchemaNode::Boolean)
                        } else if *t == String::from_str("string") {
                            parse_string_node(entries)
                        } else {
                            Result::Err(ParseError::UnknownType)
                        }
                    },
                    _ => Result::Err(ParseError::InvalidType),
                },
            }
        },
        _ => Result::Err(ParseError::ExpectedMapping),
    }
}

} // verus!
