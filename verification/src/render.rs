//! The renderer: a recursive mapping from a schema tree to unformatted
//! option-type DSL text.

use vstd::prelude::*;
use crate::schema::{SchemaNode, SchemaView, view_entries, view_strings, lemma_view_entries};
use crate::text::{spec_escape, escape_str};

verus! {

/// The renderer's one failure: an `Object` that declares `properties`
/// and `additional_properties` at once, a shape the DSL mapping
/// deliberately does not support.
#[derive(Debug, Clone, Copy, PartialEq, Eq, Structural)]
pub enum RenderError {
    UnsupportedObject,
}

/// Membership of a key in the required set.
pub open spec fn contains_key(keys: Seq<Seq<char>>, key: Seq<char>) -> bool {
    exists|i: int| 0 <= i < keys.len() && keys[i] == key
}

/// Whether the renderer produces text for this tree: no `Object` anywhere
/// in it combines `properties` with `additional_properties`.
pub open spec fn renderable(v: SchemaView) -> bool
    decreases v,
{
    match v {
        SchemaView::Object { properties, additional_properties, .. } => {
            match (properties, additional_properties) {
                (Option::Some(entries), Option::None) => renderable_entries(entries),
                (Option::Some(_), Option::Some(_)) => false,
                (Option::None, Option::Some(inner)) => renderable(*inner),
                (Option::None, Option::None) => true,
            }
        },
        SchemaView::Array { items } => renderable(*items),
        _ => true,
    }
}

/// Every property value of an object is renderable.
pub open spec fn renderable_entries(entries: Seq<(Seq<char>, SchemaView)>) -> bool
    decreases entries,
{
    forall|i: int| 0 <= i < entries.len() ==> renderable(#[trigger] entries[i].1)
}

/// The text of one property entry: `<key> = <type>;`, with the type
/// wrapped in the nullable combinator when the key is not required.
pub open spec fn spec_render_entry(entry: (Seq<char>, SchemaView), required: Seq<Seq<char>>) -> Seq<char>
    decreases entry,
{
    entry.0 + " = "@ + (if contains_key(required, entry.0) {
        spec_render(entry.1)
    } else {
        "types.nullOr ("@ + spec_render(entry.1) + ")"@
    }) + ";"@
}

/// The concatenated entry texts of a property list, in list order.
pub open spec fn spec_render_entries(entries: Seq<(Seq<char>, SchemaView)>, required: Seq<Seq<char>>) -> Seq<char>
    decreases entries,
{
    if entries.len() == 0 {
        Seq::empty()
    } else {
        spec_render_entries(entries.drop_last(), required) + spec_render_entry(entries.last(), required)
    }
}

/// The concatenated quoted literals of an enum's values, in given order.
pub open spec fn spec_render_values(values: Seq<Seq<char>>) -> Seq<char>
    decreases values.len(),
{
    if values.len() == 0 {
        Seq::empty()
    } else {
        spec_render_values(values.drop_last()) + seq!['"'] + spec_escape(values.last()) + seq!['"']
    }
}

/// The DSL text of a schema tree. Unspecified (empty) only on the
/// unsupported object shape, which `render` refuses instead.
pub open spec fn spec_render(v: SchemaView) -> Seq<char>
    decreases v,
{
    match v {
        SchemaView::Object { properties, additional_properties, required } => {
            match (properties, additional_properties) {
                (Option::Some(entries), Option::None) => {
                    "types.submodule {\ndescription = ''\n\n'';\noptions = {\n"@
                        + spec_render_entries(entries, required) + "};\n}"@
                },
                (Option::Some(_), Option::Some(_)) => Seq::empty(),
                (Option::None, Option::Some(inner)) => {
                    "types.attrsOf ("@ + spec_render(*inner) + ")"@
                },
                (Option::None, Option::None) => "types.attrs"@,
            }
        },
        SchemaView::Array { items } => "types.listOf ("@ + spec_render(*items) + ")"@,
        SchemaView::Integer => "types.int"@,
        SchemaView::Number => "types.int"@,
        SchemaView::Boolean => "types.bool"@,
        SchemaView::Str { enum_values: Option::None } => "types.str"@,
        SchemaView::Str { enum_values: Option::Some(values) } => {
            "types.enum ["@ + spec_render_values(values) + "]"@
        },
    }
}

/// Law: a submodule declaration renders one entry per property, in list
/// order; an entry is `<key> = <type>;` when the key is required and
/// `<key> = types.nullOr (<type>);` otherwise, with the type rendered
/// recursively.
pub proof fn lemma_render_object_properties(entries: Seq<(Seq<char>, SchemaView)>, required: Seq<Seq<char>>)
    ensures
        spec_render(SchemaView::Object { properties: Option::Some(entries), additional_properties: Option::None, required })
            == "types.submodule {\ndescription = ''\n\n'';\noptions = {\n"@ + spec_render_entries(entries, required) + "};\n}"@,
        spec_render_entries(Seq::empty(), required) == Seq::<char>::empty(),
        entries.len() > 0 ==> spec_render_entries(entries, required)
            == spec_render_entries(entries.drop_last(), required) + spec_render_entry(entries.last(), required),
        forall|e: (Seq<char>, SchemaView)| contains_key(required, e.0)
            ==> #[trigger] spec_render_entry(e, required) == e.0 + " = "@ + spec_render(e.1) + ";"@,
        forall|e: (Seq<char>, SchemaView)| !contains_key(required, e.0)
            ==> #[trigger] spec_render_entry(e, required) == e.0 + " = "@ + ("types.nullOr ("@ + spec_render(e.1) + ")"@) + ";"@,
{
}

/// Law: an object with an additional-properties schema and no declared
/// properties renders as the attrs-of combinator over that schema's
/// rendering.
pub proof fn lemma_render_object_additional(inner: SchemaView, required: Seq<Seq<char>>)
    ensures
        spec_render(SchemaView::Object {
            properties: Option::None,
            additional_properties: Option::Some(Box::new(inner)),
            required,
        }) == "types.attrsOf ("@ + spec_render(inner) + ")"@,
{
}

/// Law: an object with neither declared nor additional properties
/// renders as exactly the untyped attrs primitive.
pub proof fn lemma_render_object_untyped(required: Seq<Seq<char>>)
    ensures
        spec_render(SchemaView::Object {
            properties: Option::None,
            additional_properties: Option::None,
            required,
        }) == "types.attrs"@,
{
}

/// Law: an object declaring both properties and an additional-properties
/// schema is never renderable, so `render` refuses it and emits no text.
pub proof fn lemma_render_object_unsupported(
    entries: Seq<(Seq<char>, SchemaView)>,
    inner: Box<SchemaView>,
    required: Seq<Seq<char>>,
)
    ensures
        !renderable(SchemaView::Object {
            properties: Option::Some(entries),
            additional_properties: Option::Some(inner),
            required,
        }),
{
}

/// Law: an array renders as the list-of combinator over the recursive
/// rendering of its items, so output nesting follows input nesting.
pub proof fn lemma_render_array(items: SchemaView)
    ensures
        spec_render(SchemaView::Array { items: Box::new(items) }) == "types.listOf ("@ + spec_render(items) + ")"@,
{
}

/// Law: a string with an enum renders exactly its values, as quoted and
/// escaped literals, in the given order; no value is dropped or added.
pub proof fn lemma_render_enum(values: Seq<Seq<char>>)
    ensures
        spec_render(SchemaView::Str { enum_values: Option::Some(values) })
            == "types.enum ["@ + spec_render_values(values) + "]"@,
        spec_render_values(Seq::empty()) == Seq::<char>::empty(),
        values.len() > 0 ==> spec_render_values(values)
            == spec_render_values(values.drop_last()) + seq!['"'] + spec_escape(values.last()) + seq!['"'],
{
}

/// Decides membership of `key` in the required list.
fn contains_string(keys: &Vec<String>, key: &String) -> (r: bool)
    ensures
        r == contains_key(view_strings(keys@), key@),
{
    let mut i: usize = 0;
    while i < keys.len()
        invariant
            i <= keys@.len(),
            forall|j: int| 0 <= j < i ==> view_strings(keys@)[j] != key@,
        decreases keys@.len() - i,
    {
        if keys[i] == *key {
            assert(view_strings(keys@)[i as int] == key@);
            return true;
        }
        i = i + 1;
    }
    false
}

/// Renders a schema tree to unformatted DSL text, or refuses the
/// unsupported object shape.
#[verifier::loop_isolation(false)]
pub fn render(node: &SchemaNode) -> (r: Result<String, RenderError>)
    ensures
        r is Ok <==> renderable(node@),
        r is Ok ==> r->Ok_0@ == spec_render(node@),
        r is Err ==> r->Err_0 == RenderError::UnsupportedObject,
    decreases *node,
{
    match node {
        SchemaNode::Object { properties: Option::Some(entries), additional_properties: Option::None, required } => {
            proof {
                lemma_view_entries(entries@);
            }
            let mut out = String::from_str("types.submodule {\ndescription = ''\n\n'';\noptions = {\n");
            let mut i: usize = 0;
            while i < entries.len()
                invariant
                    i <= entries@.len(),
                    view_entries(entries@).len() == entries@.len(),
                    forall|j: int| 0 <= j < entries@.len()
                        ==> #[trigger] view_entries(entries@)[j] == (entries@[j].0@, crate::schema::view_node(entries@[j].1)),
                    forall|j: int| 0 <= j < i ==> renderable(#[trigger] view_entries(entries@)[j].1),
                    out@ == "types.submodule {\ndescription = ''\n\n'';\noptions = {\n"@
                        + spec_render_entries(view_entries(entries@).subrange(0, i as int), view_strings(required@)),
                decreases entries@.len() - i,
            {
                proof {
                    assert(decreases_to!(*node => ((*node)->properties->Some_0)@[i as int].1));
                }
                let sub = render(&entries[i].1);
                match sub {
                    Result::Err(e) => {
                        proof {
                            assert(view_entries(entries@)[i as int].1 == crate::schema::view_node(entries@[i as int].1));
                            assert(!renderable_entries(view_entries(entries@)));
                        }
                        return Result::Err(e);
                    },
                    Result::Ok(txt) => {
                        out.append(entries[i].0.as_str());
                        out.append(" = ");
                        if contains_string(required, &entries[i].0) {
                            out.append(txt.as_str());
                        } else {
                            out.append("types.nullOr (");
                            out.append(txt.as_str());
                            out.append(")");
                        }
                        out.append(";");
                        proof {
                            let view = view_entries(entries@);
                            let req = view_strings(required@);
                            assert(view.subrange(0, (i + 1) as int).drop_last() =~= view.subrange(0, i as int));
                            assert(view.subrange(0, (i + 1) as int).last() == view[i as int]);
                            assert(spec_render_entries(view.subrange(0, (i + 1) as int), req)
                                == spec_render_entries(view.subrange(0, i as int), req) + spec_render_entry(view[i as int], req));
                            assert(txt@ == spec_render(view[i as int].1));
                            assert(view[i as int].0 == entries@[i as int].0@);
                            assert(out@ == "types.submodule {\ndescription = ''\n\n'';\noptions = {\n"@
                                + spec_render_entries(view.subrange(0, i as int), req) + spec_render_entry(view[i as int], req));
                        }
                    },
                }
                i = i + 1;
            }
            out.append("};\n}");
            proof {
                assert(view_entries(entries@).subrange(0, entries@.len() as int) =~= view_entries(entries@));
                assert(renderable_entries(view_entries(entries@)));
                assert(renderable(node@));
                assert(out@ == spec_render(node@));
            }
            Result::Ok(out)
        },
        SchemaNode::Object { properties: Option::Some(_), additional_properties: Option::Some(_), .. } => {
            Result::Err(RenderError::UnsupportedObject)
        },
        SchemaNode::Object { properties: Option::None, additional_properties: Option::Some(inner), .. } => {
            let sub = render(&**inner);
            match sub {
                Result::Err(e) => Result::Err(e),
                Result::Ok(txt) => {
                    let out = String::from_str("types.attrsOf (").concat(txt.as_str()).concat(")");
                    Result::Ok(out)
                },
            }
        },
        SchemaNode::Object { properties: Option::None, additional_properties: Option::None, .. } => {
            Result::Ok(String::from_str("types.attrs"))
        },
        SchemaNode::Array { items } => {
            let sub = render(&**items);
            match sub {
                Result::Err(e) => Result::Err(e),
                Result::Ok(txt) => {
                    let out = String::from_str("types.listOf (").concat(txt.as_str()).concat(")");
                    Result::Ok(out)
                },
            }
        },
        SchemaNode::Integer => Result::Ok(String::from_str("types.int")),
        SchemaNode::Number => Result::Ok(String::from_str("types.int")),
        SchemaNode::Boolean => Result::Ok(String::from_str("types.bool")),
        SchemaNode::Str { enum_values: Option::None } => Result::Ok(String::from_str("types.str")),
        SchemaNode::Str { enum_values: Option::Some(values) } => {
            let mut out = String::from_str("types.enum [");
            let mut i: usize = 0;
            while i < values.len()
                invariant
                    i <= values@.len(),
                    out@ == "types.enum ["@ + spec_render_values(view_strings(values@).subrange(0, i as int)),
                decreases values@.len() - i,
            {
                proof { reveal_strlit("\""); assert("\""@ =~= seq!['"']); }
                out.append("\"");
                let escaped = escape_str(values[i].as_str());
                out.append(escaped.as_str());
                out.append("\"");
                proof {
                    let view = view_strings(values@);
                    assert(view.subrange(0, (i + 1) as int).drop_last() =~= view.subrange(0, i as int));
                    assert(view.subrange(0, (i + 1) as int).last() == view[i as int]);
                    assert(view[i as int] == values@[i as int]@);
                }
                i = i + 1;
            }
            out.append("]");
            proof {
                assert(view_strings(values@).subrange(0, values@.len() as int) =~= view_strings(values@));
            }
            Result::Ok(out)
        },
    }
}

} // verus!
