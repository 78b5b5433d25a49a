//! The schema data model: a closed tree of tagged variants, together with
//! its mathematical view and its well-formedness predicate.

use vstd::prelude::*;
use crate::text::seq_char_lt;

verus! {

/// One node of a parsed schema tree.
///
/// An `Object`'s `properties` holds one entry per declared key, kept in
/// strictly ascending key order (the order a sorted map would iterate in);
/// `required` holds the keys whose entries are mandatory. The combination
/// `properties: Some(..)` together with `additional_properties: Some(..)`
/// is recognized but deliberately unsupported: the renderer refuses it
/// rather than guessing an interpretation.
#[derive(Debug)]
pub enum SchemaNode {
    Object {
        properties: Option<Vec<(String, SchemaNode)>>,
        additional_properties: Option<Box<SchemaNode>>,
        required: Vec<String>,
    },
    Array { items: Box<SchemaNode> },
    Integer,
    Number,
    Boolean,
    Str { enum_values: Option<Vec<String>> },
}

/// The mathematical shape of a schema tree: the same variants with every
/// string read as its character sequence.
pub enum SchemaView {
    Object {
        properties: Option<Seq<(Seq<char>, SchemaView)>>,
        additional_properties: Option<Box<SchemaView>>,
        required: Seq<Seq<char>>,
    },
    Array { items: Box<SchemaView> },
    Integer,
    Number,
    Boolean,
    Str { enum_values: Option<Seq<Seq<char>>> },
}

/// View of a property list: each key as characters, each value abstracted.
pub open spec fn view_entries(entries: Seq<(String, SchemaNode)>) -> Seq<(Seq<char>, SchemaView)>
    decreases entries,
{
    if entries.len() == 0 {
        Seq::empty()
    } else {
        seq![(entries[0].0@, view_node(entries[0].1))] + view_entries(entries.subrange(1, entries.len() as int))
    }
}

/// View of a string list as a sequence of character sequences.
pub open spec fn view_strings(strings: Seq<String>) -> Seq<Seq<char>> {
    strings.map(|i: int, s: String| s@)
}

/// The view of one schema node.
pub open spec fn view_node(node: SchemaNode) -> SchemaView
    decreases node,
{
    match node {
        SchemaNode::Object { properties, additional_properties, required } => SchemaView::Object {
            properties: match properties {
                Option::Some(entries) => Option::Some(view_entries(entries@)),
                Option::None => Option::None,
            },
            additional_properties: match additional_properties {
                Option::Some(node) => Option::Some(Box::new(view_node(*node))),
                Option::None => Option::None,
            },
            required: view_strings(required@),
        },
        SchemaNode::Array { items } => SchemaView::Array { items: Box::new(view_node(*items)) },
        SchemaNode::Integer => SchemaView::Integer,
        SchemaNode::Number => SchemaView::Number,
        SchemaNode::Boolean => SchemaView::Boolean,
        SchemaNode::Str { enum_values } => SchemaView::Str {
            enum_values: match enum_values {
                Option::Some(values) => Option::Some(view_strings(values@)),
                Option::None => Option::None,
            },
        },
    }
}

impl View for SchemaNode {
    type V = SchemaView;

    open spec fn view(&self) -> SchemaView {
        view_node(*self)
    }
}

/// `view_entries` keeps length and maps each entry pointwise.
pub proof fn lemma_view_entries(entries: Seq<(String, SchemaNode)>)
    ensures
        view_entries(entries).len() == entries.len(),
        forall|i: int| 0 <= i < entries.len() ==> #[trigger] view_entries(entries)[i] == (entries[i].0@, view_node(entries[i].1)),
    decreases entries,
{
    if entries.len() > 0 {
        lemma_view_entries(entries.subrange(1, entries.len() as int));
    }
}

/// Property keys strictly ascending: the invariant of every `Object`'s
/// entry list, and what makes each key occur at most once.
pub open spec fn entries_sorted(entries: Seq<(Seq<char>, SchemaView)>) -> bool {
    forall|i: int, j: int| 0 <= i < j < entries.len() ==> seq_char_lt(#[trigger] entries[i].0, #[trigger] entries[j].0)
}

/// Well-formedness of a schema tree: every object's property list is
/// sorted by key, recursively.
pub open spec fn wf_view(v: SchemaView) -> bool
    decreases v,
{
    match v {
        SchemaView::Object { properties, additional_properties, .. } => {
            (match properties {
                Option::Some(entries) => entries_sorted(entries) && wf_entries(entries),
                Option::None => true,
            }) && (match additional_properties {
                Option::Some(node) => wf_view(*node),
                Option::None => true,
            })
        },
        SchemaView::Array { items } => wf_view(*items),
        _ => true,
    }
}

/// Well-formedness of every value in a property list.
pub open spec fn wf_entries(entries: Seq<(Seq<char>, SchemaView)>) -> bool
    decreases entries,
{
    forall|i: int| 0 <= i < entries.len() ==> wf_view(#[trigger] entries[i].1)
}

} // verus!
