//! The end-to-end conversion: parse a document value, render the tree,
//! and hand the text to the external formatter.

use vstd::prelude::*;
use crate::raw::{RawValue, wf_raw};
use crate::schema::SchemaNode;
use crate::parse::{parse, spec_parse, ParseError};
use crate::render::{render, renderable, spec_render, RenderError};

verus! {

/// What `nixpkgs_fmt::reformat_string` returns for the given text: its
/// canonical reformatting.
pub uninterp spec fn reformatted_of(text: Seq<char>) -> Seq<char>;

/// Relies on nixpkgs_fmt::reformat_string: the returned formatting is a
/// function of the input text alone.
#[verifier::external_body]
fn reformat(text: &str) -> (r: String)
    ensures
        r@ == reformatted_of(text@),
{
    nixpkgs_fmt::reformat_string(text)
}

/// Why a conversion fails: the document does not parse as a schema, or
/// the tree holds the unsupported object shape.
#[derive(Debug, Clone, Copy, PartialEq, Eq, Structural)]
pub enum ConvertError {
    Parse(ParseError),
    Render(RenderError),
}

/// Renders a schema tree and formats the text canonically.
pub fn render_formatted(node: &SchemaNode) -> (r: Result<String, RenderError>)
    ensures
        r is Ok <==> renderable(node@),
        r is Ok ==> r->Ok_0@ == reformatted_of(spec_render(node@)),
        r is Err ==> r->Err_0 == RenderError::UnsupportedObject,
{
    match render(node) {
        Result::Ok(text) => Result::Ok(reformat(text.as_str())),
        Result::Err(e) => Result::Err(e),
    }
}

/// Converts one document value to formatted option-type DSL text.
pub fn convert(raw: &RawValue) -> (r: Result<String, ConvertError>)
    requires
        wf_raw(*raw),
    ensures
        r is Ok <==> (spec_parse(*raw) is Ok && renderable(spec_parse(*raw)->Ok_0)),
        r is Ok ==> r->Ok_0@ == reformatted_of(spec_render(spec_parse(*raw)->Ok_0)),
        spec_parse(*raw) is Err ==> r == Result::<String, ConvertError>::Err(ConvertError::Parse(spec_parse(*raw)->Err_0)),
        spec_parse(*raw) is Ok && !renderable(spec_parse(*raw)->Ok_0)
            ==> r == Result::<String, ConvertError>::Err(ConvertError::Render(RenderError::UnsupportedObject)),
{
    match parse(raw) {
        Result::Err(e) => Result::Err(ConvertError::Parse(e)),
        Result::Ok(node) => match render_formatted(&node) {
            Result::Err(e) => Result::Err(ConvertError::Render(e)),
            Result::Ok(text) => Result::Ok(text),
        },
    }
}

} // verus!
