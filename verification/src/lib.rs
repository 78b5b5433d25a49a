//! Convert a JSON-Schema-like document into the textual syntax of a Nix
//! module option type declaration.
//!
//! The input document (YAML or JSON, already decoded into a generic
//! map/sequence/scalar value) is parsed into a closed schema tree
//! ([`schema::SchemaNode`]), which a recursive renderer turns into
//! unformatted Nix option-type text. A final pass hands that text to the
//! `nixpkgs-fmt` formatter for canonical layout.

pub mod raw;
pub mod text;
pub mod schema;
pub mod parse;
pub mod render;
pub mod pipeline;
