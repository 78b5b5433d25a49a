use schema2nix::parse::{parse, resolve_additional, ParseError};
use schema2nix::pipeline::{convert, render_formatted, ConvertError};
use schema2nix::raw::RawValue;
use schema2nix::render::{render, RenderError};
use schema2nix::schema::SchemaNode;

fn s(x: &str) -> String {
    x.to_string()
}

fn map(entries: Vec<(&str, RawValue)>) -> RawValue {
    RawValue::Mapping(entries.into_iter().map(|(k, v)| (s(k), v)).collect())
}

fn typed(kind: &str) -> RawValue {
    map(vec![("type", RawValue::Str(s(kind)))])
}

const SUBMODULE_HEAD: &str = "types.submodule {\ndescription = ''\n\n'';\noptions = {\n";

#[test]
fn object_with_required_property() {
    let doc = map(vec![
        ("type", RawValue::Str(s("object"))),
        ("properties", map(vec![("name", typed("string"))])),
        ("required", RawValue::List(vec![RawValue::Str(s("name"))])),
    ]);
    let node = parse(&doc).unwrap();
    let text = render(&node).unwrap();
    assert_eq!(text, format!("{}name = types.str;}};\n}}", SUBMODULE_HEAD));
}

#[test]
fn object_with_optional_enum_property() {
    let doc = map(vec![
        ("type", RawValue::Str(s("object"))),
        (
            "properties",
            map(vec![(
                "tag",
                map(vec![
                    ("type", RawValue::Str(s("string"))),
                    ("enum", RawValue::List(vec![RawValue::Str(s("a")), RawValue::Str(s("b"))])),
                ]),
            )]),
        ),
    ]);
    let node = parse(&doc).unwrap();
    let text = render(&node).unwrap();
    assert_eq!(text, format!("{}tag = types.nullOr (types.enum [\"a\"\"b\"]);}};\n}}", SUBMODULE_HEAD));
}

#[test]
fn array_of_integer() {
    let doc = map(vec![("type", RawValue::Str(s("array"))), ("items", typed("integer"))]);
    let node = parse(&doc).unwrap();
    assert_eq!(render(&node).unwrap(), "types.listOf (types.int)");
}

#[test]
fn object_with_additional_schema_only() {
    let doc = map(vec![
        ("type", RawValue::Str(s("object"))),
        ("additionalProperties", typed("boolean")),
    ]);
    let node = parse(&doc).unwrap();
    assert_eq!(render(&node).unwrap(), "types.attrsOf (types.bool)");
}

#[test]
fn object_with_both_shapes_aborts() {
    let doc = map(vec![
        ("type", RawValue::Str(s("object"))),
        ("properties", map(vec![("x", typed("integer"))])),
        ("additionalProperties", typed("string")),
    ]);
    let node = parse(&doc).unwrap();
    assert_eq!(render(&node).unwrap_err(), RenderError::UnsupportedObject);
    assert_eq!(render_formatted(&node).unwrap_err(), RenderError::UnsupportedObject);
    assert_eq!(convert(&doc).unwrap_err(), ConvertError::Render(RenderError::UnsupportedObject));
}

#[test]
fn boolean_additional_means_absent() {
    let plain = map(vec![("type", RawValue::Str(s("object")))]);
    let with_true = map(vec![
        ("type", RawValue::Str(s("object"))),
        ("additionalProperties", RawValue::Bool(true)),
    ]);
    let with_false = map(vec![
        ("type", RawValue::Str(s("object"))),
        ("additionalProperties", RawValue::Bool(false)),
    ]);
    let expected = render(&parse(&plain).unwrap()).unwrap();
    assert_eq!(expected, "types.attrs");
    assert_eq!(render(&parse(&with_true).unwrap()).unwrap(), expected);
    assert_eq!(render(&parse(&with_false).unwrap()).unwrap(), expected);
}

#[test]
fn resolver_accepts_either_boolean() {
    assert!(resolve_additional(&RawValue::Bool(true)).unwrap().is_none());
    assert!(resolve_additional(&RawValue::Bool(false)).unwrap().is_none());
    assert!(resolve_additional(&typed("integer")).unwrap().is_some());
    assert_eq!(
        resolve_additional(&RawValue::Str(s("no"))).unwrap_err(),
        ParseError::InvalidAdditionalProperties
    );
}

#[test]
fn properties_render_in_sorted_key_order() {
    let doc = map(vec![
        ("type", RawValue::Str(s("object"))),
        ("properties", map(vec![("b", typed("integer")), ("a", typed("string"))])),
        ("required", RawValue::List(vec![RawValue::Str(s("a")), RawValue::Str(s("b"))])),
    ]);
    let node = parse(&doc).unwrap();
    let text = render(&node).unwrap();
    assert_eq!(text, format!("{}a = types.str;b = types.int;}};\n}}", SUBMODULE_HEAD));
}

#[test]
fn scalar_kinds_render_as_primitives() {
    assert_eq!(render(&parse(&typed("integer")).unwrap()).unwrap(), "types.int");
    assert_eq!(render(&parse(&typed("number")).unwrap()).unwrap(), "types.int");
    assert_eq!(render(&parse(&typed("boolean")).unwrap()).unwrap(), "types.bool");
    assert_eq!(render(&parse(&typed("string")).unwrap()).unwrap(), "types.str");
}

#[test]
fn empty_enum_renders_empty_list() {
    let node = SchemaNode::Str { enum_values: Some(vec![]) };
    assert_eq!(render(&node).unwrap(), "types.enum []");
}

#[test]
fn enum_values_are_escaped() {
    let node = SchemaNode::Str { enum_values: Some(vec![s("a\"b\\c\nd\u{1}e\tf")]) };
    assert_eq!(render(&node).unwrap(), "types.enum [\"a\\\"b\\\\c\\nd\\u{1}e\\tf\"]");
}

#[test]
fn empty_properties_render_empty_options() {
    let doc = map(vec![
        ("type", RawValue::Str(s("object"))),
        ("properties", map(vec![])),
    ]);
    let node = parse(&doc).unwrap();
    assert_eq!(render(&node).unwrap(), format!("{}}};\n}}", SUBMODULE_HEAD));
}

#[test]
fn null_optional_fields_count_as_absent() {
    let doc = map(vec![
        ("type", RawValue::Str(s("object"))),
        ("properties", RawValue::Null),
    ]);
    assert_eq!(render(&parse(&doc).unwrap()).unwrap(), "types.attrs");
    let doc = map(vec![
        ("type", RawValue::Str(s("string"))),
        ("enum", RawValue::Null),
    ]);
    assert_eq!(render(&parse(&doc).unwrap()).unwrap(), "types.str");
}

#[test]
fn non_mapping_document_is_refused() {
    assert_eq!(parse(&RawValue::Str(s("object"))).unwrap_err(), ParseError::ExpectedMapping);
    assert_eq!(parse(&RawValue::Null).unwrap_err(), ParseError::ExpectedMapping);
}

#[test]
fn missing_type_is_refused() {
    assert_eq!(parse(&map(vec![])).unwrap_err(), ParseError::MissingType);
}

#[test]
fn non_string_type_is_refused() {
    let doc = map(vec![("type", RawValue::Number)]);
    assert_eq!(parse(&doc).unwrap_err(), ParseError::InvalidType);
}

#[test]
fn unknown_type_is_refused() {
    assert_eq!(parse(&typed("float")).unwrap_err(), ParseError::UnknownType);
}

#[test]
fn invalid_properties_shape_is_refused() {
    let doc = map(vec![
        ("type", RawValue::Str(s("object"))),
        ("properties", RawValue::Str(s("nope"))),
    ]);
    assert_eq!(parse(&doc).unwrap_err(), ParseError::InvalidProperties);
}

#[test]
fn invalid_additional_shape_is_refused() {
    let doc = map(vec![
        ("type", RawValue::Str(s("object"))),
        ("additionalProperties", RawValue::Str(s("nope"))),
    ]);
    assert_eq!(parse(&doc).unwrap_err(), ParseError::InvalidAdditionalProperties);
}

#[test]
fn invalid_required_shape_is_refused() {
    let doc = map(vec![
        ("type", RawValue::Str(s("object"))),
        ("required", RawValue::Str(s("name"))),
    ]);
    assert_eq!(parse(&doc).unwrap_err(), ParseError::InvalidRequired);
    let doc = map(vec![
        ("type", RawValue::Str(s("object"))),
        ("required", RawValue::List(vec![RawValue::Number])),
    ]);
    assert_eq!(parse(&doc).unwrap_err(), ParseError::InvalidRequired);
}

#[test]
fn array_without_items_is_refused() {
    assert_eq!(parse(&typed("array")).unwrap_err(), ParseError::MissingItems);
}

#[test]
fn invalid_enum_shape_is_refused() {
    let doc = map(vec![
        ("type", RawValue::Str(s("string"))),
        ("enum", RawValue::List(vec![RawValue::Number])),
    ]);
    assert_eq!(parse(&doc).unwrap_err(), ParseError::InvalidEnum);
    let doc = map(vec![
        ("type", RawValue::Str(s("string"))),
        ("enum", RawValue::Bool(true)),
    ]);
    assert_eq!(parse(&doc).unwrap_err(), ParseError::InvalidEnum);
}

#[test]
fn nested_error_aborts_whole_parse() {
    let doc = map(vec![
        ("type", RawValue::Str(s("object"))),
        ("properties", map(vec![("inner", typed("array"))])),
    ]);
    assert_eq!(parse(&doc).unwrap_err(), ParseError::MissingItems);
}

#[test]
fn nested_arrays_nest_in_output() {
    let doc = map(vec![
        ("type", RawValue::Str(s("array"))),
        (
            "items",
            map(vec![("type", RawValue::Str(s("array"))), ("items", typed("number"))]),
        ),
    ]);
    assert_eq!(render(&parse(&doc).unwrap()).unwrap(), "types.listOf (types.listOf (types.int))");
}

#[test]
fn formatting_changes_the_text() {
    let doc = map(vec![
        ("type", RawValue::Str(s("object"))),
        ("properties", map(vec![("name", typed("string"))])),
        ("required", RawValue::List(vec![RawValue::Str(s("name"))])),
    ]);
    let node = parse(&doc).unwrap();
    let unformatted = render(&node).unwrap();
    let formatted = render_formatted(&node).unwrap();
    assert_ne!(formatted, unformatted);
    assert!(formatted.contains("types.submodule"));
    assert!(formatted.contains("types.str"));
    assert_eq!(convert(&doc).unwrap(), formatted);
}

#[test]
fn type_discriminant_is_case_sensitive() {
    assert_eq!(parse(&typed("Object")).unwrap_err(), ParseError::UnknownType);
    assert_eq!(parse(&typed("STRING")).unwrap_err(), ParseError::UnknownType);
}

#[test]
fn required_key_without_property_changes_nothing() {
    let doc = map(vec![
        ("type", RawValue::Str(s("object"))),
        ("properties", map(vec![("a", typed("integer"))])),
        ("required", RawValue::List(vec![RawValue::Str(s("missing"))])),
    ]);
    let node = parse(&doc).unwrap();
    let text = render(&node).unwrap();
    assert_eq!(text, format!("{}a = types.nullOr (types.int);}};\n}}", SUBMODULE_HEAD));
}

#[test]
fn parse_failure_surfaces_through_convert() {
    let doc = map(vec![("type", RawValue::Str(s("maybe")))]);
    assert_eq!(convert(&doc).unwrap_err(), ConvertError::Parse(ParseError::UnknownType));
}
