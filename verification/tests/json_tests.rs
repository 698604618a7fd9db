//! Pointer resolution and field extraction over parsed documents.

use jvl::json::{extract_schema_field, offset_to_pointer, AstMember, JsonAst, JsonMember, JsonValue, Span};
use jvl::text::compute_line_starts;

fn parse_opts() -> jsonc_parser::ParseOptions {
    let mut o = jsonc_parser::ParseOptions::default();
    o.allow_loose_object_property_names = false;
    o.allow_single_quoted_strings = false;
    o.allow_hexadecimal_numbers = false;
    o.allow_missing_commas = false;
    o.allow_unary_plus_numbers = false;
    o.allow_bare_decimal_point_numbers = false;
    o.allow_non_finite_numbers = false;
    o.allow_extended_string_escapes = false;
    o
}

fn conv_ast(v: &jsonc_parser::ast::Value) -> JsonAst {
    let r = jsonc_parser::common::Ranged::range(v);
    let span = Span { start: r.start, end: r.end };
    match v {
        jsonc_parser::ast::Value::Object(o) => JsonAst::Object {
            span,
            members: o
                .properties
                .iter()
                .map(|p| {
                    let kr = jsonc_parser::common::Ranged::range(&p.name);
                    AstMember {
                        key: p.name.as_str().as_bytes().to_vec(),
                        key_span: Span { start: kr.start, end: kr.end },
                        value: conv_ast(&p.value),
                    }
                })
                .collect(),
        },
        jsonc_parser::ast::Value::Array(a) => JsonAst::Array {
            span,
            elements: a.elements.iter().map(conv_ast).collect(),
        },
        _ => JsonAst::Leaf { span },
    }
}

fn parse_ast(source: &str) -> JsonAst {
    let res = jsonc_parser::parse_to_ast(source, &Default::default(), &parse_opts()).unwrap();
    conv_ast(&res.value.unwrap())
}

#[test]
fn test_offset_to_pointer_on_key() {
    let source = r#"{"name": "value"}"#;
    let ast = parse_ast(source);
    // "name" starts at byte 1 (the opening quote)
    let result = offset_to_pointer(&ast, 1);
    assert!(result.is_some());
    let (pointer, _range) = result.unwrap();
    assert_eq!(pointer, vec![b"name".to_vec()]);
}

#[test]
fn test_offset_to_pointer_on_value() {
    let source = r#"{"name": "value"}"#;
    let ast = parse_ast(source);
    // "value" starts at byte 9 (the opening quote of the value)
    let result = offset_to_pointer(&ast, 9);
    assert!(result.is_some());
    let (pointer, _range) = result.unwrap();
    assert_eq!(pointer, vec![b"name".to_vec()]);
}

#[test]
fn test_offset_to_pointer_nested() {
    let source = r#"{"a": {"b": 42}}"#;
    let ast = parse_ast(source);
    let offset = source.find("42").unwrap();
    let result = offset_to_pointer(&ast, offset);
    assert!(result.is_some());
    let (pointer, _range) = result.unwrap();
    assert_eq!(pointer, vec![b"a".to_vec(), b"b".to_vec()]);
}

#[test]
fn test_offset_to_pointer_on_structural_token() {
    let source = r#"{"name": "value"}"#;
    let ast = parse_ast(source);
    // Offset 0 is the opening brace `{`
    let result = offset_to_pointer(&ast, 0);
    assert!(result.is_none());
}

#[test]
fn test_offset_to_pointer_array_element() {
    let source = r#"{"items": [1, 2, 3]}"#;
    let ast = parse_ast(source);
    let offset = source.find(", 2").unwrap() + 2;
    let result = offset_to_pointer(&ast, offset);
    assert!(result.is_some());
    let (pointer, _range) = result.unwrap();
    assert_eq!(pointer, vec![b"items".to_vec(), b"1".to_vec()]);
}

#[test]
fn test_offset_to_pointer_out_of_range() {
    let source = r#"{"key": "val"}"#;
    let ast = parse_ast(source);
    let result = offset_to_pointer(&ast, 999);
    assert!(result.is_none());
}

#[test]
fn test_offset_to_line_col() {
    let source = "abc\ndef\nghi";
    let line_starts = compute_line_starts(source.as_bytes());
    assert_eq!(line_starts, vec![0, 4, 8]);
}

#[test]
fn test_extract_schema_field() {
    let v = JsonValue::Object(vec![
        JsonMember {
            key: b"$schema".to_vec(),
            value: JsonValue::Text(b"https://example.com/schema.json".to_vec()),
        },
        JsonMember { key: b"key".to_vec(), value: JsonValue::Text(b"val".to_vec()) },
    ]);
    assert_eq!(
        extract_schema_field(&v),
        Some(b"https://example.com/schema.json".to_vec())
    );
}

#[test]
fn test_extract_schema_field_missing() {
    let v = JsonValue::Object(vec![JsonMember {
        key: b"key".to_vec(),
        value: JsonValue::Text(b"val".to_vec()),
    }]);
    assert_eq!(extract_schema_field(&v), None);
}

#[test]
fn resolve_pointer_finds_value_and_key_spans() {
    let source = r#"{"outer": {"inner": [10, 20]}}"#;
    let ast = parse_ast(source);
    let path = vec![
        jvl::json::PathSeg::Key(b"outer".to_vec()),
        jvl::json::PathSeg::Key(b"inner".to_vec()),
        jvl::json::PathSeg::Index(1),
    ];
    let span = jvl::json::resolve_pointer(&ast, &path).unwrap();
    assert_eq!(&source[span.start..span.end], "20");

    let key_path = vec![
        jvl::json::PathSeg::Key(b"outer".to_vec()),
        jvl::json::PathSeg::Key(b"inner".to_vec()),
    ];
    let key_span = jvl::json::resolve_pointer_key(&ast, &key_path).unwrap();
    assert_eq!(&source[key_span.start..key_span.end], "\"inner\"");
}

#[test]
fn resolve_pointer_missing_segment_is_not_an_error() {
    let source = r#"{"a": [1]}"#;
    let ast = parse_ast(source);
    let path = vec![jvl::json::PathSeg::Key(b"a".to_vec()), jvl::json::PathSeg::Index(7)];
    assert!(jvl::json::resolve_pointer(&ast, &path).is_none());
}
