//! Cursor-context classification for completion.

use jvl::scan::{completion_context, CompletionContext};

fn key_ctx(pointer: Vec<&str>) -> CompletionContext {
    CompletionContext::PropertyKey {
        pointer: pointer.into_iter().map(|s| s.as_bytes().to_vec()).collect(),
    }
}

fn value_ctx(name: &str, pointer: Vec<&str>) -> CompletionContext {
    CompletionContext::PropertyValue {
        property_name: name.as_bytes().to_vec(),
        pointer: pointer.into_iter().map(|s| s.as_bytes().to_vec()).collect(),
    }
}

#[test]
fn completion_context_empty_object() {
    let source = "{}";
    let result = completion_context(source.as_bytes(), 1);
    assert_eq!(result, Some(key_ctx(vec![])));
}

#[test]
fn completion_context_after_comma() {
    let source = r#"{"a": 1, }"#;
    let result = completion_context(source.as_bytes(), 9);
    assert_eq!(result, Some(key_ctx(vec![])));
}

#[test]
fn completion_context_after_colon() {
    let source = r#"{"name": }"#;
    let result = completion_context(source.as_bytes(), 9);
    assert_eq!(result, Some(value_ctx("name", vec![])));
}

#[test]
fn completion_context_inside_key_string() {
    let source = r#"{"na"#;
    let result = completion_context(source.as_bytes(), 3);
    assert_eq!(result, Some(key_ctx(vec![])));
}

#[test]
fn completion_context_inside_value_string() {
    let source = r#"{"name": "Al"#;
    let result = completion_context(source.as_bytes(), 11);
    assert_eq!(result, Some(value_ctx("name", vec![])));
}

#[test]
fn completion_context_nested_object() {
    let source = r#"{"server": {}}"#;
    let result = completion_context(source.as_bytes(), 12);
    assert_eq!(result, Some(key_ctx(vec!["server"])));
}

#[test]
fn completion_context_nested_value() {
    let source = r#"{"server": {"host": }}"#;
    let result = completion_context(source.as_bytes(), 20);
    assert_eq!(result, Some(value_ctx("host", vec!["server"])));
}

#[test]
fn completion_context_inside_comment() {
    let source = "{ // |\n}";
    let result = completion_context(source.as_bytes(), 5);
    assert!(result.is_none());
}

#[test]
fn completion_context_inside_block_comment() {
    let source = "{ /* | */ }";
    let result = completion_context(source.as_bytes(), 5);
    assert!(result.is_none());
}

#[test]
fn completion_context_document_root() {
    let source = "  ";
    let result = completion_context(source.as_bytes(), 1);
    assert!(result.is_none());
}

#[test]
fn completion_context_just_open_brace() {
    let source = "{";
    let result = completion_context(source.as_bytes(), 1);
    assert_eq!(result, Some(key_ctx(vec![])));
}

#[test]
fn completion_context_after_colon_no_value() {
    let source = r#"{"name":"#;
    let result = completion_context(source.as_bytes(), 8);
    assert_eq!(result, Some(value_ctx("name", vec![])));
}
