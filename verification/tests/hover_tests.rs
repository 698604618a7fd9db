//! Hover annotations and completion suggestions drawn from raw schemas.

use jvl::json::{JsonMember, JsonValue};
use jvl::schemawalk::{
    collect_properties, collect_values, lookup_hover_content, resolve_subschema_at_pointer,
    ValueSuggestion,
};

fn conv(v: &serde_json::Value) -> JsonValue {
    match v {
        serde_json::Value::Null => JsonValue::Null,
        serde_json::Value::Bool(b) => JsonValue::Bool(*b),
        serde_json::Value::Number(n) => JsonValue::Number(n.to_string().into_bytes()),
        serde_json::Value::String(s) => JsonValue::Text(s.as_bytes().to_vec()),
        serde_json::Value::Array(vs) => JsonValue::Array(vs.iter().map(conv).collect()),
        serde_json::Value::Object(ms) => JsonValue::Object(
            ms.iter()
                .map(|(k, v)| JsonMember { key: k.as_bytes().to_vec(), value: conv(v) })
                .collect(),
        ),
    }
}

fn schema_of(text: &str) -> JsonValue {
    conv(&serde_json::from_str::<serde_json::Value>(text).unwrap())
}

fn ptr(segments: Vec<&str>) -> Vec<Vec<u8>> {
    segments.into_iter().map(|s| s.as_bytes().to_vec()).collect()
}

fn text_member_of<'a>(v: &'a JsonValue, key: &str) -> Option<&'a [u8]> {
    if let JsonValue::Object(members) = v {
        for m in members {
            if m.key == key.as_bytes() {
                if let JsonValue::Text(t) = &m.value {
                    return Some(t.as_slice());
                }
            }
        }
    }
    None
}

#[test]
fn hover_simple_property() {
    let schema = schema_of(
        r#"{"properties": {"name": {"title": "Name", "description": "The user's name"}}}"#,
    );
    let result = lookup_hover_content(&schema, &ptr(vec!["name"]));
    assert_eq!(result, Some(b"**Name**\n\nThe user's name".to_vec()));
}

#[test]
fn hover_nested_property() {
    let schema = schema_of(
        r#"{"properties": {"server": {"properties": {"host": {"title": "Host", "description": "Server hostname"}}}}}"#,
    );
    let result = lookup_hover_content(&schema, &ptr(vec!["server", "host"]));
    assert_eq!(result, Some(b"**Host**\n\nServer hostname".to_vec()));
}

#[test]
fn hover_ref_resolution() {
    let schema = schema_of(
        r##"{"$defs": {"Address": {"title": "Address", "description": "A postal address"}},
            "properties": {"home": {"$ref": "#/$defs/Address"}}}"##,
    );
    let result = lookup_hover_content(&schema, &ptr(vec!["home"]));
    assert_eq!(result, Some(b"**Address**\n\nA postal address".to_vec()));
}

#[test]
fn hover_ref_cycle_returns_none() {
    let schema = schema_of(
        r##"{"$defs": {"A": {"$ref": "#/$defs/B"}, "B": {"$ref": "#/$defs/A"}},
            "properties": {"x": {"$ref": "#/$defs/A"}}}"##,
    );
    let result = lookup_hover_content(&schema, &ptr(vec!["x"]));
    assert!(result.is_none());
}

#[test]
fn hover_external_ref_ignored() {
    let schema = schema_of(
        r#"{"properties": {"x": {"$ref": "https://evil.example.com/schema", "title": "Fallback"}}}"#,
    );
    // External $ref is ignored; sibling title is shown.
    let result = lookup_hover_content(&schema, &ptr(vec!["x"]));
    assert_eq!(result, Some(b"**Fallback**".to_vec()));
}

#[test]
fn hover_no_annotation_returns_none() {
    let schema = schema_of(r#"{"properties": {"count": {"type": "number"}}}"#);
    let result = lookup_hover_content(&schema, &ptr(vec!["count"]));
    assert!(result.is_none());
}

#[test]
fn hover_title_only() {
    let schema = schema_of(r#"{"properties": {"x": {"title": "Just a title"}}}"#);
    let result = lookup_hover_content(&schema, &ptr(vec!["x"]));
    assert_eq!(result, Some(b"**Just a title**".to_vec()));
}

#[test]
fn hover_description_only() {
    let schema = schema_of(r#"{"properties": {"x": {"description": "Just a description"}}}"#);
    let result = lookup_hover_content(&schema, &ptr(vec!["x"]));
    assert_eq!(result, Some(b"Just a description".to_vec()));
}

#[test]
fn hover_items_array() {
    let schema = schema_of(
        r#"{"properties": {"tags": {"items": {"title": "Tag", "description": "A tag string"}}}}"#,
    );
    let result = lookup_hover_content(&schema, &ptr(vec!["tags", "0"]));
    assert_eq!(result, Some(b"**Tag**\n\nA tag string".to_vec()));
}

#[test]
fn hover_prefix_items() {
    let schema = schema_of(
        r#"{"properties": {"coords": {"prefixItems": [
            {"title": "X", "description": "X coordinate"},
            {"title": "Y", "description": "Y coordinate"}]}}}"#,
    );
    let result = lookup_hover_content(&schema, &ptr(vec!["coords", "1"]));
    assert_eq!(result, Some(b"**Y**\n\nY coordinate".to_vec()));
}

#[test]
fn hover_allof_property() {
    let schema = schema_of(
        r#"{"allOf": [
            {"properties": {"name": {"title": "Name", "description": "User name"}}},
            {"properties": {"age": {"title": "Age", "description": "User age"}}}]}"#,
    );
    // Property defined in first allOf branch.
    let result = lookup_hover_content(&schema, &ptr(vec!["name"]));
    assert_eq!(result, Some(b"**Name**\n\nUser name".to_vec()));
    // Property defined in second allOf branch.
    let result = lookup_hover_content(&schema, &ptr(vec!["age"]));
    assert_eq!(result, Some(b"**Age**\n\nUser age".to_vec()));
}

#[test]
fn hover_allof_nested() {
    let schema = schema_of(
        r#"{"properties": {"server": {"allOf": [
            {"properties": {"host": {"title": "Host", "description": "Server hostname"}}}]}}}"#,
    );
    let result = lookup_hover_content(&schema, &ptr(vec!["server", "host"]));
    assert_eq!(result, Some(b"**Host**\n\nServer hostname".to_vec()));
}

#[test]
fn resolve_subschema_at_pointer_basic() {
    let schema = schema_of(r#"{"properties": {"name": {"type": "string", "title": "Name"}}}"#);
    let result = resolve_subschema_at_pointer(&schema, &ptr(vec!["name"]));
    assert!(result.is_some());
    assert_eq!(text_member_of(result.unwrap(), "title"), Some(b"Name".as_slice()));
}

#[test]
fn resolve_subschema_at_pointer_empty() {
    let schema = schema_of(r#"{"type": "object"}"#);
    let result = resolve_subschema_at_pointer(&schema, &ptr(vec![]));
    assert!(result.is_some());
    assert_eq!(text_member_of(result.unwrap(), "type"), Some(b"object".as_slice()));
}

#[test]
fn collect_properties_flat() {
    let schema = schema_of(
        r#"{"properties": {"name": {"type": "string", "description": "User name"},
                            "age": {"type": "number"}},
            "required": ["name"]}"#,
    );
    let props = collect_properties(&schema, &ptr(vec![]));
    assert_eq!(props.len(), 2);
    let name_prop = props.iter().find(|p| p.name == b"name".to_vec()).unwrap();
    assert!(name_prop.required);
    assert_eq!(name_prop.schema_type.as_deref(), Some(b"string".as_slice()));
    assert_eq!(name_prop.description.as_deref(), Some(b"User name".as_slice()));
    let age_prop = props.iter().find(|p| p.name == b"age".to_vec()).unwrap();
    assert!(!age_prop.required);
}

#[test]
fn collect_properties_allof_merge() {
    let schema = schema_of(
        r#"{"allOf": [
            {"properties": {"name": {"type": "string"}}, "required": ["name"]},
            {"properties": {"age": {"type": "number"}}}]}"#,
    );
    let props = collect_properties(&schema, &ptr(vec![]));
    assert_eq!(props.len(), 2);
    let name_prop = props.iter().find(|p| p.name == b"name".to_vec()).unwrap();
    assert!(name_prop.required);
}

#[test]
fn collect_properties_with_ref() {
    let schema = schema_of(
        r##"{"$defs": {"Address": {"properties": {"street": {"type": "string", "title": "Street"}}}},
            "properties": {"home": {"$ref": "#/$defs/Address"}}}"##,
    );
    let props = collect_properties(&schema, &ptr(vec!["home"]));
    assert_eq!(props.len(), 1);
    assert_eq!(props[0].name, b"street".to_vec());
}

#[test]
fn collect_properties_nested() {
    let schema = schema_of(
        r#"{"properties": {"server": {"properties": {"host": {"type": "string"},
                                                      "port": {"type": "number"}}}}}"#,
    );
    let props = collect_properties(&schema, &ptr(vec!["server"]));
    assert_eq!(props.len(), 2);
}

#[test]
fn collect_properties_empty_for_non_object() {
    let schema = schema_of(r#"{"type": "string"}"#);
    let props = collect_properties(&schema, &ptr(vec![]));
    assert!(props.is_empty());
}

#[test]
fn collect_values_enum() {
    let schema = schema_of(r#"{"properties": {"mode": {"enum": ["dark", "light", "auto"]}}}"#);
    let values = collect_values(&schema, &ptr(vec![]), &b"mode".to_vec());
    assert_eq!(values.len(), 3);
    assert!(matches!(&values[0], ValueSuggestion::EnumChoice(JsonValue::Text(t)) if t == &b"dark".to_vec()));
}

#[test]
fn collect_values_const() {
    let schema = schema_of(r#"{"properties": {"version": {"const": 2}}}"#);
    let values = collect_values(&schema, &ptr(vec![]), &b"version".to_vec());
    assert_eq!(values.len(), 1);
    assert!(matches!(&values[0], ValueSuggestion::ConstValue(JsonValue::Number(n)) if n == &b"2".to_vec()));
}

#[test]
fn collect_values_boolean() {
    let schema = schema_of(r#"{"properties": {"enabled": {"type": "boolean"}}}"#);
    let values = collect_values(&schema, &ptr(vec![]), &b"enabled".to_vec());
    assert_eq!(values.len(), 1);
    assert!(matches!(&values[0], ValueSuggestion::BooleanToggle));
}

#[test]
fn collect_values_no_suggestions() {
    let schema = schema_of(r#"{"properties": {"name": {"type": "string"}}}"#);
    let values = collect_values(&schema, &ptr(vec![]), &b"name".to_vec());
    assert!(values.is_empty());
}

#[test]
fn hover_truncate_multibyte_boundary() {
    // Place a 4-byte emoji (U+1F600) right at the 10,000-byte boundary.
    let prefix = "x".repeat(9_999);
    let long_desc = format!("{prefix}\u{1F600}extra");
    let schema = JsonValue::Object(vec![JsonMember {
        key: b"properties".to_vec(),
        value: JsonValue::Object(vec![JsonMember {
            key: b"x".to_vec(),
            value: JsonValue::Object(vec![JsonMember {
                key: b"description".to_vec(),
                value: JsonValue::Text(long_desc.into_bytes()),
            }]),
        }]),
    }]);
    // Must not panic, and must produce valid truncated output.
    let result = lookup_hover_content(&schema, &ptr(vec!["x"])).unwrap();
    assert!(result.ends_with(b"..."));
    // The emoji straddles byte 10,000, so it should be excluded.
    let emoji = "\u{1F600}".as_bytes();
    assert!(!result.windows(emoji.len()).any(|w| w == emoji));
}
