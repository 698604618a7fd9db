//! The compiled-schema cache and end-to-end validation through the engine.

use jvl::cache::{CacheOutcome, PreparedSchema, SchemaCache, SchemaError};
use jvl::diagnostic::Warning;
use jvl::engine::{compile_schema, run_validator};
use jvl::json::{AstMember, JsonAst, JsonMember, JsonValue, Span};
use jvl::source::SchemaSource;
use jvl::text::compute_line_starts;
use jvl::validate::{validate_file, ParsedDoc};

fn parse_opts() -> jsonc_parser::ParseOptions {
    let mut o = jsonc_parser::ParseOptions::default();
    o.allow_loose_object_property_names = false;
    o.allow_single_quoted_strings = false;
    o.allow_hexadecimal_numbers = false;
    o.allow_missing_commas = false;
    o.allow_unary_plus_numbers = false;
    o.allow_bare_decimal_point_numbers = false;
    o.allow_non_finite_numbers = false;
    o.allow_extended_string_escapes = false;
    o
}

fn conv_ast(v: &jsonc_parser::ast::Value) -> JsonAst {
    let r = jsonc_parser::common::Ranged::range(v);
    let span = Span { start: r.start, end: r.end };
    match v {
        jsonc_parser::ast::Value::Object(o) => JsonAst::Object {
            span,
            members: o
                .properties
                .iter()
                .map(|p| {
                    let kr = jsonc_parser::common::Ranged::range(&p.name);
                    AstMember {
                        key: p.name.as_str().as_bytes().to_vec(),
                        key_span: Span { start: kr.start, end: kr.end },
                        value: conv_ast(&p.value),
                    }
                })
                .collect(),
        },
        jsonc_parser::ast::Value::Array(a) => JsonAst::Array {
            span,
            elements: a.elements.iter().map(conv_ast).collect(),
        },
        _ => JsonAst::Leaf { span },
    }
}

fn conv_value(v: &jsonc_parser::ast::Value) -> JsonValue {
    match v {
        jsonc_parser::ast::Value::StringLit(s) => JsonValue::Text(s.value.as_bytes().to_vec()),
        jsonc_parser::ast::Value::NumberLit(n) => JsonValue::Number(n.value.as_bytes().to_vec()),
        jsonc_parser::ast::Value::BooleanLit(b) => JsonValue::Bool(b.value),
        jsonc_parser::ast::Value::NullKeyword(_) => JsonValue::Null,
        jsonc_parser::ast::Value::Array(a) => JsonValue::Array(a.elements.iter().map(conv_value).collect()),
        jsonc_parser::ast::Value::Object(o) => JsonValue::Object(
            o.properties
                .iter()
                .map(|p| JsonMember {
                    key: p.name.as_str().as_bytes().to_vec(),
                    value: conv_value(&p.value),
                })
                .collect(),
        ),
    }
}

fn parse_doc(source: &str) -> ParsedDoc {
    let res = jsonc_parser::parse_to_ast(source, &Default::default(), &parse_opts()).unwrap();
    let ast = res.value.unwrap();
    ParsedDoc {
        ast: conv_ast(&ast),
        value: conv_value(&ast),
        doc: serde_json::from_str(source).unwrap(),
    }
}

fn prepared_ok(schema_text: &str) -> PreparedSchema {
    let schema: serde_json::Value = serde_json::from_str(schema_text).unwrap();
    PreparedSchema {
        compiled: Ok(compile_schema(&schema).unwrap()),
        schema_value: None,
        warnings: Vec::new(),
        outcome: None,
    }
}

#[test]
fn evict_nonexistent_returns_false() {
    let mut cache = SchemaCache::new();
    let source = SchemaSource::file(b"/nonexistent/schema.json");
    assert!(!cache.evict(&source));
}

#[test]
fn differently_spelled_paths_share_one_slot() {
    // Same file spelled with and without a `./` segment: one cache key, one
    // compilation. Only the caller that compiled sees warnings and outcome.
    let mut cache = SchemaCache::new();
    let spelled1 = SchemaSource::file(b"/tmp/demo/./schema.json");
    let spelled2 = SchemaSource::file(b"/tmp/demo/schema.json");
    assert!(spelled1.same(&spelled2));

    let mut prep = prepared_ok(r#"{"type": "object"}"#);
    prep.warnings.push(Warning {
        code: b"cache(stale)".to_vec(),
        message: b"stale entry served".to_vec(),
    });
    prep.outcome = Some(CacheOutcome::Miss);

    {
        let (r1, w1, o1) = cache.get_or_compile(&spelled1, Some(prep));
        assert!(r1.is_ok());
        assert_eq!(w1.len(), 1);
        assert_eq!(o1, Some(CacheOutcome::Miss));
    }

    // The other spelling is already cached: no recompilation, no warnings,
    // no cache outcome for the second caller.
    assert!(cache.contains(&spelled2));
    {
        let (r2, w2, o2) = cache.get_or_compile(&spelled2, None);
        assert!(r2.is_ok());
        assert!(w2.is_empty());
        assert_eq!(o2, None);
    }
}

#[test]
fn evict_then_recompile_reflects_new_schema() {
    // A slot is terminal until evicted; after eviction the newly prepared
    // schema decides, so validation reflects the new content, not the old.
    let mut cache = SchemaCache::new();
    let source = SchemaSource::file(b"/tmp/demo/schema.json");
    let doc: serde_json::Value = serde_json::from_str(r#"{"name": "alice"}"#).unwrap();

    let requires_name =
        r#"{"type":"object","properties":{"name":{"type":"string"}},"required":["name"]}"#;
    {
        let (r1, _, _) = cache.get_or_compile(&source, Some(prepared_ok(requires_name)));
        assert!(run_validator(r1.unwrap(), &doc).is_empty());
    }

    // Without eviction the old validator stays in force.
    {
        let (r_stale, _, _) = cache.get_or_compile(&source, None);
        assert!(run_validator(r_stale.unwrap(), &doc).is_empty());
    }

    assert!(cache.evict(&source));
    let requires_count =
        r#"{"type":"object","properties":{"count":{"type":"number"}},"required":["count"]}"#;
    {
        let (r2, _, _) = cache.get_or_compile(&source, Some(prepared_ok(requires_count)));
        let violations = run_validator(r2.unwrap(), &doc);
        assert!(!violations.is_empty());
    }

    let new_doc: serde_json::Value = serde_json::from_str(r#"{"count": 42}"#).unwrap();
    {
        let (r3, _, _) = cache.get_or_compile(&source, None);
        assert!(run_validator(r3.unwrap(), &new_doc).is_empty());
    }
}

#[test]
fn type_violation_is_anchored_to_the_offending_token() {
    let source = r#"{"name": "x", "port": "not-a-number"}"#;
    let schema =
        r#"{"type":"object","properties":{"name":{"type":"string"},"port":{"type":"number"}}}"#;
    let starts = compute_line_starts(source.as_bytes());
    let mut cache = SchemaCache::new();
    let override_src = SchemaSource::file(b"/schemas/simple.json");
    let (result, _, _) = validate_file(
        b"doc.json",
        &starts,
        Ok(parse_doc(source)),
        Some(&override_src),
        false,
        &mut cache,
        Some(prepared_ok(schema)),
        false,
    );
    assert!(!result.valid);
    assert!(!result.tool_error);
    assert_eq!(result.errors.len(), 1);
    let d = &result.errors[0];
    assert_eq!(d.code, b"schema(type)".to_vec());
    let span = d.span.unwrap();
    let token_start = source.find("\"not-a-number\"").unwrap();
    assert_eq!(span.start, token_start);
    assert_eq!(span.end, token_start + "\"not-a-number\"".len());
}

#[test]
fn missing_required_properties_anchor_at_the_root_object() {
    let source = "{}";
    let schema = r#"{"type":"object","required":["name","port"]}"#;
    let starts = compute_line_starts(source.as_bytes());
    let mut cache = SchemaCache::new();
    let override_src = SchemaSource::file(b"/schemas/simple.json");
    let (result, _, _) = validate_file(
        b"doc.json",
        &starts,
        Ok(parse_doc(source)),
        Some(&override_src),
        false,
        &mut cache,
        Some(prepared_ok(schema)),
        false,
    );
    assert!(!result.valid);
    assert_eq!(result.errors.len(), 2);
    for d in &result.errors {
        assert_eq!(d.code, b"schema(required)".to_vec());
        let span = d.span.unwrap();
        assert_eq!((span.start, span.end), (0, 2));
    }
}

#[test]
fn each_unexpected_property_gets_its_own_key_anchored_diagnostic() {
    let source = r#"{"alpha": 1, "beta": 2}"#;
    let schema = r#"{"type":"object","properties":{},"additionalProperties":false}"#;
    let starts = compute_line_starts(source.as_bytes());
    let mut cache = SchemaCache::new();
    let override_src = SchemaSource::file(b"/schemas/strict.json");
    let (result, _, _) = validate_file(
        b"doc.json",
        &starts,
        Ok(parse_doc(source)),
        Some(&override_src),
        false,
        &mut cache,
        Some(prepared_ok(schema)),
        false,
    );
    assert!(!result.valid);
    assert_eq!(result.errors.len(), 2);
    let mut spans: Vec<(usize, usize)> = result
        .errors
        .iter()
        .map(|d| {
            let s = d.span.unwrap();
            (s.start, s.end)
        })
        .collect();
    spans.sort();
    let a = source.find("\"alpha\"").unwrap();
    let b = source.find("\"beta\"").unwrap();
    assert_eq!(spans, vec![(a, a + 7), (b, b + 6)]);
    for d in &result.errors {
        assert!(d.message.ends_with(b"' is not allowed"));
        assert_eq!(d.label.as_deref(), Some(b"unexpected property".as_slice()));
    }
}

#[test]
fn one_of_failure_modes_get_distinct_wording() {
    // The two ways a oneOf can fail share a keyword but not a wording: a
    // value matching several branches is told so, one matching none gets
    // the no-match label.
    let schema = r#"{"oneOf":[{"type":"integer"},{"minimum":0}]}"#;
    let override_src = SchemaSource::file(b"/schemas/oneof.json");

    let multi_source = "5";
    let starts = compute_line_starts(multi_source.as_bytes());
    let mut cache = SchemaCache::new();
    let (result, _, _) = validate_file(
        b"doc.json",
        &starts,
        Ok(parse_doc(multi_source)),
        Some(&override_src),
        false,
        &mut cache,
        Some(prepared_ok(schema)),
        false,
    );
    assert!(!result.valid);
    assert_eq!(result.errors.len(), 1);
    let d = &result.errors[0];
    assert_eq!(d.code, b"schema(oneOf)".to_vec());
    assert_eq!(d.label.as_deref(), Some(b"multiple schemas matched".as_slice()));
    assert_eq!(
        d.help.as_deref(),
        Some(b"The value must match exactly one schema, but it matches multiple.".as_slice())
    );

    let none_schema = r#"{"oneOf":[{"type":"integer"},{"type":"boolean"}]}"#;
    let none_source = r#""text""#;
    let starts = compute_line_starts(none_source.as_bytes());
    let mut cache = SchemaCache::new();
    let (result, _, _) = validate_file(
        b"doc.json",
        &starts,
        Ok(parse_doc(none_source)),
        Some(&override_src),
        false,
        &mut cache,
        Some(prepared_ok(none_schema)),
        false,
    );
    assert!(!result.valid);
    assert_eq!(result.errors.len(), 1);
    let d = &result.errors[0];
    assert_eq!(d.code, b"schema(oneOf)".to_vec());
    assert_eq!(d.label.as_deref(), Some(b"no matching schema".as_slice()));
    assert_eq!(
        d.help.as_deref(),
        Some(b"The value must match exactly one of the listed schemas.".as_slice())
    );
}

#[test]
fn unloadable_schema_anchors_at_the_schema_member() {
    let source = r#"{"$schema": "./nope.json", "x": 1}"#;
    let starts = compute_line_starts(source.as_bytes());
    let mut cache = SchemaCache::new();
    let parsed = parse_doc(source);
    let effective = jvl::validate::choose_schema_source(None, &parsed.value, b"doc.json", None)
        .unwrap();
    let prepared = jvl::validate::prepare_schema(
        &effective,
        Err(SchemaError::FileRead {
            path: b"nope.json".to_vec(),
            reason: b"no such file".to_vec(),
        }),
        None,
    );
    let (result, _, _) = validate_file(
        b"doc.json",
        &starts,
        Ok(parsed),
        Some(&effective),
        true,
        &mut cache,
        Some(prepared),
        false,
    );
    assert!(result.tool_error);
    assert_eq!(result.errors.len(), 1);
    let d = &result.errors[0];
    assert_eq!(d.code, b"schema(load)".to_vec());
    let span = d.span.unwrap();
    let value_start = source.find("\"./nope.json\"").unwrap();
    assert_eq!(span.start, value_start);
    assert_eq!(span.end, value_start + "\"./nope.json\"".len());
    // The location is already shown by the span; the message is the reason.
    assert_eq!(d.message, b"no such file".to_vec());
    assert_eq!(d.label.as_deref(), Some(b"schema referenced here".as_slice()));
}

#[test]
fn unloadable_override_schema_is_unanchored() {
    let source = r#"{"x": 1}"#;
    let starts = compute_line_starts(source.as_bytes());
    let mut cache = SchemaCache::new();
    let override_src = SchemaSource::file(b"/schemas/gone.json");
    let prepared = jvl::validate::prepare_schema(
        &override_src,
        Err(SchemaError::FileRead {
            path: b"/schemas/gone.json".to_vec(),
            reason: b"no such file".to_vec(),
        }),
        None,
    );
    let (result, _, _) = validate_file(
        b"doc.json",
        &starts,
        Ok(parse_doc(source)),
        Some(&override_src),
        false,
        &mut cache,
        Some(prepared),
        false,
    );
    assert!(result.tool_error);
    assert_eq!(result.errors.len(), 1);
    let d = &result.errors[0];
    assert!(d.span.is_none());
    assert_eq!(
        d.message,
        b"Failed to read schema file '/schemas/gone.json': no such file".to_vec()
    );
    assert!(d.label.is_none());
}

#[test]
fn missing_schema_skips_or_fails_by_strictness() {
    let source = r#"{"x": 1}"#;
    let starts = compute_line_starts(source.as_bytes());
    let mut cache = SchemaCache::new();
    let (lenient, _, _) = validate_file(
        b"doc.json",
        &starts,
        Ok(parse_doc(source)),
        None,
        false,
        &mut cache,
        None,
        false,
    );
    assert!(lenient.skipped);
    assert!(lenient.valid);

    let (strict, _, _) = validate_file(
        b"doc.json",
        &starts,
        Ok(parse_doc(source)),
        None,
        false,
        &mut cache,
        None,
        true,
    );
    assert!(!strict.skipped);
    assert!(!strict.valid);
    assert!(!strict.tool_error);
    assert_eq!(strict.errors.len(), 1);
    assert_eq!(strict.errors[0].code, b"no-schema".to_vec());
    assert_eq!(strict.errors[0].message, b"no schema found".to_vec());
}

#[test]
fn parse_failure_becomes_a_syntax_diagnostic() {
    let source = "{ broken";
    let starts = compute_line_starts(source.as_bytes());
    let mut cache = SchemaCache::new();
    let errs = vec![jvl::validate::ParseError {
        message: b"unexpected token".to_vec(),
        range: Some(Span { start: 2, end: 8 }),
    }];
    let (result, warnings, outcome) = validate_file(
        b"doc.json",
        &starts,
        Err(errs),
        None,
        false,
        &mut cache,
        None,
        false,
    );
    assert!(!result.valid);
    assert!(!result.tool_error);
    assert_eq!(result.errors.len(), 1);
    assert_eq!(result.errors[0].code, b"parse(syntax)".to_vec());
    assert_eq!(result.errors[0].label.as_deref(), Some(b"syntax error".as_slice()));
    assert!(warnings.is_empty());
    assert!(outcome.is_none());
}

#[test]
fn clean_document_revalidates_identically() {
    // Validating a clean document twice over a warm cache yields identical
    // (empty) diagnostics both times.
    let source = r#"{"name": "ok"}"#;
    let schema = r#"{"type":"object","properties":{"name":{"type":"string"}}}"#;
    let starts = compute_line_starts(source.as_bytes());
    let mut cache = SchemaCache::new();
    let override_src = SchemaSource::file(b"/schemas/simple.json");
    let (first, _, _) = validate_file(
        b"doc.json",
        &starts,
        Ok(parse_doc(source)),
        Some(&override_src),
        false,
        &mut cache,
        Some(prepared_ok(schema)),
        false,
    );
    let (second, w2, o2) = validate_file(
        b"doc.json",
        &starts,
        Ok(parse_doc(source)),
        Some(&override_src),
        false,
        &mut cache,
        None,
        false,
    );
    assert!(first.valid && second.valid);
    assert!(first.errors.is_empty() && second.errors.is_empty());
    // The second pass found the slot warm: no warnings, no outcome.
    assert!(w2.is_empty());
    assert!(o2.is_none());
}

#[test]
fn schema_value_rides_along_with_the_slot() {
    let mut cache = SchemaCache::new();
    let source = SchemaSource::file(b"/tmp/demo/schema.json");
    let schema_text = r#"{"type": "object"}"#;
    let schema: serde_json::Value = serde_json::from_str(schema_text).unwrap();
    let prepared = PreparedSchema {
        compiled: Ok(compile_schema(&schema).unwrap()),
        schema_value: Some(JsonValue::Object(vec![JsonMember {
            key: b"type".to_vec(),
            value: JsonValue::Text(b"object".to_vec()),
        }])),
        warnings: Vec::new(),
        outcome: None,
    };
    let value = cache.get_or_compile_with_value(&source, Some(prepared)).unwrap();
    match value {
        Some(JsonValue::Object(members)) => {
            assert_eq!(members.len(), 1);
            assert_eq!(members[0].key, b"type".to_vec());
        }
        other => panic!("expected the stored schema value, got {other:?}"),
    }
}

#[test]
fn schema_member_resolves_against_the_document_directory() {
    let value = JsonValue::Object(vec![JsonMember {
        key: b"$schema".to_vec(),
        value: JsonValue::Text(b"../shared/s.json".to_vec()),
    }]);
    let source = jvl::validate::resolve_schema_from_value(&value, b"/proj/cfg/doc.json");
    assert!(matches!(source, Some(SchemaSource::File(p)) if p == b"/proj/shared/s.json".to_vec()));
    let none = jvl::validate::resolve_schema_from_value(
        &JsonValue::Object(vec![]),
        b"/proj/doc.json",
    );
    assert!(none.is_none());
}

#[test]
fn schema_choice_follows_the_precedence_order() {
    // Explicit override first, then the document's own $schema member, then
    // the configured mapping.
    let doc_with_field = JsonValue::Object(vec![JsonMember {
        key: b"$schema".to_vec(),
        value: JsonValue::Text(b"/inline/s.json".to_vec()),
    }]);
    let doc_plain = JsonValue::Object(vec![]);
    let flag = SchemaSource::file(b"/flag/s.json");
    let mapped = SchemaSource::file(b"/mapped/s.json");

    let chose_flag = jvl::validate::choose_schema_source(
        Some(&flag),
        &doc_with_field,
        b"/p/doc.json",
        Some(&mapped),
    )
    .unwrap();
    assert!(chose_flag.same(&flag));

    let chose_field = jvl::validate::choose_schema_source(
        None,
        &doc_with_field,
        b"/p/doc.json",
        Some(&mapped),
    )
    .unwrap();
    assert!(chose_field.same(&SchemaSource::file(b"/inline/s.json")));

    let chose_mapping =
        jvl::validate::choose_schema_source(None, &doc_plain, b"/p/doc.json", Some(&mapped))
            .unwrap();
    assert!(chose_mapping.same(&mapped));

    assert!(jvl::validate::choose_schema_source(None, &doc_plain, b"/p/doc.json", None).is_none());
}
