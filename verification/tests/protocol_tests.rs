//! The disk-cache protocol, session guards, configuration parsing, path
//! normalization and report formatting.

use jvl::cache::CacheOutcome;
use jvl::config::{Config, SchemaMapping};
use jvl::diskcache::{
    cache_entry_names, collect_cache_list, conclude_url_load, is_within_ttl, plan_url_load,
    url_hash, CachedSchemaInfo, LoadPlan,
};
use jvl::json::{JsonMember, JsonValue};
use jvl::report::{exit_code, format_duration, plural, summarize};
use jvl::session::DocumentStore;
use jvl::source::{normalize_lexical, resolve_schema_ref, SchemaSource};

#[test]
fn fresh_entry_plans_a_hit_and_serves_cached_bytes() {
    // A warm disk cache serves the cached bytes verbatim, tagged as a hit,
    // with nothing fetched, stored or warned about.
    assert!(is_within_ttl(1000, 1000 + 24 * 60 * 60 - 1));
    assert!(!is_within_ttl(1000, 1000 + 24 * 60 * 60));
    let plan = plan_url_load(false, true, true);
    assert_eq!(plan, LoadPlan::ServeCached);
    let out = conclude_url_load(plan, b"https://example.com/s.json", Some(b"{}".to_vec()), None)
        .unwrap();
    assert_eq!(out.content, b"{}".to_vec());
    assert_eq!(out.outcome, CacheOutcome::Hit);
    assert!(out.warnings.is_empty());
    assert!(!out.store);
}

#[test]
fn bypass_always_fetches_and_never_stores() {
    let plan = plan_url_load(true, true, true);
    assert_eq!(plan, LoadPlan::NetworkOnly);
    let out = conclude_url_load(
        plan,
        b"https://example.com/s.json",
        None,
        Some(Ok(b"fresh".to_vec())),
    )
    .unwrap();
    assert_eq!(out.content, b"fresh".to_vec());
    assert_eq!(out.outcome, CacheOutcome::Bypassed);
    assert!(!out.store);
}

#[test]
fn stale_entry_refreshes_or_falls_back_with_a_warning() {
    let plan = plan_url_load(false, true, false);
    assert_eq!(plan, LoadPlan::Refresh);

    let refreshed = conclude_url_load(
        plan,
        b"https://example.com/s.json",
        Some(b"old".to_vec()),
        Some(Ok(b"new".to_vec())),
    )
    .unwrap();
    assert_eq!(refreshed.content, b"new".to_vec());
    assert_eq!(refreshed.outcome, CacheOutcome::Stale);
    assert!(refreshed.store);
    assert!(refreshed.warnings.is_empty());

    let fallback = conclude_url_load(
        plan,
        b"https://example.com/s.json",
        Some(b"old".to_vec()),
        Some(Err(jvl::cache::SchemaError::FetchError {
            url: b"https://example.com/s.json".to_vec(),
            reason: b"timed out".to_vec(),
        })),
    )
    .unwrap();
    assert_eq!(fallback.content, b"old".to_vec());
    assert_eq!(fallback.outcome, CacheOutcome::Stale);
    assert!(!fallback.store);
    assert_eq!(fallback.warnings.len(), 1);
    assert_eq!(fallback.warnings[0].code, b"cache(stale)".to_vec());
    assert_eq!(
        fallback.warnings[0].message,
        b"Using stale cached schema for https://example.com/s.json (re-fetch failed)".to_vec()
    );
}

#[test]
fn absent_entry_fetches_and_stores_as_a_miss() {
    let plan = plan_url_load(false, false, false);
    assert_eq!(plan, LoadPlan::FetchAndStore);
    let out = conclude_url_load(plan, b"u", None, Some(Ok(b"body".to_vec()))).unwrap();
    assert_eq!(out.outcome, CacheOutcome::Miss);
    assert!(out.store);
    let failed = conclude_url_load(
        plan,
        b"u",
        None,
        Some(Err(jvl::cache::SchemaError::FetchError {
            url: b"u".to_vec(),
            reason: b"refused".to_vec(),
        })),
    );
    assert!(failed.is_err());
}

#[test]
fn url_hash_is_the_sha256_hex_digest()  {
    assert_eq!(
        url_hash(b""),
        b"e3b0c44298fc1c149afbf4c8996fb92427ae41e4649b934ca495991b7852b855".to_vec()
    );
    assert_eq!(
        url_hash(b"abc"),
        b"ba7816bf8f01cfea414140de5dae2223b00361a396177a9cb410ff61f20015ad".to_vec()
    );
}

#[test]
fn cache_entries_are_named_by_the_url_digest() {
    let (content_name, meta_name) = cache_entry_names(b"abc");
    assert_eq!(
        content_name,
        b"ba7816bf8f01cfea414140de5dae2223b00361a396177a9cb410ff61f20015ad.json".to_vec()
    );
    assert_eq!(
        meta_name,
        b"ba7816bf8f01cfea414140de5dae2223b00361a396177a9cb410ff61f20015ad.meta".to_vec()
    );
}

#[test]
fn corrupt_cache_entries_are_counted_not_dropped() {
    let parsed = vec![
        Some(CachedSchemaInfo {
            url: b"https://a".to_vec(),
            fetched_at: b"2024-01-01T00:00:00Z".to_vec(),
            size: 10,
        }),
        None,
        Some(CachedSchemaInfo {
            url: b"https://b".to_vec(),
            fetched_at: b"2024-01-02T00:00:00Z".to_vec(),
            size: 20,
        }),
        None,
    ];
    let listing = collect_cache_list(parsed);
    assert_eq!(listing.entries.len(), 2);
    assert_eq!(listing.skipped, 2);
    assert_eq!(listing.entries[0].url, b"https://a".to_vec());
    assert_eq!(listing.entries[1].url, b"https://b".to_vec());
}

#[test]
fn rapid_edits_let_only_the_last_version_through() {
    // N edits faster than the debounce window: every earlier task's wake
    // guard fails; only the task spawned for the last version passes, and
    // its snapshot is the last content.
    let mut store = DocumentStore::new();
    let uri = b"file:///tmp/doc.json";
    let mut spawned: Vec<i64> = Vec::new();
    for version in 1..=10i64 {
        let text = format!("{{\"edit\": {version}}}");
        store.upsert(uri, version, text.into_bytes());
        spawned.push(store.spawn_version(uri).unwrap());
    }
    let mut woke = 0;
    for v in &spawned {
        if let Some((version, text)) = store.wake_snapshot(uri, *v) {
            woke += 1;
            assert_eq!(version, 10);
            assert_eq!(text, b"{\"edit\": 10}".to_vec());
            assert!(store.may_publish(uri, version));
        }
    }
    assert_eq!(woke, 1);
}

#[test]
fn closing_a_document_silences_its_pending_task() {
    // A task spawned before the close wakes to nothing: the wake guard and
    // the publish guard both fail once the entry is gone.
    let mut store = DocumentStore::new();
    let uri = b"file:///tmp/doc.json";
    store.upsert(uri, 1, b"{}".to_vec());
    let spawn_version = store.spawn_version(uri).unwrap();
    assert!(store.close(uri));
    assert!(store.wake_snapshot(uri, spawn_version).is_none());
    assert!(!store.may_publish(uri, spawn_version));
    assert!(!store.close(uri));
}

#[test]
fn other_documents_survive_a_close() {
    let mut store = DocumentStore::new();
    store.upsert(b"file:///a.json", 3, b"{\"a\": 1}".to_vec());
    store.upsert(b"file:///b.json", 7, b"{\"b\": 2}".to_vec());
    assert!(store.close(b"file:///a.json"));
    let (version, text) = store.wake_snapshot(b"file:///b.json", 7).unwrap();
    assert_eq!(version, 7);
    assert_eq!(text, b"{\"b\": 2}".to_vec());
    assert_eq!(store.open_uris(), vec![b"file:///b.json".to_vec()]);
}

#[test]
fn config_files_are_recognized_by_basename() {
    assert!(jvl::session::is_config_path(b"jvl.json"));
    assert!(jvl::session::is_config_path(b"/home/user/project/jvl.json"));
    assert!(!jvl::session::is_config_path(b"/home/user/project/other.json"));
    assert!(!jvl::session::is_config_path(b"/home/user/not-jvl.json"));
    assert!(jvl::session::any_config_changed(&vec![
        b"/p/schema.json".to_vec(),
        b"/p/jvl.json".to_vec(),
    ]));
    assert!(!jvl::session::any_config_changed(&vec![b"/p/schema.json".to_vec()]));
}

#[test]
fn lexical_normalization_collapses_dot_segments() {
    assert_eq!(normalize_lexical(b"/a/./b"), b"/a/b".to_vec());
    assert_eq!(normalize_lexical(b"/a/x/../b"), b"/a/b".to_vec());
    assert_eq!(normalize_lexical(b"a//b/"), b"a/b".to_vec());
    assert_eq!(normalize_lexical(b"/.."), b"/".to_vec());
    let s1 = SchemaSource::file(b"/p/./schema.json");
    let s2 = SchemaSource::file(b"/p/schema.json");
    assert!(s1.same(&s2));
}

#[test]
fn schema_refs_resolve_by_kind() {
    let url = resolve_schema_ref(b"https://example.com/s.json", b"/base");
    assert!(matches!(url, SchemaSource::Url(u) if u == b"https://example.com/s.json".to_vec()));
    let absolute = resolve_schema_ref(b"/etc/s.json", b"/base");
    assert!(matches!(absolute, SchemaSource::File(p) if p == b"/etc/s.json".to_vec()));
    let relative = resolve_schema_ref(b"./s.json", b"/base/dir");
    assert!(matches!(relative, SchemaSource::File(p) if p == b"/base/dir/s.json".to_vec()));
}

#[test]
fn config_parsing_accepts_the_documented_shape() {
    let v = JsonValue::Object(vec![
        JsonMember {
            key: b"files".to_vec(),
            value: JsonValue::Array(vec![
                JsonValue::Text(b"**/*.json".to_vec()),
                JsonValue::Text(b"!vendor/**".to_vec()),
            ]),
        },
        JsonMember {
            key: b"schemas".to_vec(),
            value: JsonValue::Array(vec![JsonValue::Object(vec![
                JsonMember {
                    key: b"url".to_vec(),
                    value: JsonValue::Text(b"https://example.com/s.json".to_vec()),
                },
                JsonMember {
                    key: b"files".to_vec(),
                    value: JsonValue::Array(vec![JsonValue::Text(b"*.json".to_vec())]),
                },
            ])]),
        },
        JsonMember { key: b"strict".to_vec(), value: JsonValue::Bool(true) },
    ]);
    let config = Config::from_value(&v).unwrap();
    assert!(config.strict);
    assert_eq!(config.files.len(), 2);
    assert_eq!(config.schemas.len(), 1);
    match &config.schemas[0] {
        SchemaMapping::Url(m) => {
            assert_eq!(m.url, b"https://example.com/s.json".to_vec());
            assert_eq!(m.files, vec![b"*.json".to_vec()]);
        },
        SchemaMapping::Path(_) => panic!("expected a URL mapping"),
    }
}

#[test]
fn config_parsing_rejects_unknown_members_and_bad_shapes() {
    let unknown = JsonValue::Object(vec![JsonMember {
        key: b"surprise".to_vec(),
        value: JsonValue::Bool(true),
    }]);
    assert!(Config::from_value(&unknown).is_none());

    let bad_files = JsonValue::Object(vec![JsonMember {
        key: b"files".to_vec(),
        value: JsonValue::Array(vec![JsonValue::Number(b"3".to_vec())]),
    }]);
    assert!(Config::from_value(&bad_files).is_none());

    let empty_mapping_files = JsonValue::Object(vec![JsonMember {
        key: b"schemas".to_vec(),
        value: JsonValue::Array(vec![JsonValue::Object(vec![
            JsonMember { key: b"path".to_vec(), value: JsonValue::Text(b"s.json".to_vec()) },
            JsonMember { key: b"files".to_vec(), value: JsonValue::Array(vec![]) },
        ])]),
    }]);
    assert!(Config::from_value(&empty_mapping_files).is_none());

    let defaults = Config::from_value(&JsonValue::Object(vec![])).unwrap();
    assert!(!defaults.strict);
    assert_eq!(defaults.files, vec![b"**/*.json".to_vec(), b"**/*.jsonc".to_vec()]);
    assert!(defaults.schemas.is_empty());
}

#[test]
fn ordered_patterns_let_later_rules_override_earlier_ones() {
    let rules = jvl::config::parse_pattern_rules(&vec![
        b"**/*.json".to_vec(),
        b"!vendor/**".to_vec(),
        b"vendor/allow.json".to_vec(),
    ]);
    assert!(!rules[0].exclude);
    assert!(rules[1].exclude);
    assert_eq!(rules[1].glob, b"vendor/**".to_vec());

    // Flags as (exclude, matched) per rule, for three different paths.
    let top = vec![(false, true), (true, false), (false, false)];
    let blocked = vec![(false, true), (true, true), (false, false)];
    let allowed = vec![(false, true), (true, true), (false, true)];
    assert!(jvl::config::ordered_match(&top));
    assert!(!jvl::config::ordered_match(&blocked));
    assert!(jvl::config::ordered_match(&allowed));
}

#[test]
fn first_matching_mapping_wins() {
    let mappings = vec![
        SchemaMapping::Url(jvl::config::SchemaMappingUrl {
            url: b"https://one".to_vec(),
            files: vec![b"a/**".to_vec()],
        }),
        SchemaMapping::Path(jvl::config::SchemaMappingPath {
            path: b"schemas/two.json".to_vec(),
            files: vec![b"**".to_vec()],
        }),
    ];
    let both = vec![true, true];
    let second_only = vec![false, true];
    let neither = vec![false, false];
    let root = b"/proj".to_vec();
    let first = jvl::config::resolve_from_matches(&mappings, &both, &root).unwrap();
    assert!(matches!(first, SchemaSource::Url(u) if u == b"https://one".to_vec()));
    let second = jvl::config::resolve_from_matches(&mappings, &second_only, &root).unwrap();
    assert!(matches!(second, SchemaSource::File(p) if p == b"/proj/schemas/two.json".to_vec()));
    assert!(jvl::config::resolve_from_matches(&mappings, &neither, &root).is_none());
}

#[test]
fn config_candidates_walk_up_to_the_root() {
    let candidates = jvl::config::find_config_file(b"/a/b");
    assert_eq!(
        candidates,
        vec![b"/a/b/jvl.json".to_vec(), b"/a/jvl.json".to_vec(), b"/jvl.json".to_vec()]
    );
}

#[test]
fn summary_counts_and_exit_codes_follow_the_results() {
    let results = vec![
        jvl::diagnostic::FileResult::valid(b"a.json"),
        jvl::diagnostic::FileResult::skipped(b"b.json"),
        jvl::diagnostic::FileResult::invalid(
            b"c.json",
            vec![jvl::diagnostic::FileDiagnostic {
                code: b"schema(type)".to_vec(),
                message: b"bad".to_vec(),
                severity: jvl::diagnostic::Severity::Error,
                span: None,
                location: None,
                label: None,
                help: None,
                schema_path: None,
            }],
        ),
    ];
    let summary = summarize(&results, 0, 1234, 4, false);
    assert_eq!(summary.checked_files, 2);
    assert_eq!(summary.skipped_files, 1);
    assert_eq!(summary.invalid_files, 1);
    assert_eq!(summary.valid_files, 1);
    assert_eq!(summary.total_errors, 1);
    assert!(!summary.has_tool_error);

    assert!(jvl::report::run_is_valid(&summarize(
        &vec![jvl::diagnostic::FileResult::valid(b"a.json")],
        0,
        1,
        1,
        false,
    )));
    assert!(!jvl::report::run_is_valid(&summary));
    assert_eq!(exit_code(false, 0), 0);
    assert_eq!(exit_code(false, 2), 1);
    assert_eq!(exit_code(true, 2), 2);
    assert_eq!(exit_code(true, 0), 2);
}

#[test]
fn durations_and_counts_render_for_humans() {
    assert_eq!(format_duration(1), b"1ms".to_vec());
    assert_eq!(format_duration(999), b"999ms".to_vec());
    assert_eq!(format_duration(1234), b"1.2s".to_vec());
    assert_eq!(format_duration(9940), b"9.9s".to_vec());
    assert_eq!(format_duration(42_499), b"42s".to_vec());
    assert_eq!(plural(1, "file", "files"), b"1 file".to_vec());
    assert_eq!(plural(3, "error", "errors"), b"3 errors".to_vec());
}

#[test]
fn cache_outcomes_name_themselves() {
    assert_eq!(CacheOutcome::Hit.as_str(), "hit");
    assert_eq!(CacheOutcome::Miss.as_str(), "miss");
    assert_eq!(CacheOutcome::Stale.as_str(), "stale");
    assert_eq!(CacheOutcome::Bypassed.as_str(), "bypassed");
}

#[test]
fn schema_errors_expose_reason_and_full_message() {
    let e = jvl::cache::SchemaError::FetchError {
        url: b"https://x".to_vec(),
        reason: b"timed out".to_vec(),
    };
    assert_eq!(e.reason(), &b"timed out".to_vec());
    assert_eq!(e.message(), b"Failed to fetch schema from 'https://x': timed out".to_vec());
    let c = jvl::cache::SchemaError::CompileError(b"bad keyword".to_vec());
    assert!(c.is_compile_error());
    assert_eq!(c.message(), b"Failed to compile schema: bad keyword".to_vec());
}

#[test]
fn cache_listings_sort_by_url() {
    let entries = vec![
        CachedSchemaInfo { url: b"https://c".to_vec(), fetched_at: b"t3".to_vec(), size: 3 },
        CachedSchemaInfo { url: b"https://a".to_vec(), fetched_at: b"t1".to_vec(), size: 1 },
        CachedSchemaInfo { url: b"https://b".to_vec(), fetched_at: b"t2".to_vec(), size: 2 },
    ];
    let sorted = jvl::diskcache::sort_cache_entries(entries);
    let urls: Vec<Vec<u8>> = sorted.iter().map(|e| e.url.clone()).collect();
    assert_eq!(urls, vec![b"https://a".to_vec(), b"https://b".to_vec(), b"https://c".to_vec()]);
    assert_eq!(sorted[0].size, 1);
}

#[test]
fn compiled_file_filter_applies_ordered_globs() {
    let config = Config {
        schema_url: None,
        files: vec![
            b"**/*.json".to_vec(),
            b"!vendor/**".to_vec(),
            b"vendor/allow.json".to_vec(),
        ],
        schemas: vec![],
        strict: false,
    };
    let filter = jvl::config::CompiledFileFilter::compile(&config).unwrap();
    assert!(filter.matches(&b"top.json".to_vec()));
    assert!(!filter.matches(&b"vendor/blocked.json".to_vec()));
    assert!(filter.matches(&b"vendor/allow.json".to_vec()));
    assert!(!filter.matches(&b"readme.txt".to_vec()));

    let bad = Config {
        schema_url: None,
        files: vec![b"[".to_vec()],
        schemas: vec![],
        strict: false,
    };
    assert!(jvl::config::CompiledFileFilter::compile(&bad).is_err());
}

#[test]
fn compiled_mappings_resolve_first_match_through_globs() {
    let config = Config {
        schema_url: None,
        files: vec![b"**/*.json".to_vec()],
        schemas: vec![
            SchemaMapping::Url(jvl::config::SchemaMappingUrl {
                url: b"https://one".to_vec(),
                files: vec![b"a/**".to_vec()],
            }),
            SchemaMapping::Path(jvl::config::SchemaMappingPath {
                path: b"schemas/two.json".to_vec(),
                files: vec![b"**/*.json".to_vec()],
            }),
        ],
        strict: false,
    };
    let compiled = jvl::config::CompiledSchemaMappings::compile(config).unwrap();
    let root = b"/proj".to_vec();
    let first = compiled.resolve(&b"a/x.json".to_vec(), &root).unwrap();
    assert!(matches!(first, SchemaSource::Url(u) if u == b"https://one".to_vec()));
    let second = compiled.resolve(&b"b/x.json".to_vec(), &root).unwrap();
    assert!(matches!(second, SchemaSource::File(p) if p == b"/proj/schemas/two.json".to_vec()));
    assert!(compiled.resolve(&b"readme.txt".to_vec(), &root).is_none());

    let invalid = Config {
        schema_url: None,
        files: vec![],
        schemas: vec![SchemaMapping::Url(jvl::config::SchemaMappingUrl {
            url: b"https://bad".to_vec(),
            files: vec![b"[".to_vec()],
        })],
        strict: false,
    };
    // A pattern that does not compile is an error, never an abort.
    assert!(jvl::config::CompiledSchemaMappings::compile(invalid).is_err());
}
