//! Project configuration: the parsed form of a `jvl.json` file, file
//! discovery patterns, and the glob-to-schema mapping table.
//!
//! The configuration file's bytes are parsed (with comments allowed) by the
//! caller into the library's own JSON values; everything from there on is
//! decided here: which members are accepted, what each must hold, the
//! ordered include/exclude evaluation of file patterns, and which mapping
//! entry decides a file's schema.

use vstd::prelude::*;
use vstd::string::StringSliceAdditionalSpecFns;

use crate::bytestr::{bytes_eq, bytes_of_slice, clone_bytes, lit_bytes, push_bytes, push_str_bytes};
use crate::json::{value_member_index, JsonMember, JsonValue};
use crate::source::{normalize_spec, parent_dir, parent_dir_spec, SchemaSource, SourceModel};

verus! {

/// Why a configuration could not be used.
#[derive(Debug)]
pub enum ConfigError {
    /// The config file could not be read.
    ReadError { path: Vec<u8>, reason: Vec<u8> },
    /// The config file was not valid JSON-with-comments.
    JsoncParseError { path: Vec<u8>, message: Vec<u8> },
    /// The config file's JSON did not have the expected shape.
    ParseError { path: Vec<u8>, message: Vec<u8> },
    /// A glob pattern did not compile.
    GlobError { pattern: Vec<u8>, reason: Vec<u8> },
}

/// A schema mapping entry pointing at an HTTP or HTTPS URL.
#[derive(Debug)]
pub struct SchemaMappingUrl {
    pub url: Vec<u8>,
    /// Glob patterns matched against each file's path relative to the
    /// project root; never empty.
    pub files: Vec<Vec<u8>>,
}

/// A schema mapping entry pointing at a local file path, resolved relative
/// to the project root.
#[derive(Debug)]
pub struct SchemaMappingPath {
    pub path: Vec<u8>,
    /// Glob patterns matched against each file's path relative to the
    /// project root; never empty.
    pub files: Vec<Vec<u8>>,
}

/// One schema mapping: a schema source (URL or local path) with the file
/// patterns it governs.
#[derive(Debug)]
pub enum SchemaMapping {
    Url(SchemaMappingUrl),
    Path(SchemaMappingPath),
}

impl SchemaMapping {
    /// The file patterns of this mapping.
    pub fn files(&self) -> (r: &Vec<Vec<u8>>)
        ensures
            *r == (match self {
                SchemaMapping::Url(m) => m.files,
                SchemaMapping::Path(m) => m.files,
            }),
    {
        match self {
            SchemaMapping::Url(m) => &m.files,
            SchemaMapping::Path(m) => &m.files,
        }
    }
}

/// A project configuration: the self-documenting schema URL, the ordered
/// file patterns, the schema mappings, and the strictness flag.
#[derive(Debug)]
pub struct Config {
    pub schema_url: Option<Vec<u8>>,
    pub files: Vec<Vec<u8>>,
    pub schemas: Vec<SchemaMapping>,
    pub strict: bool,
}

/// The default discovery patterns.
pub fn default_files() -> (r: Vec<Vec<u8>>)
    ensures
        r@.map_values(|v: Vec<u8>| v@) == seq![
            "**/*.json".spec_bytes(),
            "**/*.jsonc".spec_bytes(),
        ],
{
    let mut out: Vec<Vec<u8>> = Vec::new();
    out.push(lit_bytes("**/*.json"));
    out.push(lit_bytes("**/*.jsonc"));
    proof {
        assert(out@.map_values(|v: Vec<u8>| v@) =~= seq![
            "**/*.json".spec_bytes(),
            "**/*.jsonc".spec_bytes(),
        ]);
    }
    out
}

impl Config {
    /// The configuration used when no config file is found: the default
    /// patterns, no mappings, not strict.
    pub fn default_config() -> (r: Config)
        ensures
            r.schema_url is None,
            r.files@.map_values(|v: Vec<u8>| v@) == seq![
                "**/*.json".spec_bytes(),
                "**/*.jsonc".spec_bytes(),
            ],
            r.schemas@.len() == 0,
            !r.strict,
    {
        Config { schema_url: None, files: default_files(), schemas: Vec::new(), strict: false }
    }
}

/// The mathematical form of a parsed mapping.
pub enum MappingModel {
    ToUrl { url: Seq<u8>, files: Seq<Seq<u8>> },
    ToPath { path: Seq<u8>, files: Seq<Seq<u8>> },
}

/// The mathematical form of a parsed configuration.
pub struct ConfigModel {
    pub schema_url: Option<Seq<u8>>,
    pub files: Seq<Seq<u8>>,
    pub schemas: Seq<MappingModel>,
    pub strict: bool,
}

/// The strings of an all-string array, or nothing if a non-string occurs.
pub open spec fn strings_of(vs: Seq<JsonValue>) -> Option<Seq<Seq<u8>>>
    decreases vs.len(),
{
    if vs.len() == 0 {
        Some(Seq::empty())
    } else {
        match strings_of(vs.drop_last()) {
            Some(pre) => match vs.last() {
                JsonValue::Text(t) => Some(pre.push(t@)),
                _ => None,
            },
            None => None,
        }
    }
}

/// What one mapping entry means: an object with `url` or `path` (exactly
/// one, a string) and a non-empty all-string `files` array, nothing else.
pub open spec fn mapping_of(v: JsonValue) -> Option<MappingModel> {
    match v {
        JsonValue::Object(members) => {
            let url = text_of_member(members@, "url".spec_bytes());
            let path = text_of_member(members@, "path".spec_bytes());
            let files = match member_value(members@, "files".spec_bytes()) {
                Some(JsonValue::Array(entries)) => strings_of(entries@),
                _ => None,
            };
            if !mapping_keys_known(members@) {
                None
            } else {
                match (url, path, files) {
                    (Some(u), None, Some(fs)) => if fs.len() > 0 {
                        Some(MappingModel::ToUrl { url: u, files: fs })
                    } else {
                        None
                    },
                    (None, Some(p), Some(fs)) => if fs.len() > 0 {
                        Some(MappingModel::ToPath { path: p, files: fs })
                    } else {
                        None
                    },
                    _ => None,
                }
            }
        },
        _ => None,
    }
}

/// The value of a member, by key.
pub open spec fn member_value(members: Seq<JsonMember>, key: Seq<u8>) -> Option<JsonValue> {
    match value_member_index(members, key) {
        Some(i) => Some(members[i].value),
        None => None,
    }
}

/// The text of a string-valued member, by key.
pub open spec fn text_of_member(members: Seq<JsonMember>, key: Seq<u8>) -> Option<Seq<u8>> {
    match member_value(members, key) {
        Some(JsonValue::Text(t)) => Some(t@),
        _ => None,
    }
}

/// A mapping object may only hold `url`, `path` and `files` members.
pub open spec fn mapping_keys_known(members: Seq<JsonMember>) -> bool {
    forall|i: int|
        0 <= i < members.len() ==> (#[trigger] members[i].key@) == "url".spec_bytes() || members[i].key@
            == "path".spec_bytes() || members[i].key@ == "files".spec_bytes()
}

/// A config object may only hold `$schema`, `files`, `schemas` and `strict`
/// members.
pub open spec fn config_keys_known(members: Seq<JsonMember>) -> bool {
    forall|i: int|
        0 <= i < members.len() ==> (#[trigger] members[i].key@) == "$schema".spec_bytes()
            || members[i].key@ == "files".spec_bytes() || members[i].key@
            == "schemas".spec_bytes() || members[i].key@ == "strict".spec_bytes()
}

/// All mapping entries of a `schemas` array, or nothing if one is invalid.
pub open spec fn mappings_of(vs: Seq<JsonValue>) -> Option<Seq<MappingModel>>
    decreases vs.len(),
{
    if vs.len() == 0 {
        Some(Seq::empty())
    } else {
        match mappings_of(vs.drop_last()) {
            Some(pre) => match mapping_of(vs.last()) {
                Some(m) => Some(pre.push(m)),
                None => None,
            },
            None => None,
        }
    }
}

/// What a configuration document means, member by member: unknown members
/// reject the document; `$schema` must be a string when present; `files`
/// must be an all-string array when present, defaulting to the standard
/// patterns; `schemas` must be an array of valid mapping entries when
/// present; `strict` must be a boolean when present, defaulting to off.
pub open spec fn config_of(v: JsonValue) -> Option<ConfigModel> {
    match v {
        JsonValue::Object(members) => {
            if !config_keys_known(members@) {
                None
            } else {
                let schema_url = match member_value(members@, "$schema".spec_bytes()) {
                    Some(JsonValue::Text(t)) => Some(Some(t@)),
                    Some(_) => None,
                    None => Some(None),
                };
                let files = match member_value(members@, "files".spec_bytes()) {
                    Some(JsonValue::Array(entries)) => strings_of(entries@),
                    Some(_) => None,
                    None => Some(
                        seq!["**/*.json".spec_bytes(), "**/*.jsonc".spec_bytes()],
                    ),
                };
                let schemas = match member_value(members@, "schemas".spec_bytes()) {
                    Some(JsonValue::Array(entries)) => mappings_of(entries@),
                    Some(_) => None,
                    None => Some(Seq::empty()),
                };
                let strict = match member_value(members@, "strict".spec_bytes()) {
                    Some(JsonValue::Bool(b)) => Some(b),
                    Some(_) => None,
                    None => Some(false),
                };
                match (schema_url, files, schemas, strict) {
                    (Some(u), Some(f), Some(s), Some(st)) => Some(
                        ConfigModel { schema_url: u, files: f, schemas: s, strict: st },
                    ),
                    _ => None,
                }
            }
        },
        _ => None,
    }
}

/// The view of a parsed mapping.
pub open spec fn mapping_view(m: SchemaMapping) -> MappingModel {
    match m {
        SchemaMapping::Url(u) => MappingModel::ToUrl {
            url: u.url@,
            files: u.files@.map_values(|v: Vec<u8>| v@),
        },
        SchemaMapping::Path(p) => MappingModel::ToPath {
            path: p.path@,
            files: p.files@.map_values(|v: Vec<u8>| v@),
        },
    }
}

/// The view of a parsed configuration.
pub open spec fn config_view(c: Config) -> ConfigModel {
    ConfigModel {
        schema_url: match c.schema_url {
            Some(u) => Some(u@),
            None => None,
        },
        files: c.files@.map_values(|v: Vec<u8>| v@),
        schemas: c.schemas@.map_values(|m: SchemaMapping| mapping_view(m)),
        strict: c.strict,
    }
}

/// Collect the strings of an all-string array.
fn collect_strings(entries: &Vec<JsonValue>) -> (r: Option<Vec<Vec<u8>>>)
    ensures
        match (r, strings_of(entries@)) {
            (Some(out), Some(m)) => out@.map_values(|v: Vec<u8>| v@) == m,
            (None, None) => true,
            _ => false,
        },
{
    let mut out: Vec<Vec<u8>> = Vec::new();
    let mut i: usize = 0;
    proof {
        assert(entries@.take(0) =~= Seq::<JsonValue>::empty());
        assert(out@.map_values(|v: Vec<u8>| v@) =~= strings_of(entries@.take(0))->0);
    }
    while i < entries.len()
        invariant
            i <= entries@.len(),
            strings_of(entries@.take(i as int)) is Some,
            out@.map_values(|v: Vec<u8>| v@) == strings_of(entries@.take(i as int))->0,
        decreases entries@.len() - i,
    {
        proof {
            assert(entries@.take(i + 1).drop_last() =~= entries@.take(i as int));
            assert(entries@.take(i + 1).last() == entries@[i as int]);
        }
        match &entries[i] {
            JsonValue::Text(t) => {
                let ghost pre = out@;
                out.push(clone_bytes(t));
                proof {
                    assert(out@.map_values(|v: Vec<u8>| v@) =~= pre.map_values(
                        |v: Vec<u8>| v@,
                    ).push(entries@[i as int]->Text_0@));
                }
            },
            _ => {
                proof {
                    lemma_strings_of_prefix_none(entries@, i as int);
                    assert(entries@.take(entries@.len() as int) =~= entries@);
                }
                return None;
            },
        }
        i = i + 1;
    }
    proof {
        assert(entries@.take(entries@.len() as int) =~= entries@);
    }
    Some(out)
}

/// A non-string entry anywhere makes the whole array invalid.
proof fn lemma_strings_of_prefix_none(vs: Seq<JsonValue>, i: int)
    requires
        0 <= i < vs.len(),
        !(vs[i] is Text),
    ensures
        strings_of(vs.take(vs.len() as int)) is None,
    decreases vs.len(),
{
    lemma_strings_of_bad_entry(vs, i, vs.len() as int);
}

/// A non-string entry before `n` makes the prefix of length `n` invalid.
proof fn lemma_strings_of_bad_entry(vs: Seq<JsonValue>, i: int, n: int)
    requires
        0 <= i < n <= vs.len(),
        !(vs[i] is Text),
    ensures
        strings_of(vs.take(n)) is None,
    decreases n,
{
    assert(vs.take(n).drop_last() =~= vs.take(n - 1));
    assert(vs.take(n).last() == vs[n - 1]);
    if i < n - 1 {
        lemma_strings_of_bad_entry(vs, i, n - 1);
    }
}

/// Parse one mapping entry.
fn parse_mapping(v: &JsonValue) -> (r: Option<SchemaMapping>)
    ensures
        match (r, mapping_of(*v)) {
            (Some(m), Some(spec_m)) => mapping_view(m) == spec_m,
            (None, None) => true,
            _ => false,
        },
{
    let members = match v {
        JsonValue::Object(members) => members,
        _ => {
            return None;
        },
    };
    let url_key = lit_bytes("url");
    let path_key = lit_bytes("path");
    let files_key = lit_bytes("files");
    // deny unknown members
    let mut i: usize = 0;
    while i < members.len()
        invariant
            i <= members@.len(),
            *v is Object && (*v)->Object_0 == *members,
            url_key@ == "url".spec_bytes(),
            path_key@ == "path".spec_bytes(),
            files_key@ == "files".spec_bytes(),
            forall|j: int|
                0 <= j < i ==> (#[trigger] members@[j].key@) == "url".spec_bytes()
                    || members@[j].key@ == "path".spec_bytes() || members@[j].key@
                    == "files".spec_bytes(),
        decreases members@.len() - i,
    {
        let known = bytes_eq(&members[i].key, &url_key) || bytes_eq(&members[i].key, &path_key)
            || bytes_eq(&members[i].key, &files_key);
        if !known {
            proof {
                assert(!mapping_keys_known(members@));
            }
            return None;
        }
        i = i + 1;
    }
    let url = match crate::json::object_get(members, &url_key) {
        Some(JsonValue::Text(t)) => Some(t),
        _ => None,
    };
    let path = match crate::json::object_get(members, &path_key) {
        Some(JsonValue::Text(t)) => Some(t),
        _ => None,
    };
    let files = match crate::json::object_get(members, &files_key) {
        Some(JsonValue::Array(entries)) => {
            match collect_strings(entries) {
                Some(fs) => fs,
                None => {
                    return None;
                },
            }
        },
        _ => {
            return None;
        },
    };
    if files.len() == 0 {
        return None;
    }
    match (url, path) {
        (Some(u), None) => Some(
            SchemaMapping::Url(SchemaMappingUrl { url: clone_bytes(u), files }),
        ),
        (None, Some(p)) => Some(
            SchemaMapping::Path(SchemaMappingPath { path: clone_bytes(p), files }),
        ),
        _ => None,
    }
}

impl Config {
    /// Parse a configuration from its JSON value, rejecting unknown members
    /// and ill-typed fields exactly as `config_of` describes.
    pub fn from_value(v: &JsonValue) -> (r: Option<Config>)
        ensures
            match (r, config_of(*v)) {
                (Some(c), Some(m)) => config_view(c) == m,
                (None, None) => true,
                _ => false,
            },
    {
        let members = match v {
            JsonValue::Object(members) => members,
            _ => {
                return None;
            },
        };
        let schema_key = lit_bytes("$schema");
        let files_key = lit_bytes("files");
        let schemas_key = lit_bytes("schemas");
        let strict_key = lit_bytes("strict");
        let mut i: usize = 0;
        while i < members.len()
            invariant
                i <= members@.len(),
                *v is Object && (*v)->Object_0 == *members,
                schema_key@ == "$schema".spec_bytes(),
                files_key@ == "files".spec_bytes(),
                schemas_key@ == "schemas".spec_bytes(),
                strict_key@ == "strict".spec_bytes(),
                forall|j: int|
                    0 <= j < i ==> (#[trigger] members@[j].key@) == "$schema".spec_bytes()
                        || members@[j].key@ == "files".spec_bytes() || members@[j].key@
                        == "schemas".spec_bytes() || members@[j].key@ == "strict".spec_bytes(),
            decreases members@.len() - i,
        {
            let known = bytes_eq(&members[i].key, &schema_key) || bytes_eq(
                &members[i].key,
                &files_key,
            ) || bytes_eq(&members[i].key, &schemas_key) || bytes_eq(&members[i].key, &strict_key);
            if !known {
                proof {
                    assert(!config_keys_known(members@));
                }
                return None;
            }
            i = i + 1;
        }
        let schema_url = match crate::json::object_get(members, &schema_key) {
            Some(JsonValue::Text(t)) => Some(clone_bytes(t)),
            Some(_) => {
                return None;
            },
            None => None,
        };
        let files = match crate::json::object_get(members, &files_key) {
            Some(JsonValue::Array(entries)) => {
                match collect_strings(entries) {
                    Some(fs) => fs,
                    None => {
                        return None;
                    },
                }
            },
            Some(_) => {
                return None;
            },
            None => default_files(),
        };
        let schemas = match crate::json::object_get(members, &schemas_key) {
            Some(JsonValue::Array(entries)) => {
                let mut out: Vec<SchemaMapping> = Vec::new();
                let mut k: usize = 0;
                proof {
                    assert(entries@.take(0) =~= Seq::<JsonValue>::empty());
                    assert(out@.map_values(|m: SchemaMapping| mapping_view(m)) =~= mappings_of(
                        entries@.take(0),
                    )->0);
                }
                let mut failed = false;
                while k < entries.len() && !failed
                    invariant
                        k <= entries@.len(),
                        !failed ==> mappings_of(entries@.take(k as int)) is Some,
                        !failed ==> out@.map_values(|m: SchemaMapping| mapping_view(m))
                            == mappings_of(entries@.take(k as int))->0,
                        failed ==> mappings_of(entries@) is None,
                    decreases entries@.len() - k,
                {
                    proof {
                        assert(entries@.take(k + 1).drop_last() =~= entries@.take(k as int));
                        assert(entries@.take(k + 1).last() == entries@[k as int]);
                    }
                    match parse_mapping(&entries[k]) {
                        Some(m) => {
                            let ghost pre = out@;
                            out.push(m);
                            proof {
                                assert(out@.map_values(|m2: SchemaMapping| mapping_view(m2))
                                    =~= pre.map_values(|m2: SchemaMapping| mapping_view(m2)).push(
                                    mapping_view(out@.last()),
                                ));
                            }
                        },
                        None => {
                            proof {
                                lemma_mappings_of_bad_entry(entries@, k as int, entries@.len() as int);
                                assert(entries@.take(entries@.len() as int) =~= entries@);
                            }
                            failed = true;
                        },
                    }
                    k = k + 1;
                }
                if failed {
                    return None;
                }
                proof {
                    assert(entries@.take(entries@.len() as int) =~= entries@);
                }
                out
            },
            Some(_) => {
                return None;
            },
            None => {
                let empty: Vec<SchemaMapping> = Vec::new();
                proof {
                    assert(empty@.map_values(|m: SchemaMapping| mapping_view(m))
                        =~= Seq::<MappingModel>::empty());
                }
                empty
            },
        };
        let strict = match crate::json::object_get(members, &strict_key) {
            Some(JsonValue::Bool(b)) => *b,
            Some(_) => {
                return None;
            },
            None => false,
        };
        Some(Config { schema_url, files, schemas, strict })
    }
}

/// An invalid mapping entry before `n` makes the prefix of length `n`
/// invalid.
proof fn lemma_mappings_of_bad_entry(vs: Seq<JsonValue>, i: int, n: int)
    requires
        0 <= i < n <= vs.len(),
        mapping_of(vs[i]) is None,
    ensures
        mappings_of(vs.take(n)) is None,
    decreases n,
{
    assert(vs.take(n).drop_last() =~= vs.take(n - 1));
    assert(vs.take(n).last() == vs[n - 1]);
    if i < n - 1 {
        lemma_mappings_of_bad_entry(vs, i, n - 1);
    }
}

/// The candidate config file locations for a starting directory: its own
/// `jvl.json`, then each ancestor directory's, outermost last.
pub open spec fn config_candidates_spec(dir: Seq<u8>) -> Seq<Seq<u8>>
    decreases dir.len(),
{
    let base = if dir.len() > 0 && dir.last() == 47 {
        dir.drop_last()
    } else {
        dir
    };
    let cand = base + "/jvl.json".spec_bytes();
    let parent = parent_dir_spec(dir);
    if parent.len() < dir.len() {
        seq![cand] + config_candidates_spec(parent)
    } else {
        seq![cand]
    }
}

/// The config file locations to probe for a starting directory, nearest
/// first: `jvl.json` beside the files, then in each ancestor directory up
/// to the root. The caller uses the first location that exists.
pub fn find_config_file(start_dir: &[u8]) -> (r: Vec<Vec<u8>>)
    ensures
        r@.map_values(|v: Vec<u8>| v@) == config_candidates_spec(start_dir@),
{
    let mut out: Vec<Vec<u8>> = Vec::new();
    let mut current = bytes_of_slice(start_dir);
    proof {
        assert(out@.map_values(|v: Vec<u8>| v@) + config_candidates_spec(current@)
            =~= config_candidates_spec(start_dir@));
    }
    loop
        invariant_except_break
            config_candidates_spec(start_dir@) == out@.map_values(|v: Vec<u8>| v@)
                + config_candidates_spec(current@),
        ensures
            out@.map_values(|v: Vec<u8>| v@) == config_candidates_spec(start_dir@),
        decreases current@.len(),
    {
        let ghost pre = out@;
        let mut cand = if current.len() > 0 && current[current.len() - 1] == 47 {
            let c = bytes_of_slice(&current.as_slice()[0..current.len() - 1]);
            proof {
                assert(c@ =~= current@.drop_last());
            }
            c
        } else {
            clone_bytes(&current)
        };
        push_str_bytes(&mut cand, "/jvl.json");
        out.push(cand);
        proof {
            assert(out@.map_values(|v: Vec<u8>| v@) =~= pre.map_values(|v: Vec<u8>| v@).push(
                out@.last()@,
            ));
        }
        let next = parent_dir(current.as_slice());
        if next.len() < current.len() {
            proof {
                assert(config_candidates_spec(start_dir@) =~= out@.map_values(|v: Vec<u8>| v@)
                    + config_candidates_spec(next@));
            }
            current = next;
        } else {
            proof {
                assert(config_candidates_spec(current@) =~= seq![out@.last()@]);
                assert(config_candidates_spec(start_dir@) =~= out@.map_values(|v: Vec<u8>| v@));
            }
            break ;
        }
    }
    out
}

/// One ordered file pattern: an exclude (written with a leading `!`) or an
/// include, with the bare glob text.
#[derive(Debug)]
pub struct PatternRule {
    pub exclude: bool,
    pub glob: Vec<u8>,
}

/// What one pattern string means: a leading `!` marks an exclude.
pub open spec fn pattern_rule_spec(p: Seq<u8>) -> (bool, Seq<u8>) {
    if p.len() > 0 && p[0] == 33 {
        (true, p.skip(1))
    } else {
        (false, p)
    }
}

/// Split the ordered pattern list into rules: a leading `!` marks an
/// exclude, and order is kept.
pub fn parse_pattern_rules(patterns: &Vec<Vec<u8>>) -> (r: Vec<PatternRule>)
    ensures
        r@.len() == patterns@.len(),
        forall|i: int|
            0 <= i < r@.len() ==> ((#[trigger] r@[i]).exclude, r@[i].glob@) == pattern_rule_spec(
                patterns@[i]@,
            ),
{
    let mut out: Vec<PatternRule> = Vec::new();
    let mut i: usize = 0;
    while i < patterns.len()
        invariant
            i <= patterns@.len(),
            out@.len() == i,
            forall|j: int|
                0 <= j < i ==> ((#[trigger] out@[j]).exclude, out@[j].glob@) == pattern_rule_spec(
                    patterns@[j]@,
                ),
        decreases patterns@.len() - i,
    {
        let p = &patterns[i];
        if p.len() > 0 && p[0] == 33 {
            let bare = bytes_of_slice(&p.as_slice()[1..p.len()]);
            proof {
                assert(bare@ =~= p@.skip(1));
            }
            out.push(PatternRule { exclude: true, glob: bare });
        } else {
            out.push(PatternRule { exclude: false, glob: clone_bytes(p) });
        }
        i = i + 1;
    }
    out
}

/// Sequential include/exclude evaluation: later patterns override earlier
/// ones, so the last rule that matched decides — an include keeps the file,
/// an exclude drops it; a file no rule matched is dropped.
pub open spec fn ordered_match_spec(flags: Seq<(bool, bool)>) -> bool
    decreases flags.len(),
{
    if flags.len() == 0 {
        false
    } else if flags.last().1 {
        !flags.last().0
    } else {
        ordered_match_spec(flags.drop_last())
    }
}

/// Decide whether a file is included, given each rule's exclude flag and
/// whether its glob matched the file, in rule order.
pub fn ordered_match(flags: &Vec<(bool, bool)>) -> (r: bool)
    ensures
        r == ordered_match_spec(flags@),
{
    let mut matched = false;
    let mut i: usize = 0;
    proof {
        assert(flags@.take(0) =~= Seq::<(bool, bool)>::empty());
    }
    while i < flags.len()
        invariant
            i <= flags@.len(),
            matched == ordered_match_spec(flags@.take(i as int)),
        decreases flags@.len() - i,
    {
        proof {
            assert(flags@.take(i + 1).drop_last() =~= flags@.take(i as int));
            assert(flags@.take(i + 1).last() == flags@[i as int]);
        }
        let (exclude, hit) = flags[i];
        if hit {
            matched = !exclude;
        }
        i = i + 1;
    }
    proof {
        assert(flags@.take(flags@.len() as int) =~= flags@);
    }
    matched
}

/// What a glob pattern decides for a path: the pattern compiled and applied
/// to the path. A pattern that does not compile, and non-UTF-8 bytes on
/// either side, match nothing, so the result is a function of the two byte
/// sequences alone.
pub uninterp spec fn glob_match_of(pattern: Seq<u8>, path: Seq<u8>) -> bool;

/// Whether a glob pattern compiles: well-formed UTF-8, valid glob syntax,
/// and within the matcher's size limits.
pub uninterp spec fn glob_ok(pattern: Seq<u8>) -> bool;

/// Relies on globset::Glob::new and GlobSetBuilder::build: whether one
/// pattern compiles, with the crate's message on failure. The fallible
/// builder is used throughout so an oversized pattern is an error, never an
/// abort.
#[verifier::external_body]
fn check_glob(pattern: &Vec<u8>) -> (r: Result<(), Vec<u8>>)
    ensures
        (r is Ok) == glob_ok(pattern@),
{
    let text = match core::str::from_utf8(pattern.as_slice()) {
        Ok(t) => t,
        Err(e) => return Err(e.to_string().into_bytes()),
    };
    let glob = match globset::Glob::new(text) {
        Ok(g) => g,
        Err(e) => return Err(e.to_string().into_bytes()),
    };
    let mut builder = globset::GlobSetBuilder::new();
    builder.add(glob);
    builder.build().map(|_| ()).map_err(|e| e.to_string().into_bytes())
}

/// Relies on globset::Glob::new, GlobSetBuilder::build and
/// GlobSet::is_match: whether the pattern matches the path.
#[verifier::external_body]
pub fn glob_match(pattern: &Vec<u8>, path: &Vec<u8>) -> (r: bool)
    ensures
        r == glob_match_of(pattern@, path@),
{
    let (Ok(text), Ok(p)) = (
        core::str::from_utf8(pattern.as_slice()),
        core::str::from_utf8(path.as_slice()),
    ) else {
        return false;
    };
    let Ok(glob) = globset::Glob::new(text) else {
        return false;
    };
    let mut builder = globset::GlobSetBuilder::new();
    builder.add(glob);
    builder.build().map(|set| set.is_match(p)).unwrap_or(false)
}

/// A pattern rule with its bare glob text, validated at compile time.
#[derive(Debug)]
pub struct CompiledRule {
    pub exclude: bool,
    pub pattern: Vec<u8>,
}

/// The config's file patterns, every glob checked up front: discovery and
/// the live session's file filter share this.
#[derive(Debug)]
pub struct CompiledFileFilter {
    pub rules: Vec<CompiledRule>,
}

/// Whether every pattern of the list compiles (after stripping the exclude
/// marker).
pub open spec fn patterns_ok(patterns: Seq<Vec<u8>>) -> bool {
    forall|i: int| 0 <= i < patterns.len() ==> glob_ok(pattern_rule_spec((#[trigger] patterns[i])@).1)
}

/// Each rule's (exclude, matched) flag for a path, in rule order.
pub open spec fn rule_flags(rules: Seq<CompiledRule>, path: Seq<u8>) -> Seq<(bool, bool)> {
    Seq::new(rules.len(), |i: int| (rules[i].exclude, glob_match_of(rules[i].pattern@, path)))
}

impl CompiledFileFilter {
    /// Validate and keep the config's ordered file patterns: the result
    /// holds one rule per pattern, in order, with the exclude marker split
    /// off; a pattern that does not compile is the error.
    pub fn compile(config: &Config) -> (r: Result<CompiledFileFilter, ConfigError>)
        ensures
            match r {
                Ok(f) => {
                    &&& patterns_ok(config.files@)
                    &&& f.rules@.len() == config.files@.len()
                    &&& forall|i: int|
                        0 <= i < f.rules@.len() ==> ((#[trigger] f.rules@[i]).exclude,
                        f.rules@[i].pattern@) == pattern_rule_spec(config.files@[i]@)
                },
                Err(_) => !patterns_ok(config.files@),
            },
    {
        let rules = parse_pattern_rules(&config.files);
        let ghost all = rules@;
        let mut kept: Vec<CompiledRule> = Vec::new();
        let mut rest = rules;
        let total = rest.len();
        let mut i: usize = 0;
        proof {
            assert(rest@ =~= all.skip(0));
        }
        while rest.len() > 0
            invariant
                all.len() == total == config.files@.len(),
                i + rest@.len() == all.len(),
                rest@ == all.skip(i as int),
                forall|j: int|
                    0 <= j < all.len() ==> ((#[trigger] all[j]).exclude, all[j].glob@)
                        == pattern_rule_spec(config.files@[j]@),
                kept@.len() == i,
                forall|j: int|
                    0 <= j < i ==> ((#[trigger] kept@[j]).exclude, kept@[j].pattern@)
                        == pattern_rule_spec(config.files@[j]@),
                forall|j: int| 0 <= j < i ==> glob_ok(pattern_rule_spec(config.files@[j]@).1),
            decreases rest@.len(),
        {
            proof {
                assert(all.skip(i as int)[0] == all[i as int]);
            }
            let rule = rest.remove(0);
            proof {
                assert(rest@ =~= all.skip(i + 1));
            }
            match check_glob(&rule.glob) {
                Ok(_) => {
                    kept.push(CompiledRule { exclude: rule.exclude, pattern: rule.glob });
                },
                Err(reason) => {
                    return Err(ConfigError::GlobError { pattern: rule.glob, reason });
                },
            }
            i = i + 1;
        }
        Ok(CompiledFileFilter { rules: kept })
    }

    /// Whether a path (relative to the project root) is included: each
    /// rule's glob is matched against the path, and the last matching rule
    /// decides — later patterns override earlier ones.
    pub fn matches(&self, relative: &Vec<u8>) -> (r: bool)
        ensures
            r == ordered_match_spec(rule_flags(self.rules@, relative@)),
    {
        let ghost target = rule_flags(self.rules@, relative@);
        let mut flags: Vec<(bool, bool)> = Vec::new();
        let mut i: usize = 0;
        while i < self.rules.len()
            invariant
                i <= self.rules@.len(),
                target == rule_flags(self.rules@, relative@),
                flags@ == target.take(i as int),
            decreases self.rules@.len() - i,
        {
            let hit = glob_match(&self.rules[i].pattern, relative);
            flags.push((self.rules[i].exclude, hit));
            proof {
                assert(flags@ =~= target.take(i + 1));
            }
            i = i + 1;
        }
        proof {
            assert(target.take(target.len() as int) =~= target);
        }
        ordered_match(&flags)
    }
}

/// What a matching mapping resolves to: a URL source verbatim, or a file
/// source under the project root, normalized.
pub open spec fn mapping_source_spec(m: MappingModel, project_root: Seq<u8>) -> SourceModel {
    match m {
        MappingModel::ToUrl { url, .. } => SourceModel::UrlKey(url),
        MappingModel::ToPath { path, .. } => SourceModel::FileKey(
            normalize_spec(project_root + seq![47u8] + path),
        ),
    }
}

/// The source of the first mapping whose flag is set.
pub open spec fn first_match_spec(
    mappings: Seq<MappingModel>,
    matched: Seq<bool>,
    project_root: Seq<u8>,
) -> Option<SourceModel>
    decreases mappings.len(),
{
    if mappings.len() == 0 || matched.len() == 0 {
        None
    } else if matched[0] {
        Some(mapping_source_spec(mappings[0], project_root))
    } else {
        first_match_spec(mappings.drop_first(), matched.drop_first(), project_root)
    }
}

/// Resolve a schema source from per-mapping match flags: mapping declaration
/// order decides, first match wins.
pub fn resolve_from_matches(
    mappings: &Vec<SchemaMapping>,
    matched: &Vec<bool>,
    project_root: &Vec<u8>,
) -> (r: Option<SchemaSource>)
    requires
        mappings@.len() == matched@.len(),
    ensures
        match (r, first_match_spec(mappings@.map_values(|m: SchemaMapping| mapping_view(m)),
            matched@, project_root@)) {
            (Some(s), Some(k)) => s@ == k,
            (None, None) => true,
            _ => false,
        },
{
    let ghost mviews = mappings@.map_values(|m: SchemaMapping| mapping_view(m));
    let mut i: usize = 0;
    proof {
        assert(mviews.skip(0) =~= mviews);
        assert(matched@.skip(0) =~= matched@);
    }
    while i < mappings.len()
        invariant
            i <= mappings@.len() == matched@.len(),
            mviews == mappings@.map_values(|m: SchemaMapping| mapping_view(m)),
            first_match_spec(mviews, matched@, project_root@) == first_match_spec(
                mviews.skip(i as int),
                matched@.skip(i as int),
                project_root@,
            ),
        decreases mappings@.len() - i,
    {
        proof {
            assert(mviews.skip(i as int)[0] == mviews[i as int]);
            assert(mviews[i as int] == mapping_view(mappings@[i as int]));
            assert(matched@.skip(i as int)[0] == matched@[i as int]);
            assert(mviews.skip(i as int).drop_first() =~= mviews.skip(i + 1));
            assert(matched@.skip(i as int).drop_first() =~= matched@.skip(i + 1));
        }
        if matched[i] {
            match &mappings[i] {
                SchemaMapping::Url(m) => {
                    return Some(SchemaSource::Url(clone_bytes(&m.url)));
                },
                SchemaMapping::Path(m) => {
                    let mut joined = clone_bytes(project_root);
                    joined.push(47);
                    push_bytes(&mut joined, m.path.as_slice());
                    proof {
                        assert(joined@ =~= project_root@ + seq![47u8] + mappings@[i as int]->Path_0.path@);
                    }
                    return Some(
                        SchemaSource::File(crate::source::normalize_lexical(joined.as_slice())),
                    );
                },
            }
        }
        i = i + 1;
    }
    None
}

/// The file patterns of a mapping.
pub open spec fn mapping_files(m: SchemaMapping) -> Seq<Vec<u8>> {
    match m {
        SchemaMapping::Url(u) => u.files@,
        SchemaMapping::Path(p) => p.files@,
    }
}

/// Whether a mapping applies to a path: one of its globs matches.
pub open spec fn mapping_matches(m: SchemaMapping, path: Seq<u8>) -> bool {
    exists|j: int|
        0 <= j < mapping_files(m).len() && glob_match_of((#[trigger] mapping_files(m)[j])@, path)
}

/// Each mapping's match flag for a path, in declaration order.
pub open spec fn mapping_match_flags(ms: Seq<SchemaMapping>, path: Seq<u8>) -> Seq<bool> {
    Seq::new(ms.len(), |i: int| mapping_matches(ms[i], path))
}

/// Whether every glob of every mapping compiles.
pub open spec fn mappings_globs_ok(ms: Seq<SchemaMapping>) -> bool {
    forall|i: int, j: int|
        0 <= i < ms.len() && 0 <= j < mapping_files(#[trigger] ms[i]).len() ==> glob_ok(
            (#[trigger] mapping_files(ms[i])[j])@,
        )
}

/// The config's schema mappings, every glob checked up front, kept in
/// declaration order for per-file resolution.
#[derive(Debug)]
pub struct CompiledSchemaMappings {
    pub mappings: Vec<SchemaMapping>,
}

impl CompiledSchemaMappings {
    /// Validate every mapping's file globs and keep the mappings verbatim;
    /// a pattern that does not compile is the error.
    pub fn compile(config: Config) -> (r: Result<CompiledSchemaMappings, ConfigError>)
        ensures
            match r {
                Ok(m) => m.mappings == config.schemas && mappings_globs_ok(config.schemas@),
                Err(_) => !mappings_globs_ok(config.schemas@),
            },
    {
        let ghost ms = config.schemas@;
        let mut i: usize = 0;
        while i < config.schemas.len()
            invariant
                ms == config.schemas@,
                i <= ms.len(),
                forall|a: int, b: int|
                    0 <= a < i && 0 <= b < mapping_files(#[trigger] ms[a]).len() ==> glob_ok(
                        (#[trigger] mapping_files(ms[a])[b])@,
                    ),
            decreases ms.len() - i,
        {
            let files = config.schemas[i].files();
            let ghost mfiles = mapping_files(ms[i as int]);
            proof {
                assert(files@ == mfiles);
            }
            let mut j: usize = 0;
            while j < files.len()
                invariant
                    ms == config.schemas@,
                    (i as int) < ms.len(),
                    mfiles == mapping_files(ms[i as int]),
                    mfiles == files@,
                    j <= files@.len(),
                    forall|b: int| 0 <= b < j ==> glob_ok((#[trigger] mfiles[b])@),
                decreases files@.len() - j,
            {
                match check_glob(&files[j]) {
                    Ok(_) => {},
                    Err(reason) => {
                        proof {
                            assert(!glob_ok((mapping_files(ms[i as int])[j as int])@));
                            assert(!mappings_globs_ok(ms));
                        }
                        return Err(
                            ConfigError::GlobError {
                                pattern: clone_bytes(&files[j]),
                                reason,
                            },
                        );
                    },
                }
                j = j + 1;
            }
            i = i + 1;
        }
        Ok(CompiledSchemaMappings { mappings: config.schemas })
    }

    /// Resolve a schema source for a file: the first mapping (in declaration
    /// order) with a glob matching the file's root-relative path wins; a URL
    /// mapping yields the URL verbatim, a path mapping the normalized path
    /// under the project root; nothing when no mapping matches.
    pub fn resolve(&self, file_relative: &Vec<u8>, project_root: &Vec<u8>) -> (r: Option<
        SchemaSource,
    >)
        ensures
            match (r, first_match_spec(self.mappings@.map_values(|m: SchemaMapping| mapping_view(m)),
                mapping_match_flags(self.mappings@, file_relative@), project_root@)) {
                (Some(s), Some(k)) => s@ == k,
                (None, None) => true,
                _ => false,
            },
    {
        let ghost target = mapping_match_flags(self.mappings@, file_relative@);
        let mut flags: Vec<bool> = Vec::new();
        let mut i: usize = 0;
        while i < self.mappings.len()
            invariant
                i <= self.mappings@.len(),
                target == mapping_match_flags(self.mappings@, file_relative@),
                flags@ == target.take(i as int),
            decreases self.mappings@.len() - i,
        {
            let files = self.mappings[i].files();
            let ghost mfiles = mapping_files(self.mappings@[i as int]);
            proof {
                assert(files@ == mfiles);
            }
            let mut hit = false;
            let mut j: usize = 0;
            while j < files.len()
                invariant
                    mfiles == files@,
                    j <= files@.len(),
                    hit == exists|b: int|
                        0 <= b < j && glob_match_of((#[trigger] mfiles[b])@, file_relative@),
                decreases files@.len() - j,
            {
                if glob_match(&files[j], file_relative) {
                    hit = true;
                    proof {
                        assert(glob_match_of(mfiles[j as int]@, file_relative@));
                    }
                }
                j = j + 1;
            }
            proof {
                assert(hit == mapping_matches(self.mappings@[i as int], file_relative@));
            }
            flags.push(hit);
            proof {
                assert(flags@ =~= target.take(i + 1));
            }
            i = i + 1;
        }
        proof {
            assert(target.take(target.len() as int) =~= target);
        }
        resolve_from_matches(&self.mappings, &flags, project_root)
    }
}

} // verus!
