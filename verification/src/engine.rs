//! The trusted boundary to the external JSON Schema validation engine and
//! the JSON value type it consumes.
//!
//! The engine is a black box: compiled validators and raw engine values are
//! opaque here, and every fact the library uses about a violation is copied
//! into [`RawViolation`], a plain record of the library's own.

use vstd::prelude::*;

use crate::json::PathSeg;

verus! {

#[verifier::external_type_specification]
#[verifier::external_body]
pub struct ExValue(serde_json::Value);

/// An opaque handle to a compiled engine validator. The engine's validator
/// type is generic over a sealed engine trait and cannot be declared to the
/// verifier directly, so the whole handle is held opaquely; nothing about a
/// validator's behaviour is assumed beyond what the wrappers here state.
#[verifier::external_body]
pub struct ValidatorHandle {
    pub inner: jsonschema::Validator,
}

#[verifier::external_type_specification]
#[verifier::external_body]
pub struct ExValidationError<'a>(jsonschema::ValidationError<'a>);

#[verifier::external_type_specification]
#[verifier::external_body]
pub struct ExLocation(jsonschema::paths::Location);

#[verifier::external_type_specification]
#[verifier::external_body]
pub struct ExValidationErrorKind(jsonschema::error::ValidationErrorKind);

/// One violation as reported by the engine, copied into plain values: the
/// keyword that failed, the engine's message, the instance and schema paths,
/// and the payload of the two keyword kinds that fan out into one
/// diagnostic per offending item.
#[derive(Debug)]
pub struct RawViolation {
    pub keyword: Vec<u8>,
    pub message: Vec<u8>,
    pub instance_path: Vec<PathSeg>,
    pub schema_path: Vec<u8>,
    pub detail: ViolationDetail,
    /// True for the oneOf failure where more than one branch matched, which
    /// is worded differently from the no-branch-matched failure; both carry
    /// the same keyword.
    pub multiple_matched: bool,
}

/// Fan-out payload of a violation: the names of the unexpected properties,
/// the index limit past which array items are unexpected, or nothing.
#[derive(Debug)]
pub enum ViolationDetail {
    General,
    ExtraProperties(Vec<Vec<u8>>),
    ExtraItems(usize),
}

/// Relies on jsonschema::paths::Location::iter: the segments of the
/// location, each a property name or an array index.
#[verifier::external_body]
fn segments_of(loc: &jsonschema::paths::Location) -> (r: Vec<PathSeg>)
{
    let mut out: Vec<PathSeg> = Vec::new();
    for seg in loc.iter() {
        out.push(match seg {
            jsonschema::paths::LocationSegment::Property(p) => {
                PathSeg::Key(p.as_bytes().to_vec())
            },
            jsonschema::paths::LocationSegment::Index(i) => PathSeg::Index(i),
        });
    }
    out
}

/// Relies on jsonschema::error::ValidationErrorKind: the two unexpected
/// property kinds carry the offending names, the extra-items kind carries
/// the index limit; every other kind carries no fan-out payload.
#[verifier::external_body]
fn detail_of(kind: &jsonschema::error::ValidationErrorKind) -> (r: ViolationDetail)
{
    match kind {
        jsonschema::error::ValidationErrorKind::AdditionalProperties { unexpected }
        | jsonschema::error::ValidationErrorKind::UnevaluatedProperties { unexpected } => {
            ViolationDetail::ExtraProperties(
                unexpected.iter().map(|s| s.as_bytes().to_vec()).collect(),
            )
        },
        jsonschema::error::ValidationErrorKind::AdditionalItems { limit } => {
            ViolationDetail::ExtraItems(*limit)
        },
        _ => ViolationDetail::General,
    }
}

/// Relies on jsonschema::ValidationError: its keyword, display message and
/// paths describe the violation, and its kind tells the two oneOf failure
/// modes apart.
#[verifier::external_body]
fn violation_of(e: &jsonschema::ValidationError<'_>) -> (r: RawViolation)
{
    RawViolation {
        keyword: e.kind().keyword().as_bytes().to_vec(),
        message: format!("{e}").into_bytes(),
        instance_path: segments_of(e.instance_path()),
        schema_path: e.schema_path().as_str().as_bytes().to_vec(),
        detail: detail_of(e.kind()),
        multiple_matched: match e.kind() {
            jsonschema::error::ValidationErrorKind::OneOfMultipleValid { .. } => true,
            _ => false,
        },
    }
}

/// Relies on jsonschema::Validator::iter_errors: every violation the engine
/// reports for the document, in the engine's order; an empty list means the
/// document satisfied the schema.
#[verifier::external_body]
pub fn run_validator(v: &ValidatorHandle, doc: &serde_json::Value) -> (r: Vec<RawViolation>)
{
    let mut out: Vec<RawViolation> = Vec::new();
    for e in v.inner.iter_errors(doc) {
        out.push(violation_of(&e));
    }
    out
}

/// Whether a byte sequence parses as strict JSON: the parser's verdict is
/// a function of the bytes alone.
pub uninterp spec fn json_parses(bytes: Seq<u8>) -> bool;

/// Relies on serde_json::from_slice: parses bytes as strict JSON, or
/// reports the parser's message.
#[verifier::external_body]
pub fn parse_json_value(bytes: &[u8]) -> (r: Result<serde_json::Value, Vec<u8>>)
    ensures
        (r is Ok) == json_parses(bytes@),
{
    match serde_json::from_slice::<serde_json::Value>(bytes) {
        Ok(v) => Ok(v),
        Err(e) => Err(e.to_string().into_bytes()),
    }
}

/// Relies on jsonschema::ValidationOptions::offline and build: compiles a
/// schema value with reference retrieval disabled, so a `$ref` that points
/// outside the schema value itself is a compile error on this path; no file
/// or network access is performed, whatever the schema holds. Callers that
/// need nested references resolved compile through their own retriever and
/// hand the prepared validator in.
#[verifier::external_body]
pub fn compile_schema(schema: &serde_json::Value) -> (r: Result<ValidatorHandle, Vec<u8>>)
{
    match jsonschema::options().offline().build(schema) {
        Ok(v) => Ok(ValidatorHandle { inner: v }),
        Err(e) => Err(e.to_string().into_bytes()),
    }
}

} // verus!
