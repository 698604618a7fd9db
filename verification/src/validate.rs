//! Driving the validation engine and mapping its violations to positioned
//! diagnostics.
//!
//! Most violations produce one diagnostic anchored at the span of their
//! instance path. Two keyword kinds fan out instead, so each offending item
//! gets its own editor squiggle: unexpected-property violations emit one
//! diagnostic per named property, anchored at the property's key token; and
//! extra-array-item violations emit one diagnostic per element at or past
//! the allowed limit.

use vstd::prelude::*;
use vstd::string::StringSliceAdditionalSpecFns;

use crate::bytestr::{clone_bytes, dec_rep, lit_bytes, push_bytes, push_str_bytes, slices_eq, usize_to_dec};
use crate::cache::{error_message_spec, reason_of, CacheOutcome, PreparedSchema, SchemaCache, SchemaError};
use crate::diagnostic::{FileDiagnostic, FileResult, Severity, SourceLocation, Warning};
use crate::engine::{run_validator, RawViolation, ViolationDetail};
use crate::json::{array_len_at, array_len_spec, resolve_pointer, resolve_pointer_key, resolve_pointer_key_spec, resolve_pointer_spec, schema_field_spec, JsonAst, JsonValue, PathSeg, Span};
use crate::source::{parent_dir_spec, resolve_schema_ref_spec, SchemaSource, SourceModel};
use crate::text::{is_line_hit, offset_to_line_col, valid_line_starts};

verus! {

/// A parse error of the document itself, with an optional source range.
#[derive(Debug)]
pub struct ParseError {
    pub message: Vec<u8>,
    pub range: Option<Span>,
}

/// A parsed document, ready for validation: the positioned tree for span
/// resolution, the library's value tree for field extraction, and the
/// engine's own representation of the document.
pub struct ParsedDoc {
    pub ast: JsonAst,
    pub value: JsonValue,
    pub doc: serde_json::Value,
}

/// The diagnostic code of a schema keyword violation.
pub open spec fn schema_code_spec(kw: Seq<u8>) -> Seq<u8> {
    "schema(".spec_bytes() + kw + ")".spec_bytes()
}

/// The short label printed beside a violation's span, chosen by keyword; a
/// oneOf violation where more than one branch matched gets its own wording.
pub open spec fn label_spec(kw: Seq<u8>, multiple_matched: bool) -> Seq<u8> {
    if kw == "oneOf".spec_bytes() && multiple_matched {
        "multiple schemas matched".spec_bytes()
    } else if kw == "type".spec_bytes() {
        "unexpected type".spec_bytes()
    } else if kw == "required".spec_bytes() {
        "required property missing here".spec_bytes()
    } else if kw == "enum".spec_bytes() {
        "value not in allowed set".spec_bytes()
    } else if kw == "const".spec_bytes() {
        "value doesn't match expected constant".spec_bytes()
    } else if kw == "pattern".spec_bytes() {
        "value doesn't match pattern".spec_bytes()
    } else if kw == "minimum".spec_bytes() || kw == "maximum".spec_bytes() || kw
        == "exclusiveMinimum".spec_bytes() || kw == "exclusiveMaximum".spec_bytes() {
        "value out of range".spec_bytes()
    } else if kw == "minLength".spec_bytes() || kw == "maxLength".spec_bytes() {
        "string length out of range".spec_bytes()
    } else if kw == "minItems".spec_bytes() || kw == "maxItems".spec_bytes() {
        "array length out of range".spec_bytes()
    } else if kw == "minProperties".spec_bytes() || kw == "maxProperties".spec_bytes() {
        "property count out of range".spec_bytes()
    } else if kw == "multipleOf".spec_bytes() {
        "value is not a valid multiple".spec_bytes()
    } else if kw == "uniqueItems".spec_bytes() {
        "array has duplicate items".spec_bytes()
    } else if kw == "additionalProperties".spec_bytes() || kw
        == "unevaluatedProperties".spec_bytes() {
        "unexpected property".spec_bytes()
    } else if kw == "additionalItems".spec_bytes() {
        "extra item not allowed".spec_bytes()
    } else if kw == "unevaluatedItems".spec_bytes() {
        "unexpected item".spec_bytes()
    } else if kw == "anyOf".spec_bytes() || kw == "oneOf".spec_bytes() {
        "no matching schema".spec_bytes()
    } else if kw == "not".spec_bytes() {
        "value is disallowed".spec_bytes()
    } else if kw == "falseSchema".spec_bytes() {
        "no value allowed here".spec_bytes()
    } else if kw == "format".spec_bytes() {
        "value doesn't match expected format".spec_bytes()
    } else if kw == "contains".spec_bytes() {
        "no matching item found".spec_bytes()
    } else if kw == "propertyNames".spec_bytes() {
        "invalid property name".spec_bytes()
    } else if kw == "contentEncoding".spec_bytes() {
        "invalid content encoding".spec_bytes()
    } else if kw == "contentMediaType".spec_bytes() {
        "invalid content media type".spec_bytes()
    } else if kw == "$ref".spec_bytes() {
        "schema reference error".spec_bytes()
    } else {
        kw + " validation failed".spec_bytes()
    }
}

/// The fixed remediation hint of a keyword, for the kinds whose message is
/// not self-explanatory; the matched-multiple oneOf failure has a hint of
/// its own.
pub open spec fn help_spec(kw: Seq<u8>, multiple_matched: bool) -> Option<Seq<u8>> {
    if kw == "oneOf".spec_bytes() && multiple_matched {
        Some("The value must match exactly one schema, but it matches multiple.".spec_bytes())
    } else if kw == "required".spec_bytes() {
        Some("Add the missing property to this object.".spec_bytes())
    } else if kw == "additionalProperties".spec_bytes() || kw
        == "unevaluatedProperties".spec_bytes() {
        Some("Remove the property, or check for typos in the property name.".spec_bytes())
    } else if kw == "additionalItems".spec_bytes() || kw == "unevaluatedItems".spec_bytes() {
        Some("Remove the extra items, or update the schema to allow more.".spec_bytes())
    } else if kw == "anyOf".spec_bytes() {
        Some("The value must match at least one of the listed schemas.".spec_bytes())
    } else if kw == "oneOf".spec_bytes() {
        Some("The value must match exactly one of the listed schemas.".spec_bytes())
    } else if kw == "not".spec_bytes() {
        Some("The value is explicitly disallowed by a 'not' constraint in the schema.".spec_bytes())
    } else if kw == "falseSchema".spec_bytes() {
        Some("This location does not allow any value.".spec_bytes())
    } else if kw == "propertyNames".spec_bytes() {
        Some("One or more property names are invalid.".spec_bytes())
    } else if kw == "$ref".spec_bytes() {
        Some(
            "The schema could not resolve a reference. The schema itself may be broken.".spec_bytes(),
        )
    } else {
        None
    }
}

/// Whether the keyword bytes equal a literal.
fn kw_is(kw: &Vec<u8>, lit: &str) -> (r: bool)
    ensures
        r == (kw@ == lit.spec_bytes()),
{
    slices_eq(kw.as_slice(), lit.as_bytes())
}

/// The label for a violation of the given keyword.
pub fn format_validation_label(kw: &Vec<u8>, multiple_matched: bool) -> (r: Vec<u8>)
    ensures
        r@ == label_spec(kw@, multiple_matched),
{
    if multiple_matched && kw_is(kw, "oneOf") {
        lit_bytes("multiple schemas matched")
    } else if kw_is(kw, "type") {
        lit_bytes("unexpected type")
    } else if kw_is(kw, "required") {
        lit_bytes("required property missing here")
    } else if kw_is(kw, "enum") {
        lit_bytes("value not in allowed set")
    } else if kw_is(kw, "const") {
        lit_bytes("value doesn't match expected constant")
    } else if kw_is(kw, "pattern") {
        lit_bytes("value doesn't match pattern")
    } else if kw_is(kw, "minimum") || kw_is(kw, "maximum") || kw_is(kw, "exclusiveMinimum")
        || kw_is(kw, "exclusiveMaximum") {
        lit_bytes("value out of range")
    } else if kw_is(kw, "minLength") || kw_is(kw, "maxLength") {
        lit_bytes("string length out of range")
    } else if kw_is(kw, "minItems") || kw_is(kw, "maxItems") {
        lit_bytes("array length out of range")
    } else if kw_is(kw, "minProperties") || kw_is(kw, "maxProperties") {
        lit_bytes("property count out of range")
    } else if kw_is(kw, "multipleOf") {
        lit_bytes("value is not a valid multiple")
    } else if kw_is(kw, "uniqueItems") {
        lit_bytes("array has duplicate items")
    } else if kw_is(kw, "additionalProperties") || kw_is(kw, "unevaluatedProperties") {
        lit_bytes("unexpected property")
    } else if kw_is(kw, "additionalItems") {
        lit_bytes("extra item not allowed")
    } else if kw_is(kw, "unevaluatedItems") {
        lit_bytes("unexpected item")
    } else if kw_is(kw, "anyOf") || kw_is(kw, "oneOf") {
        lit_bytes("no matching schema")
    } else if kw_is(kw, "not") {
        lit_bytes("value is disallowed")
    } else if kw_is(kw, "falseSchema") {
        lit_bytes("no value allowed here")
    } else if kw_is(kw, "format") {
        lit_bytes("value doesn't match expected format")
    } else if kw_is(kw, "contains") {
        lit_bytes("no matching item found")
    } else if kw_is(kw, "propertyNames") {
        lit_bytes("invalid property name")
    } else if kw_is(kw, "contentEncoding") {
        lit_bytes("invalid content encoding")
    } else if kw_is(kw, "contentMediaType") {
        lit_bytes("invalid content media type")
    } else if kw_is(kw, "$ref") {
        lit_bytes("schema reference error")
    } else {
        let mut out = clone_bytes(kw);
        push_str_bytes(&mut out, " validation failed");
        out
    }
}

/// The remediation hint for a violation of the given keyword, when its
/// message is not self-explanatory.
pub fn format_validation_help(kw: &Vec<u8>, multiple_matched: bool) -> (r: Option<Vec<u8>>)
    ensures
        match (r, help_spec(kw@, multiple_matched)) {
            (Some(h), Some(s)) => h@ == s,
            (None, None) => true,
            _ => false,
        },
{
    if multiple_matched && kw_is(kw, "oneOf") {
        Some(lit_bytes("The value must match exactly one schema, but it matches multiple."))
    } else if kw_is(kw, "required") {
        Some(lit_bytes("Add the missing property to this object."))
    } else if kw_is(kw, "additionalProperties") || kw_is(kw, "unevaluatedProperties") {
        Some(lit_bytes("Remove the property, or check for typos in the property name."))
    } else if kw_is(kw, "additionalItems") || kw_is(kw, "unevaluatedItems") {
        Some(lit_bytes("Remove the extra items, or update the schema to allow more."))
    } else if kw_is(kw, "anyOf") {
        Some(lit_bytes("The value must match at least one of the listed schemas."))
    } else if kw_is(kw, "oneOf") {
        Some(lit_bytes("The value must match exactly one of the listed schemas."))
    } else if kw_is(kw, "not") {
        Some(lit_bytes("The value is explicitly disallowed by a 'not' constraint in the schema."))
    } else if kw_is(kw, "falseSchema") {
        Some(lit_bytes("This location does not allow any value."))
    } else if kw_is(kw, "propertyNames") {
        Some(lit_bytes("One or more property names are invalid."))
    } else if kw_is(kw, "$ref") {
        Some(lit_bytes("The schema could not resolve a reference. The schema itself may be broken."))
    } else {
        None
    }
}

/// The byte length of a span.
pub open spec fn span_len(s: Span) -> int {
    if s.end >= s.start {
        s.end - s.start
    } else {
        0
    }
}

/// A resolved location is faithful to its span: right line, right column,
/// right offset and length.
pub open spec fn loc_matches(
    loc: Option<SourceLocation>,
    span: Option<Span>,
    starts: Seq<usize>,
) -> bool {
    match (loc, span) {
        (Some(l), Some(s)) => {
            &&& l.line >= 1
            &&& is_line_hit(starts, s.start, l.line - 1)
            &&& l.column == s.start - starts[l.line - 1] + 1
            &&& l.offset == s.start
            &&& l.length == span_len(s)
        },
        (None, Some(s)) => s.start == usize::MAX,
        (None, None) => true,
        _ => false,
    }
}

/// Resolve a span to a 1-based line/column location.
fn location_of(line_starts: &Vec<usize>, span: &Option<Span>) -> (r: Option<SourceLocation>)
    requires
        valid_line_starts(line_starts@),
    ensures
        loc_matches(r, *span, line_starts@),
{
    match span {
        Some(s) => {
            if s.start == usize::MAX {
                // An offset at the very top of the address space admits no
                // column arithmetic; such a span stays unanchored.
                None
            } else {
                let (line, col) = offset_to_line_col(line_starts, s.start);
                let length = if s.end >= s.start {
                    s.end - s.start
                } else {
                    0
                };
                Some(SourceLocation { line, column: col, offset: s.start, length })
            }
        },
        None => None,
    }
}

/// A single diagnostic built from a violation the ordinary way: code from
/// the keyword, the engine's message, the span of the instance path.
pub open spec fn general_diag_ok(
    d: FileDiagnostic,
    ast: JsonAst,
    starts: Seq<usize>,
    v: RawViolation,
) -> bool {
    &&& d.code@ == schema_code_spec(v.keyword@)
    &&& d.message@ == v.message@
    &&& d.severity == Severity::Error
    &&& d.span == resolve_pointer_spec(ast, v.instance_path@)
    &&& loc_matches(d.location, d.span, starts)
    &&& (d.label matches Some(l) && l@ == label_spec(v.keyword@, v.multiple_matched))
    &&& (match (d.help, help_spec(v.keyword@, v.multiple_matched)) {
        (Some(h), Some(s)) => h@ == s,
        (None, None) => true,
        _ => false,
    })
    &&& (d.schema_path matches Some(p) && p@ == v.schema_path@)
}

/// The message of a fanned-out unexpected-property diagnostic.
pub open spec fn prop_message_spec(kw: Seq<u8>, name: Seq<u8>) -> Seq<u8> {
    (if kw == "unevaluatedProperties".spec_bytes() {
        "unevaluated".spec_bytes()
    } else {
        "additional".spec_bytes()
    }) + " property '".spec_bytes() + name + "' is not allowed".spec_bytes()
}

/// One diagnostic of an unexpected-property fan-out: anchored at the key
/// token of the named property, with a dedicated message.
pub open spec fn prop_diag_ok(
    d: FileDiagnostic,
    ast: JsonAst,
    starts: Seq<usize>,
    v: RawViolation,
    name: Vec<u8>,
) -> bool {
    &&& d.code@ == schema_code_spec(v.keyword@)
    &&& d.message@ == prop_message_spec(v.keyword@, name@)
    &&& d.severity == Severity::Error
    &&& d.span == resolve_pointer_key_spec(ast, v.instance_path@.push(PathSeg::Key(name)))
    &&& loc_matches(d.location, d.span, starts)
    &&& (d.label matches Some(l) && l@ == "unexpected property".spec_bytes())
    &&& (d.help matches Some(h) && h@
        == "Remove the property, or check for typos in the property name.".spec_bytes())
    &&& (d.schema_path matches Some(p) && p@ == v.schema_path@)
}

/// The message of a fanned-out extra-item diagnostic.
pub open spec fn item_message_spec(idx: int) -> Seq<u8> {
    "item at index ".spec_bytes() + dec_rep(idx) + " is not allowed".spec_bytes()
}

/// One diagnostic of an extra-item fan-out: anchored at the span of the
/// element at the given index.
pub open spec fn item_diag_ok(
    d: FileDiagnostic,
    ast: JsonAst,
    starts: Seq<usize>,
    v: RawViolation,
    idx: usize,
) -> bool {
    &&& d.code@ == schema_code_spec(v.keyword@)
    &&& d.message@ == item_message_spec(idx as int)
    &&& d.severity == Severity::Error
    &&& d.span == resolve_pointer_spec(ast, v.instance_path@.push(PathSeg::Index(idx)))
    &&& loc_matches(d.location, d.span, starts)
    &&& (d.label matches Some(l) && l@ == "extra item not allowed".spec_bytes())
    &&& (d.help matches Some(h) && h@
        == "Remove the extra items, or update the schema to allow more.".spec_bytes())
    &&& (d.schema_path matches Some(p) && p@ == v.schema_path@)
}

/// The block of diagnostics one violation produces: a per-property fan-out,
/// a per-index fan-out over the items past the limit (falling back to one
/// whole-array diagnostic when the instance path does not land on an array
/// with items past the limit), or a single ordinary diagnostic.
pub open spec fn is_block_for(
    ast: JsonAst,
    starts: Seq<usize>,
    v: RawViolation,
    block: Seq<FileDiagnostic>,
) -> bool {
    match v.detail {
        ViolationDetail::ExtraProperties(names) => {
            &&& block.len() == names@.len()
            &&& forall|j: int|
                0 <= j < block.len() ==> prop_diag_ok(#[trigger] block[j], ast, starts, v, names@[j])
        },
        ViolationDetail::ExtraItems(limit) => {
            match array_len_spec(ast, v.instance_path@) {
                Some(n) => if n > limit {
                    &&& block.len() == n - limit
                    &&& forall|j: int|
                        0 <= j < block.len() ==> item_diag_ok(
                            #[trigger] block[j],
                            ast,
                            starts,
                            v,
                            (limit + j) as usize,
                        )
                } else {
                    block.len() == 1 && general_diag_ok(block[0], ast, starts, v)
                },
                None => block.len() == 1 && general_diag_ok(block[0], ast, starts, v),
            }
        },
        ViolationDetail::General => block.len() == 1 && general_diag_ok(block[0], ast, starts, v),
    }
}

/// A diagnostic list realizes a violation list: it splits into consecutive
/// blocks, one per violation, in order.
pub open spec fn is_diags_for(
    ast: JsonAst,
    starts: Seq<usize>,
    vs: Seq<RawViolation>,
    out: Seq<FileDiagnostic>,
) -> bool
    decreases vs.len(),
{
    if vs.len() == 0 {
        out.len() == 0
    } else {
        exists|k: int|
            0 <= k <= out.len() && is_diags_for(ast, starts, vs.drop_last(), #[trigger] out.take(k))
                && is_block_for(ast, starts, vs.last(), out.skip(k))
    }
}

/// Build the ordinary single diagnostic for a violation.
fn make_diagnostic(ast: &JsonAst, line_starts: &Vec<usize>, v: &RawViolation) -> (d:
    FileDiagnostic)
    requires
        valid_line_starts(line_starts@),
    ensures
        general_diag_ok(d, *ast, line_starts@, *v),
{
    let span = resolve_pointer(ast, &v.instance_path);
    let location = location_of(line_starts, &span);
    let mut code = lit_bytes("schema(");
    push_bytes(&mut code, v.keyword.as_slice());
    push_str_bytes(&mut code, ")");
    FileDiagnostic {
        code,
        message: clone_bytes(&v.message),
        severity: Severity::Error,
        span,
        location,
        label: Some(format_validation_label(&v.keyword, v.multiple_matched)),
        help: format_validation_help(&v.keyword, v.multiple_matched),
        schema_path: Some(clone_bytes(&v.schema_path)),
    }
}

/// Map the engine's violations to positioned diagnostics: the two fan-out
/// keyword kinds produce one diagnostic per offending property or item, and
/// every other violation produces exactly one diagnostic from its own
/// instance-path span.
pub fn map_validation_errors(
    ast: &JsonAst,
    line_starts: &Vec<usize>,
    violations: Vec<RawViolation>,
) -> (out: Vec<FileDiagnostic>)
    requires
        valid_line_starts(line_starts@),
    ensures
        is_diags_for(*ast, line_starts@, violations@, out@),
{
    let mut out: Vec<FileDiagnostic> = Vec::new();
    let mut rest = violations;
    let ghost all = rest@;
    let total = rest.len();
    let mut i: usize = 0;
    proof {
        assert(rest@ =~= all.skip(0));
        assert(is_diags_for(*ast, line_starts@, all.take(0), out@));
    }
    while rest.len() > 0
        invariant
            valid_line_starts(line_starts@),
            all.len() == total,
            i + rest@.len() == all.len(),
            rest@ == all.skip(i as int),
            is_diags_for(*ast, line_starts@, all.take(i as int), out@),
        decreases rest@.len(),
    {
        proof {
            assert(all.skip(i as int)[0] == all[i as int]);
        }
        let ghost pre_out = out@;
        let ghost start = out@.len();
        let v = rest.remove(0);
        proof {
            assert(rest@ =~= all.skip(i + 1));
            assert(v == all[i as int]);
        }
        match v {
            RawViolation {
                keyword,
                message,
                instance_path,
                schema_path,
                detail: ViolationDetail::General,
                multiple_matched,
            } => {
                let v2 = RawViolation {
                    keyword,
                    message,
                    instance_path,
                    schema_path,
                    detail: ViolationDetail::General,
                    multiple_matched,
                };
                proof {
                    assert(v2 == all[i as int]);
                }
                let d = make_diagnostic(ast, line_starts, &v2);
                out.push(d);
                proof {
                    assert(out@.skip(start as int) =~= seq![out@.last()]);
                }
            },
            RawViolation {
                keyword,
                message,
                instance_path,
                schema_path,
                detail: ViolationDetail::ExtraProperties(names),
                multiple_matched: _,
            } => {
                let ghost name_views = names@;
                proof {
                    assert(all[i as int].keyword == keyword);
                    assert(all[i as int].schema_path == schema_path);
                    assert(all[i as int].instance_path == instance_path);
                    assert(all[i as int].detail == ViolationDetail::ExtraProperties(names));
                }
                let mut path = instance_path;
                let ghost base = path@;
                let mut namerest = names;
                let nnames = namerest.len();
                let mut j: usize = 0;
                while namerest.len() > 0
                    invariant
                        valid_line_starts(line_starts@),
                        name_views.len() == nnames,
                        j + namerest@.len() == nnames,
                        namerest@ == name_views.skip(j as int),
                        path@ == base,
                        base == all[i as int].instance_path@,
                        keyword@ == all[i as int].keyword@,
                        schema_path@ == all[i as int].schema_path@,
                        out@.len() == start + j,
                        out@.take(start as int) == pre_out,
                        forall|q: int|
                            0 <= q < j ==> prop_diag_ok(
                                #[trigger] out@[start + q],
                                *ast,
                                line_starts@,
                                all[i as int],
                                name_views[q],
                            ),
                    decreases namerest@.len(),
                {
                    proof {
                        assert(name_views.skip(j as int)[0] == name_views[j as int]);
                    }
                    let name = namerest.remove(0);
                    proof {
                        assert(namerest@ =~= name_views.skip(j + 1));
                        assert(name == name_views[j as int]);
                    }
                    let mut msg = if kw_is(&keyword, "unevaluatedProperties") {
                        lit_bytes("unevaluated")
                    } else {
                        lit_bytes("additional")
                    };
                    push_str_bytes(&mut msg, " property '");
                    push_bytes(&mut msg, name.as_slice());
                    push_str_bytes(&mut msg, "' is not allowed");
                    path.push(PathSeg::Key(name));
                    let span = resolve_pointer_key(ast, &path);
                    let location = location_of(line_starts, &span);
                    let mut code = lit_bytes("schema(");
                    push_bytes(&mut code, keyword.as_slice());
                    push_str_bytes(&mut code, ")");
                    let d = FileDiagnostic {
                        code,
                        message: msg,
                        severity: Severity::Error,
                        span,
                        location,
                        label: Some(lit_bytes("unexpected property")),
                        help: Some(
                            lit_bytes(
                                "Remove the property, or check for typos in the property name.",
                            ),
                        ),
                        schema_path: Some(clone_bytes(&schema_path)),
                    };
                    out.push(d);
                    let _ = path.pop();
                    proof {
                        assert(path@ =~= base);
                        assert(out@.take(start as int) =~= pre_out);
                        assert(prop_diag_ok(
                            out@[start + j],
                            *ast,
                            line_starts@,
                            all[i as int],
                            name_views[j as int],
                        ));
                    }
                    j = j + 1;
                }
                proof {
                    assert(out@.skip(start as int).len() == name_views.len());
                    assert(forall|q: int|
                        0 <= q < name_views.len() ==> #[trigger] out@.skip(start as int)[q] == out@[
                            start + q
                        ]);
                }
            },
            RawViolation {
                keyword,
                message,
                instance_path,
                schema_path,
                detail: ViolationDetail::ExtraItems(limit),
                multiple_matched,
            } => {
                let alen = array_len_at(ast, &instance_path);
                let fanout = match alen {
                    Some(n) => n > limit,
                    None => false,
                };
                if !fanout {
                    let v2 = RawViolation {
                        keyword,
                        message,
                        instance_path,
                        schema_path,
                        detail: ViolationDetail::ExtraItems(limit),
                        multiple_matched,
                    };
                    proof {
                        assert(v2 == all[i as int]);
                    }
                    let d = make_diagnostic(ast, line_starts, &v2);
                    out.push(d);
                    proof {
                        assert(out@.skip(start as int) =~= seq![out@.last()]);
                    }
                } else {
                    let n = match alen {
                        Some(n) => n,
                        None => unreached(),
                    };
                    proof {
                        assert(all[i as int].keyword == keyword);
                        assert(all[i as int].schema_path == schema_path);
                        assert(all[i as int].instance_path == instance_path);
                    }
                    let mut path = instance_path;
                    let ghost base = path@;
                    let mut idx = limit;
                    while idx < n
                        invariant
                            valid_line_starts(line_starts@),
                            limit <= idx <= n,
                            array_len_spec(*ast, all[i as int].instance_path@) == Some(n as int),
                            n > limit,
                            path@ == base,
                            base == all[i as int].instance_path@,
                            keyword@ == all[i as int].keyword@,
                            schema_path@ == all[i as int].schema_path@,
                            out@.len() == start + (idx - limit),
                            out@.take(start as int) == pre_out,
                            forall|q: int|
                                0 <= q < idx - limit ==> item_diag_ok(
                                    #[trigger] out@[start + q],
                                    *ast,
                                    line_starts@,
                                    all[i as int],
                                    (limit + q) as usize,
                                ),
                        decreases n - idx,
                    {
                        let mut msg = lit_bytes("item at index ");
                        let digits = usize_to_dec(idx);
                        push_bytes(&mut msg, digits.as_slice());
                        push_str_bytes(&mut msg, " is not allowed");
                        path.push(PathSeg::Index(idx));
                        let span = resolve_pointer(ast, &path);
                        let location = location_of(line_starts, &span);
                        let mut code = lit_bytes("schema(");
                        push_bytes(&mut code, keyword.as_slice());
                        push_str_bytes(&mut code, ")");
                        let d = FileDiagnostic {
                            code,
                            message: msg,
                            severity: Severity::Error,
                            span,
                            location,
                            label: Some(lit_bytes("extra item not allowed")),
                            help: Some(
                                lit_bytes(
                                    "Remove the extra items, or update the schema to allow more.",
                                ),
                            ),
                            schema_path: Some(clone_bytes(&schema_path)),
                        };
                        out.push(d);
                        let _ = path.pop();
                        proof {
                            assert(path@ =~= base);
                            assert(out@.take(start as int) =~= pre_out);
                            assert(item_diag_ok(
                                out@[start + (idx - limit)],
                                *ast,
                                line_starts@,
                                all[i as int],
                                idx,
                            ));
                        }
                        idx = idx + 1;
                    }
                    proof {
                        assert(out@.skip(start as int).len() == n - limit);
                        assert(forall|q: int|
                            0 <= q < n - limit ==> #[trigger] out@.skip(start as int)[q] == out@[
                                start + q
                            ]);
                    }
                }
            },
        }
        proof {
            assert(all.take(i + 1).drop_last() =~= all.take(i as int));
            assert(all.take(i + 1).last() == all[i as int]);
            assert(out@.take(start as int) =~= pre_out);
            assert(is_block_for(*ast, line_starts@, all[i as int], out@.skip(start as int)));
            assert(is_diags_for(*ast, line_starts@, all.take(i + 1), out@));
        }
        i = i + 1;
    }
    proof {
        assert(all.take(all.len() as int) =~= all);
    }
    out
}

/// The schema that governs a document, in precedence order: the explicit
/// override (a flag or a forced schema) first; then the document's own
/// `$schema` member, resolved against the document's directory; then the
/// configured glob-to-schema mapping; nothing when none applies.
pub open spec fn choose_spec(
    flag: Option<SourceModel>,
    doc_value: JsonValue,
    file_path: Seq<u8>,
    mapped: Option<SourceModel>,
) -> Option<SourceModel> {
    match flag {
        Some(k) => Some(k),
        None => match schema_field_spec(doc_value) {
            Some(r) => Some(resolve_schema_ref_spec(r, parent_dir_spec(file_path))),
            None => mapped,
        },
    }
}

/// Choose the schema source that governs a document: the explicit override
/// wins; failing that, the document's own `$schema` member; failing that,
/// the configured mapping's result.
///
/// File sources come out normalized lexically. A caller that can reach the
/// filesystem canonicalizes the chosen file source when its target exists —
/// collapsing symlink spellings to one cache key — before the cache or the
/// validator sees it.
pub fn choose_schema_source(
    flag: Option<&SchemaSource>,
    doc_value: &JsonValue,
    file_path: &[u8],
    mapped: Option<&SchemaSource>,
) -> (r: Option<SchemaSource>)
    ensures
        match (r, choose_spec(
            match flag {
                Some(s) => Some(s@),
                None => None,
            },
            *doc_value,
            file_path@,
            match mapped {
                Some(s) => Some(s@),
                None => None,
            },
        )) {
            (Some(s), Some(k)) => s@ == k,
            (None, None) => true,
            _ => false,
        },
{
    match flag {
        Some(s) => Some(s.duplicate()),
        None => {
            match crate::json::extract_schema_field(doc_value) {
                Some(r) => {
                    let base = crate::source::parent_dir(file_path);
                    Some(crate::source::resolve_schema_ref(r.as_slice(), base.as_slice()))
                },
                None => {
                    match mapped {
                        Some(s) => Some(s.duplicate()),
                        None => None,
                    }
                },
            }
        },
    }
}

/// The schema source named by a document's own `$schema` member, if any:
/// relative references resolve against the document's directory.
pub fn resolve_schema_from_value(
    parsed_value: &JsonValue,
    file_path: &[u8],
) -> (r: Option<SchemaSource>)
    ensures
        match (r, schema_field_spec(*parsed_value)) {
            (Some(s), Some(reference)) => s@ == resolve_schema_ref_spec(
                reference,
                parent_dir_spec(file_path@),
            ),
            (None, None) => true,
            _ => false,
        },
{
    match crate::json::extract_schema_field(parsed_value) {
        Some(reference) => {
            let base = crate::source::parent_dir(file_path);
            Some(crate::source::resolve_schema_ref(reference.as_slice(), base.as_slice()))
        },
        None => None,
    }
}

/// The byte span of the document's own `$schema` member value, when the
/// document is an object that has one.
pub open spec fn schema_member_span(ast: JsonAst) -> Option<Span> {
    match ast {
        JsonAst::Object { members, .. } => match crate::json::ast_member_index(
            members@,
            "$schema".spec_bytes(),
        ) {
            Some(i) => Some(crate::json::span_of(members@[i].value)),
            None => None,
        },
        _ => None,
    }
}

/// Find the byte span of the document's `$schema` member value.
fn find_schema_member_span(ast: &JsonAst) -> (r: Option<Span>)
    ensures
        r == schema_member_span(*ast),
{
    let key = lit_bytes("$schema");
    match ast {
        JsonAst::Object { members, .. } => {
            match crate::json::find_ast_member(members, &key) {
                Some(i) => Some(members[i].value.span()),
                None => None,
            }
        },
        _ => None,
    }
}

/// The display text of a schema source: the file path or the URL.
pub open spec fn source_text_spec(k: SourceModel) -> Seq<u8> {
    match k {
        SourceModel::FileKey(p) => p,
        SourceModel::UrlKey(u) => u,
    }
}

/// The display text of a schema source.
pub fn source_text(s: &SchemaSource) -> (r: Vec<u8>)
    ensures
        r@ == source_text_spec(s@),
{
    match s {
        SchemaSource::File(p) => clone_bytes(p),
        SchemaSource::Url(u) => clone_bytes(u),
    }
}

/// Run the load-parse-compile pipeline on loaded schema bytes: a load error
/// is terminal; otherwise the bytes are parsed for the engine and compiled
/// with reference retrieval disabled, so a schema whose `$ref` reaches
/// outside its own value is a compile error here. A caller that wants such
/// references resolved compiles through its own retriever and builds the
/// prepared result directly. The accumulated warnings and disk-cache
/// provenance ride along, and `schema_value` (the caller's own reading of
/// the schema) is kept whenever the bytes parsed.
pub fn prepare_schema(
    source: &SchemaSource,
    loaded: Result<(Vec<u8>, Vec<Warning>, Option<CacheOutcome>), SchemaError>,
    schema_value: Option<JsonValue>,
) -> (r: PreparedSchema)
    ensures
        match loaded {
            Err(e) => r.compiled matches Err(e2) && e2@ == e@ && r.warnings@.len() == 0 && r.outcome
                is None && r.schema_value is None,
            Ok(l) => {
                &&& r.warnings == l.1
                &&& r.outcome == l.2
                &&& (r.compiled matches Err(e2) && e2@ is ParseAt <==> !crate::engine::json_parses(
                    l.0@,
                ))
                &&& match r.compiled {
                    Ok(_) => r.schema_value == schema_value,
                    Err(e2) => match e2@ {
                        crate::cache::ErrorModel::ParseAt { path, .. } => path == source_text_spec(
                            source@,
                        ) && r.schema_value is None,
                        crate::cache::ErrorModel::CompileWith { .. } => r.schema_value
                            == schema_value,
                        _ => false,
                    },
                }
            },
        },
{
    match loaded {
        Err(e) => PreparedSchema {
            compiled: Err(e),
            schema_value: None,
            warnings: Vec::new(),
            outcome: None,
        },
        Ok((content, warnings, outcome)) => {
            match crate::engine::parse_json_value(content.as_slice()) {
                Err(reason) => PreparedSchema {
                    compiled: Err(
                        SchemaError::ParseError { path: source_text(source), reason },
                    ),
                    schema_value: None,
                    warnings,
                    outcome,
                },
                Ok(doc) => {
                    match crate::engine::compile_schema(&doc) {
                        Err(reason) => PreparedSchema {
                            compiled: Err(SchemaError::CompileError(reason)),
                            schema_value,
                            warnings,
                            outcome,
                        },
                        Ok(v) => PreparedSchema {
                            compiled: Ok(v),
                            schema_value,
                            warnings,
                            outcome,
                        },
                    }
                },
            }
        },
    }
}

/// One diagnostic of a document parse failure.
pub open spec fn parse_diag_ok(d: FileDiagnostic, e: ParseError, starts: Seq<usize>) -> bool {
    &&& d.code@ == "parse(syntax)".spec_bytes()
    &&& d.message@ == e.message@
    &&& d.severity == Severity::Error
    &&& d.span == e.range
    &&& loc_matches(d.location, e.range, starts)
    &&& (d.label matches Some(l) && l@ == "syntax error".spec_bytes())
    &&& d.help is None
    &&& d.schema_path is None
}

/// The single diagnostic of a schema-level failure. When the schema was
/// chosen by the document's own `$schema` member, the diagnostic anchors at
/// that member's value span and shows the bare reason (the location is
/// already visible in the source snippet); an override has no in-document
/// token to anchor at, so the diagnostic is unanchored and carries the full
/// message.
pub open spec fn schema_error_diag_ok(
    d: FileDiagnostic,
    ast: JsonAst,
    starts: Seq<usize>,
    e: crate::cache::ErrorModel,
    from_document: bool,
) -> bool {
    &&& d.code@ == (if e is CompileWith {
        "schema(compile)".spec_bytes()
    } else {
        "schema(load)".spec_bytes()
    })
    &&& d.severity == Severity::Error
    &&& d.span == (if from_document {
        schema_member_span(ast)
    } else {
        None
    })
    &&& loc_matches(d.location, d.span, starts)
    &&& (match d.span {
        Some(_) => d.message@ == reason_of(e) && (d.label matches Some(l) && l@
            == "schema referenced here".spec_bytes()),
        None => d.message@ == error_message_spec(e) && d.label is None,
    })
    &&& d.help is None
    &&& d.schema_path is None
}

/// Validate one document against its effective schema.
///
/// The document arrives parsed (or failed); the caller has already loaded
/// and prepared the schema pipeline when the cache is cold. Parse failures
/// become syntax diagnostics. A missing schema is a skip, or a dedicated
/// finding in strict mode. A schema that cannot be loaded or compiled is a
/// tool error anchored at the document's `$schema` member when that member
/// chose it. Otherwise the engine runs and its violations are mapped to
/// positioned diagnostics; warnings and the disk-cache outcome reach only
/// the caller whose call compiled the schema.
pub fn validate_file(
    file_path: &[u8],
    line_starts: &Vec<usize>,
    parsed: Result<ParsedDoc, Vec<ParseError>>,
    effective: Option<&SchemaSource>,
    schema_from_document: bool,
    cache: &mut SchemaCache,
    prepared: Option<PreparedSchema>,
    strict: bool,
) -> (r: (FileResult, Vec<Warning>, Option<CacheOutcome>))
    requires
        valid_line_starts(line_starts@),
        old(cache).wf(),
        (match effective {
            Some(s) => old(cache).has(s@) || prepared is Some,
            None => true,
        }),
    ensures
        final(cache).wf(),
        r.0.path@ == file_path@,
        (match parsed {
            Err(errs) => {
                &&& final(cache).slots@ == old(cache).slots@
                &&& !r.0.valid
                &&& !r.0.skipped
                &&& !r.0.tool_error
                &&& r.0.errors@.len() == errs@.len()
                &&& (forall|j: int|
                    0 <= j < errs@.len() ==> parse_diag_ok(
                        #[trigger] r.0.errors@[j],
                        errs@[j],
                        line_starts@,
                    ))
                &&& r.1@.len() == 0
                &&& r.2 is None
            },
            Ok(p) => {
                match effective {
                    None => {
                        &&& final(cache).slots@ == old(cache).slots@
                        &&& r.1@.len() == 0
                        &&& r.2 is None
                        &&& if strict {
                            &&& !r.0.valid
                            &&& !r.0.skipped
                            &&& !r.0.tool_error
                            &&& r.0.errors@.len() == 1
                            &&& r.0.errors@[0].code@ == "no-schema".spec_bytes()
                            &&& r.0.errors@[0].message@ == "no schema found".spec_bytes()
                            &&& r.0.errors@[0].span is None
                            &&& (r.0.errors@[0].help matches Some(h) && h@
                                == "Add a \"$schema\" field to the file, configure a schema mapping in jvl.json, or use --schema.".spec_bytes())
                        } else {
                            r.0.skipped && r.0.valid && r.0.errors@.len() == 0 && !r.0.tool_error
                        }
                    },
                    Some(src) => {
                        let k = src@;
                        &&& final(cache).has(k)
                        &&& (forall|k2: SourceModel|
                            k2 != k ==> (#[trigger] final(cache).has(k2) == old(cache).has(k2)))
                        &&& (old(cache).has(k) ==> final(cache).slots@ == old(cache).slots@)
                        &&& (!old(cache).has(k) ==> crate::cache::slot_model(*final(cache),
                            k,
                        ).compiled == prepared->0.compiled && crate::cache::slot_model(
                            *final(cache),
                            k,
                        ).schema_value == prepared->0.schema_value)
                        &&& match crate::cache::slot_model(*final(cache), k).compiled {
                            Err(stored) => {
                                &&& r.0.tool_error
                                &&& !r.0.valid
                                &&& !r.0.skipped
                                &&& r.0.errors@.len() == 1
                                &&& schema_error_diag_ok(
                                    r.0.errors@[0],
                                    p.ast,
                                    line_starts@,
                                    stored@,
                                    schema_from_document,
                                )
                                &&& r.1@.len() == 0
                                &&& r.2 is None
                            },
                            Ok(_) => {
                                &&& !r.0.tool_error
                                &&& !r.0.skipped
                                &&& (r.0.valid ==> r.0.errors@.len() == 0)
                                &&& (!r.0.valid ==> exists|vs: Seq<RawViolation>|
                                    vs.len() > 0 && is_diags_for(
                                        p.ast,
                                        line_starts@,
                                        vs,
                                        r.0.errors@,
                                    ))
                                &&& (old(cache).has(k) ==> r.1@.len() == 0 && r.2 is None)
                                &&& (!old(cache).has(k) ==> r.1 == prepared->0.warnings && r.2
                                    == prepared->0.outcome)
                            },
                        }
                    },
                }
            },
        }),
{
    let p = match parsed {
        Err(errs) => {
            let ghost all_errs = errs@;
            let mut diags: Vec<FileDiagnostic> = Vec::new();
            let mut rest = errs;
            let total = rest.len();
            let mut j: usize = 0;
            proof {
                assert(rest@ =~= all_errs.skip(0));
            }
            while rest.len() > 0
                invariant
                    valid_line_starts(line_starts@),
                    all_errs.len() == total,
                    j + rest@.len() == all_errs.len(),
                    rest@ == all_errs.skip(j as int),
                    diags@.len() == j,
                    forall|q: int|
                        0 <= q < j ==> parse_diag_ok(
                            #[trigger] diags@[q],
                            all_errs[q],
                            line_starts@,
                        ),
                decreases rest@.len(),
            {
                proof {
                    assert(all_errs.skip(j as int)[0] == all_errs[j as int]);
                }
                let e = rest.remove(0);
                proof {
                    assert(rest@ =~= all_errs.skip(j + 1));
                }
                let location = location_of(line_starts, &e.range);
                let d = FileDiagnostic {
                    code: lit_bytes("parse(syntax)"),
                    message: e.message,
                    severity: Severity::Error,
                    span: e.range,
                    location,
                    label: Some(lit_bytes("syntax error")),
                    help: None,
                    schema_path: None,
                };
                diags.push(d);
                j = j + 1;
            }
            proof {
                assert(all_errs.skip(all_errs.len() as int) =~= Seq::<ParseError>::empty());
            }
            let result = FileResult::invalid(file_path, diags);
            return (result, Vec::new(), None);
        },
        Ok(p) => p,
    };

    let effective = match effective {
        None => {
            if strict {
                let d = FileDiagnostic {
                    code: lit_bytes("no-schema"),
                    message: lit_bytes("no schema found"),
                    severity: Severity::Error,
                    span: None,
                    location: None,
                    label: None,
                    help: Some(
                        lit_bytes(
                            "Add a \"$schema\" field to the file, configure a schema mapping in jvl.json, or use --schema.",
                        ),
                    ),
                    schema_path: None,
                };
                let mut diags: Vec<FileDiagnostic> = Vec::new();
                diags.push(d);
                let result = FileResult::invalid(file_path, diags);
                return (result, Vec::new(), None);
            }
            return (FileResult::skipped(file_path), Vec::new(), None);
        },
        Some(s) => s,
    };

    let from_document = schema_from_document;
    let (compiled, warnings, outcome) = cache.get_or_compile(effective, prepared);
    match compiled {
        Err(e) => {
            let span = if from_document {
                find_schema_member_span(&p.ast)
            } else {
                None
            };
            let location = location_of(line_starts, &span);
            let has_span = span.is_some();
            let code = if e.is_compile_error() {
                lit_bytes("schema(compile)")
            } else {
                lit_bytes("schema(load)")
            };
            let message = if has_span {
                clone_bytes(e.reason())
            } else {
                e.message()
            };
            let label = if has_span {
                Some(lit_bytes("schema referenced here"))
            } else {
                None
            };
            let d = FileDiagnostic {
                code,
                message,
                severity: Severity::Error,
                span,
                location,
                label,
                help: None,
                schema_path: None,
            };
            let mut diags: Vec<FileDiagnostic> = Vec::new();
            diags.push(d);
            let result = FileResult::tool_error(file_path, diags);
            (result, Vec::new(), None)
        },
        Ok(v) => {
            let violations = run_validator(v, &p.doc);
            if violations.len() == 0 {
                (FileResult::valid(file_path), warnings, outcome)
            } else {
                let ghost vs = violations@;
                let n_violations = violations.len();
                let diags = map_validation_errors(&p.ast, line_starts, violations);
                proof {
                    if diags@.len() == 0 {
                        lemma_diags_nonempty(p.ast, line_starts@, vs, diags@);
                    }
                }
                if diags.len() == 0 {
                    // Every violation fanned out to zero diagnostics cannot
                    // happen: each block holds at least one entry.
                    (FileResult::valid(file_path), warnings, outcome)
                } else {
                    (FileResult::invalid(file_path, diags), warnings, outcome)
                }
            }
        },
    }
}

/// A non-empty violation list never maps to an empty diagnostic list: every
/// violation's block holds at least one diagnostic, except a property
/// fan-out with no names — which the engine never reports — so emptiness of
/// the output implies every violation was such a degenerate fan-out.
proof fn lemma_diags_nonempty(
    ast: JsonAst,
    starts: Seq<usize>,
    vs: Seq<RawViolation>,
    out: Seq<FileDiagnostic>,
)
    requires
        is_diags_for(ast, starts, vs, out),
        vs.len() > 0,
        out.len() == 0,
    ensures
        is_block_for(ast, starts, vs.last(), Seq::<FileDiagnostic>::empty()),
{
    let k = choose|k: int|
        0 <= k <= out.len() && is_diags_for(ast, starts, vs.drop_last(), #[trigger] out.take(k))
            && is_block_for(ast, starts, vs.last(), out.skip(k));
    assert(out.skip(k) =~= Seq::<FileDiagnostic>::empty());
}

} // verus!
