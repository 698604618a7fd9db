//! Diagnostics and per-file results.
//!
//! All human-readable text is carried as UTF-8 bytes; rendering to a
//! terminal or an editor happens outside the library.

use vstd::prelude::*;

use crate::bytestr::bytes_of_slice;
use crate::json::Span;

verus! {

/// The severity of a diagnostic.
#[derive(Clone, Copy, Debug, PartialEq, Eq, Structural)]
pub enum Severity {
    Error,
    Warning,
}

/// Resolved source position of a diagnostic: 1-based line and column, plus
/// the byte offset and length of the underlined span.
#[derive(Clone, Copy, Debug, PartialEq, Eq, Structural)]
pub struct SourceLocation {
    pub line: usize,
    pub column: usize,
    pub offset: usize,
    pub length: usize,
}

/// A structured diagnostic for one finding in one file.
#[derive(Debug)]
pub struct FileDiagnostic {
    /// Machine-readable code, such as `schema(type)` or `parse(syntax)`.
    pub code: Vec<u8>,
    /// Human-readable message.
    pub message: Vec<u8>,
    pub severity: Severity,
    /// Byte span of the offending text, when one could be resolved.
    pub span: Option<Span>,
    /// Line/column form of `span`.
    pub location: Option<SourceLocation>,
    /// Short label to print beside the underlined span.
    pub label: Option<Vec<u8>>,
    /// Optional remediation hint.
    pub help: Option<Vec<u8>>,
    /// JSON Pointer of the schema keyword that produced the finding.
    pub schema_path: Option<Vec<u8>>,
}

/// A warning not tied to a specific file.
#[derive(Debug)]
pub struct Warning {
    pub code: Vec<u8>,
    pub message: Vec<u8>,
}

/// The result of checking a single file.
#[derive(Debug)]
pub struct FileResult {
    pub path: Vec<u8>,
    pub valid: bool,
    pub errors: Vec<FileDiagnostic>,
    pub skipped: bool,
    /// True when this result is a tool failure (unreadable file, unloadable
    /// or uncompilable schema) rather than a validation failure.
    pub tool_error: bool,
}

impl FileResult {
    /// A file that validated cleanly.
    pub fn valid(path: &[u8]) -> (r: FileResult)
        ensures
            r.path@ == path@,
            r.valid,
            r.errors@.len() == 0,
            !r.skipped,
            !r.tool_error,
    {
        FileResult {
            path: bytes_of_slice(path),
            valid: true,
            errors: Vec::new(),
            skipped: false,
            tool_error: false,
        }
    }

    /// A file that was not checked because no schema applied to it.
    pub fn skipped(path: &[u8]) -> (r: FileResult)
        ensures
            r.path@ == path@,
            r.valid,
            r.errors@.len() == 0,
            r.skipped,
            !r.tool_error,
    {
        FileResult {
            path: bytes_of_slice(path),
            valid: true,
            errors: Vec::new(),
            skipped: true,
            tool_error: false,
        }
    }

    /// A file with one or more validation findings.
    pub fn invalid(path: &[u8], errors: Vec<FileDiagnostic>) -> (r: FileResult)
        ensures
            r.path@ == path@,
            !r.valid,
            r.errors == errors,
            !r.skipped,
            !r.tool_error,
    {
        FileResult {
            path: bytes_of_slice(path),
            valid: false,
            errors,
            skipped: false,
            tool_error: false,
        }
    }

    /// A file whose check failed for tool-level reasons: its findings count
    /// toward exit code 2, not 1.
    pub fn tool_error(path: &[u8], errors: Vec<FileDiagnostic>) -> (r: FileResult)
        ensures
            r.path@ == path@,
            !r.valid,
            r.errors == errors,
            !r.skipped,
            r.tool_error,
    {
        FileResult {
            path: bytes_of_slice(path),
            valid: false,
            errors,
            skipped: false,
            tool_error: true,
        }
    }
}

} // verus!
