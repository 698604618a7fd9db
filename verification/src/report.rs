//! Run-level summary, exit-code policy, and number formatting.

use vstd::prelude::*;
use vstd::string::StringSliceAdditionalSpecFns;

use crate::bytestr::{dec_rep, push_str_bytes, u64_to_dec};
use crate::diagnostic::FileResult;
use crate::cache::CacheOutcome;

verus! {

/// Summary statistics for one batch run. Durations are in milliseconds.
#[derive(Clone, Copy, Debug)]
pub struct Summary {
    pub checked_files: usize,
    pub valid_files: usize,
    pub invalid_files: usize,
    pub skipped_files: usize,
    pub total_errors: usize,
    pub total_warnings: usize,
    pub duration_ms: u64,
    pub jobs: usize,
    pub has_tool_error: bool,
}

/// Output format of the batch front end.
#[derive(Clone, Copy, Debug, PartialEq, Eq, Structural)]
pub enum Format {
    Human,
    Json,
}

/// How a file's validation time divides between schema work and document
/// work, in milliseconds.
#[derive(Clone, Copy, Debug)]
pub struct TimingBreakdown {
    /// Time spent loading and compiling the schema.
    pub compile_ms: u64,
    /// Time spent validating the document against the compiled schema.
    pub validate_ms: u64,
}

/// Per-file diagnostic detail collected in verbose mode.
#[derive(Debug)]
pub struct VerboseFileInfo {
    /// Display text of the resolved schema (URL or path); empty if none.
    pub schema: Vec<u8>,
    /// How the schema was resolved: `flag`, `config`, `inline $schema`, or
    /// empty.
    pub schema_via: Vec<u8>,
    /// Disk-cache outcome for URL schemas.
    pub cache: Option<CacheOutcome>,
    /// Time spent on this file, in milliseconds.
    pub duration_ms: u64,
    /// How the time divided between schema and document work, when known.
    pub timing: Option<TimingBreakdown>,
}

/// How many results were actually checked (not skipped).
pub open spec fn count_checked(rs: Seq<FileResult>) -> int
    decreases rs.len(),
{
    if rs.len() == 0 {
        0
    } else {
        count_checked(rs.drop_last()) + if rs.last().skipped {
            0int
        } else {
            1int
        }
    }
}

/// How many results were skipped.
pub open spec fn count_skipped(rs: Seq<FileResult>) -> int
    decreases rs.len(),
{
    if rs.len() == 0 {
        0
    } else {
        count_skipped(rs.drop_last()) + if rs.last().skipped {
            1int
        } else {
            0int
        }
    }
}

/// How many results were checked and found invalid.
pub open spec fn count_invalid(rs: Seq<FileResult>) -> int
    decreases rs.len(),
{
    if rs.len() == 0 {
        0
    } else {
        count_invalid(rs.drop_last()) + if !rs.last().valid && !rs.last().skipped {
            1int
        } else {
            0int
        }
    }
}

/// The total number of findings across all results.
pub open spec fn count_errors(rs: Seq<FileResult>) -> int
    decreases rs.len(),
{
    if rs.len() == 0 {
        0
    } else {
        count_errors(rs.drop_last()) + rs.last().errors.len()
    }
}

/// Whether any result is a tool error.
pub open spec fn any_tool_error(rs: Seq<FileResult>) -> bool {
    exists|i: int| 0 <= i < rs.len() && rs[i].tool_error
}

/// Aggregate a batch of per-file results into a run summary: counts of
/// checked, valid, invalid and skipped files, the total number of findings,
/// and whether any tool error occurred (a file read failure counts as one).
pub fn summarize(
    results: &Vec<FileResult>,
    total_warnings: usize,
    duration_ms: u64,
    jobs: usize,
    had_read_error: bool,
) -> (s: Summary)
    requires
        results@.len() < usize::MAX,
    ensures
        s.checked_files == count_checked(results@),
        s.skipped_files == count_skipped(results@),
        s.invalid_files == count_invalid(results@),
        s.valid_files == count_checked(results@) - count_invalid(results@),
        s.total_errors as int == count_errors(results@) || s.total_errors == usize::MAX,
        s.total_warnings == total_warnings,
        s.duration_ms == duration_ms,
        s.jobs == jobs,
        s.has_tool_error == (any_tool_error(results@) || had_read_error),
{
    let mut checked: usize = 0;
    let mut skipped: usize = 0;
    let mut invalid: usize = 0;
    let mut errors: usize = 0;
    let mut tool = had_read_error;
    let mut i: usize = 0;
    while i < results.len()
        invariant
            i <= results@.len() < usize::MAX,
            checked == count_checked(results@.take(i as int)),
            skipped == count_skipped(results@.take(i as int)),
            invalid == count_invalid(results@.take(i as int)),
            errors as int == count_errors(results@.take(i as int)) || errors == usize::MAX,
            checked + skipped == i,
            invalid <= checked,
            tool == ((exists|j: int| 0 <= j < i && results@[j].tool_error) || had_read_error),
        decreases results@.len() - i,
    {
        proof {
            assert(results@.take(i + 1).drop_last() =~= results@.take(i as int));
            assert(results@.take(i + 1).last() == results@[i as int]);
        }
        let r = &results[i];
        if r.skipped {
            skipped = skipped + 1;
        } else {
            checked = checked + 1;
            if !r.valid {
                invalid = invalid + 1;
            }
        }
        let n_err = r.errors.len();
        if errors <= usize::MAX - n_err {
            errors = errors + n_err;
        } else {
            errors = usize::MAX;
        }
        if r.tool_error {
            tool = true;
        }
        i = i + 1;
    }
    proof {
        assert(results@.take(results@.len() as int) =~= results@);
    }
    Summary {
        checked_files: checked,
        valid_files: checked - invalid,
        invalid_files: invalid,
        skipped_files: skipped,
        total_errors: errors,
        total_warnings,
        duration_ms,
        jobs,
        has_tool_error: tool,
    }
}

/// Whether a whole run counts as valid in the structured output: no file
/// was invalid and no tool-level failure occurred.
pub fn run_is_valid(s: &Summary) -> (r: bool)
    ensures
        r == (s.invalid_files == 0 && !s.has_tool_error),
{
    s.invalid_files == 0 && !s.has_tool_error
}

/// The process exit code for a run: 2 when any tool-level failure occurred,
/// else 1 when at least one file is invalid, else 0.
pub fn exit_code(has_tool_error: bool, invalid_files: usize) -> (r: u8)
    ensures
        has_tool_error ==> r == 2,
        !has_tool_error && invalid_files > 0 ==> r == 1,
        !has_tool_error && invalid_files == 0 ==> r == 0,
{
    if has_tool_error {
        2
    } else if invalid_files > 0 {
        1
    } else {
        0
    }
}

/// A count with its singular or plural noun, as in `1 file` or `3 files`.
pub fn plural(n: usize, singular: &str, plural_form: &str) -> (r: Vec<u8>)
    ensures
        r@ == dec_rep(n as int) + " ".spec_bytes() + if n == 1 {
            singular.spec_bytes()
        } else {
            plural_form.spec_bytes()
        },
{
    let mut out = crate::bytestr::usize_to_dec(n);
    push_str_bytes(&mut out, " ");
    if n == 1 {
        push_str_bytes(&mut out, singular);
    } else {
        push_str_bytes(&mut out, plural_form);
    }
    out
}

/// The rendering of a duration: milliseconds below one second, tenths of a
/// second below ten seconds, whole seconds beyond.
pub open spec fn format_duration_spec(ms: u64) -> Seq<u8> {
    if ms < 1000 {
        dec_rep(ms as int) + "ms".spec_bytes()
    } else if ms < 10_000 {
        let tenths = (ms + 50) / 100;
        dec_rep(tenths as int / 10) + ".".spec_bytes() + dec_rep(tenths as int % 10)
            + "s".spec_bytes()
    } else {
        dec_rep(((ms + 500) / 1000) as int) + "s".spec_bytes()
    }
}

/// Render a duration in milliseconds for the summary line, using integer
/// arithmetic only: `123ms`, `1.2s`, or `42s`.
pub fn format_duration(ms: u64) -> (r: Vec<u8>)
    ensures
        r@ == format_duration_spec(ms),
{
    if ms < 1000 {
        let mut out = u64_to_dec(ms);
        push_str_bytes(&mut out, "ms");
        out
    } else if ms < 10_000 {
        let tenths = (ms + 50) / 100;
        let mut out = u64_to_dec(tenths / 10);
        push_str_bytes(&mut out, ".");
        let frac = u64_to_dec(tenths % 10);
        crate::bytestr::push_bytes(&mut out, frac.as_slice());
        push_str_bytes(&mut out, "s");
        out
    } else {
        let mut out = u64_to_dec(ms / 1000 + if ms % 1000 >= 500 {
            1
        } else {
            0
        });
        push_str_bytes(&mut out, "s");
        proof {
            assert(ms / 1000 + (if ms % 1000 >= 500 { 1u64 } else { 0u64 }) == (ms + 500) / 1000)
                by (nonlinear_arith);
        }
        out
    }
}

} // verus!
