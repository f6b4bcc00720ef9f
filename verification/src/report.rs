//! Rendering and printing aggregate results in the conventional harness
//! form.

use std::io::Write;

use vstd::prelude::*;
use vstd::string::{StrSliceExecFns, StringExecFns};

use crate::text::{dec_str, u64_to_string};
use crate::{RunConfiguration, TestResults};

verus! {

/// Relies on `writeln!` to standard output: prints the line and a newline.
#[verifier::external_body]
pub(crate) fn emit_stdout_line(line: &str) {
    let _ = writeln!(std::io::stdout(), "{}", line);
}

/// Relies on `writeln!` to standard error: prints the line and a newline.
#[verifier::external_body]
pub(crate) fn emit_stderr_line(line: &str) {
    let _ = writeln!(std::io::stderr(), "{}", line);
}

/// The one-line totals: result word, counts, and the elapsed time text.
pub open spec fn summary_line_spec(
    passed: nat,
    failed: nat,
    skipped: nat,
    elapsed: Seq<char>,
) -> Seq<char> {
    ("test result: "@) + (if failed == 0 {
        "ok"@
    } else {
        "err"@
    }) + (". "@) + dec_str(passed) + (" passed; "@) + dec_str(failed) + (" failed; 0 ignored; 0 measured; "@)
        + dec_str(skipped) + (" filtered out; finished in "@) + elapsed
}

/// Renders the totals line of a finished run, as [`summary_line_spec`]
/// describes.
pub fn format_summary_line(results: &TestResults, elapsed: &str) -> (r: String)
    requires
        results.well_formed(),
    ensures
        r@ == summary_line_spec(
            (results.count - results.failures@.len() - results.skipped) as nat,
            results.failures@.len() as nat,
            results.skipped as nat,
            elapsed@,
        ),
{
    let failed = results.failures.len();
    let passed = results.count - failed - results.skipped;
    let mut line = String::from_str("test result: ");
    if failed == 0 {
        line.append("ok");
    } else {
        line.append("err");
    }
    line.append(". ");
    line.append(u64_to_string(passed as u64).as_str());
    line.append(" passed; ");
    line.append(u64_to_string(failed as u64).as_str());
    line.append(" failed; 0 ignored; 0 measured; ");
    line.append(u64_to_string(results.skipped as u64).as_str());
    line.append(" filtered out; finished in ");
    line.append(elapsed);
    line
}

/// Prints the failures and the totals line to standard error, as the
/// conventional harness does: each failure as `test <name> failed` with its
/// comparison and debug text, then the failure names, then the totals.
/// Interactive presentation of the same content is the front-end's affair.
pub fn print_test_results(results: &TestResults, _configuration: &RunConfiguration, elapsed: &str)
    requires
        results.well_formed(),
{
    if results.failures.len() > 0 {
        emit_stderr_line("\nfailures:\n");
        let mut i: usize = 0;
        while i < results.failures.len()
            invariant
                i <= results.failures@.len(),
            decreases results.failures@.len() - i,
        {
            let mut block = String::from_str("test ");
            block.append(results.failures[i].0.as_str());
            block.append(" failed\n");
            block.append(results.failures[i].1.as_str());
            block.append("\n");
            block.append(results.failures[i].2.as_str());
            emit_stderr_line(block.as_str());
            i += 1;
        }
        emit_stderr_line("\nfailures:");
        let mut i: usize = 0;
        while i < results.failures.len()
            invariant
                i <= results.failures@.len(),
            decreases results.failures@.len() - i,
        {
            let mut name_line = String::from_str("\t");
            name_line.append(results.failures[i].0.as_str());
            emit_stderr_line(name_line.as_str());
            i += 1;
        }
    }
    let mut line = String::from_str("\n");
    line.append(format_summary_line(results, elapsed).as_str());
    emit_stderr_line(line.as_str());
}

} // verus!
