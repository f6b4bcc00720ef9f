//! A specification-driven test harness.
//!
//! A structured document describes how a program should behave: each test is
//! a named case with an input, optional configuration and an expected output.
//! The library extracts those cases, drives the program under test through a
//! runner, compares actual output against expected output while ignoring
//! line-ending variation, and aggregates the results.

use vstd::prelude::*;

pub mod extract;
pub mod frame_protocol;
pub mod json;
pub mod report;
pub mod runners;
pub mod text;
pub mod utilities;

pub use extract::extract_tests;
pub use report::print_test_results;
pub use utilities::is_equal_ignore_new_line_sequence;

use utilities::filter::{Filter, FilterChoice};

verus! {

/// One extracted test: a named case with optional expected output.
#[derive(Debug)]
pub struct Test {
    pub section: String,
    pub name: String,
    pub options: String,
    pub case: String,
    pub expected: Option<String>,
    pub merge_stderr: bool,
}

/// The mathematical value of a [`Test`]: every text field as a `Seq<char>`.
pub ghost struct TestView {
    pub section: Seq<char>,
    pub name: Seq<char>,
    pub options: Seq<char>,
    pub case: Seq<char>,
    pub expected: Option<Seq<char>>,
    pub merge_stderr: bool,
}

impl View for Test {
    type V = TestView;

    open spec fn view(&self) -> TestView {
        TestView {
            section: self.section@,
            name: self.name@,
            options: self.options@,
            case: self.case@,
            expected: match self.expected {
                Option::Some(ref e) => Option::Some(e@),
                Option::None => Option::None,
            },
            merge_stderr: self.merge_stderr,
        }
    }
}

/// What extraction yields for a document: the tests in document order and
/// the runner its front-matter names, if any.
pub struct Input {
    pub tests: Vec<Test>,
    pub expected_runner: Option<String>,
}

/// Something that can execute one test and report `(stdout, stderr)`,
/// or an error message when the test could not be run to completion.
pub trait Runner: Sized {
    fn run(&mut self, test: &Test) -> Result<(String, String), String>;

    fn close(self) {
    }
}

/// Counters and failures accumulated over a run.
///
/// Each failure carries the test name, the rendered comparison between
/// expected and actual output, and an auxiliary debug string.
#[derive(Debug)]
pub struct TestResults {
    pub count: usize,
    pub skipped: usize,
    pub failures: Vec<(String, String, String)>,
}

impl TestResults {
    /// An aggregate is well formed when every failure was counted and no
    /// failed test was also skipped.
    pub open spec fn well_formed(&self) -> bool {
        self.failures@.len() + self.skipped <= self.count
    }

    pub fn empty() -> (r: TestResults)
        ensures
            r.count == 0,
            r.skipped == 0,
            r.failures@ =~= Seq::<(String, String, String)>::empty(),
            r.well_formed(),
    {
        TestResults { count: 0, skipped: 0, failures: Vec::new() }
    }

    /// Folds another aggregate into this one: counters add up and the
    /// failures of `new` follow the failures already recorded.
    pub fn append(&mut self, new: TestResults)
        requires
            old(self).count + new.count <= usize::MAX,
            old(self).skipped + new.skipped <= usize::MAX,
        ensures
            final(self).count == old(self).count + new.count,
            final(self).skipped == old(self).skipped + new.skipped,
            final(self).failures@ == old(self).failures@ + new.failures@,
            old(self).well_formed() && new.well_formed() ==> final(self).well_formed(),
    {
        let mut new = new;
        self.count += new.count;
        self.skipped += new.skipped;
        self.failures.append(&mut new.failures);
    }
}

impl Default for TestResults {
    fn default() -> (r: TestResults)
        ensures
            r.count == 0,
            r.skipped == 0,
            r.failures@ =~= Seq::<(String, String, String)>::empty(),
            r.well_formed(),
    {
        TestResults::empty()
    }
}

/// How a run proceeds: which tests are filtered out, whether runs are dry,
/// and how results are presented.
pub struct RunConfiguration {
    pub interactive: bool,
    pub dry_run: bool,
    pub lists_to_code_block: bool,
    pub no_colors: bool,
    pub filter: Option<FilterChoice>,
    pub skip_print_test_results: bool,
}

impl Default for RunConfiguration {
    fn default() -> (r: RunConfiguration)
        ensures
            !r.interactive,
            !r.dry_run,
            !r.lists_to_code_block,
            !r.no_colors,
            r.filter is None,
            !r.skip_print_test_results,
    {
        RunConfiguration {
            interactive: false,
            dry_run: false,
            lists_to_code_block: false,
            no_colors: false,
            filter: None,
            skip_print_test_results: false,
        }
    }
}

/// Whether the configuration's filter skips a test name.
pub open spec fn config_skips(configuration: &RunConfiguration, name: Seq<char>) -> bool {
    match configuration.filter {
        Option::Some(f) => f.skips(name),
        Option::None => false,
    }
}

/// How many of the tests the configuration skips.
pub open spec fn count_skipped(tests: Seq<Test>, configuration: &RunConfiguration) -> int
    decreases tests.len(),
{
    if tests.len() == 0 {
        0int
    } else {
        (if config_skips(configuration, tests[0]@.name) {
            1int
        } else {
            0int
        }) + count_skipped(tests.drop_first(), configuration)
    }
}

pub proof fn lemma_count_skipped_bounds(tests: Seq<Test>, configuration: &RunConfiguration)
    ensures
        0 <= count_skipped(tests, configuration) <= tests.len(),
    decreases tests.len(),
{
    if tests.len() > 0 {
        lemma_count_skipped_bounds(tests.drop_first(), configuration);
    }
}

/// Relies on `pretty_assertions::StrComparison` for a rendered comparison
/// of expected and actual text; the rendering is presentational and
/// nothing is claimed of its content.
#[verifier::external_body]
fn comparison_text(expected: &str, actual: &str) -> String {
    pretty_assertions::StrComparison::new(expected, actual).to_string()
}

/// Judges one runner outcome against the test's expected output.
///
/// `None` is a pass: the runner succeeded and either the test has no
/// expected output or the actual output matches it up to line endings.
/// Otherwise the failure record carries the test's name, a rendered
/// comparison (empty when the runner itself failed), and the debug text —
/// the runner's stderr on a mismatch, or its error.
pub fn judge_outcome(test: &Test, outcome: Result<(String, String), String>) -> (r: Option<
    (String, String, String),
>)
    ensures
        match outcome {
            Result::Ok((output, debug)) => match test@.expected {
                Option::Some(expected) => if text::same_lines(output@, expected) {
                    r is None
                } else {
                    r matches Option::Some((n, _, dbg)) && n@ == test@.name && dbg@ == debug@
                },
                Option::None => r is None,
            },
            Result::Err(err) => r matches Option::Some((n, d, dbg)) && n@ == test@.name && d@
                =~= Seq::<char>::empty() && dbg@ == err@,
        },
{
    match outcome {
        Ok((output, debug)) => match &test.expected {
            Some(expected) => {
                if is_equal_ignore_new_line_sequence(output.as_str(), expected.as_str()) {
                    None
                } else {
                    let comparison = comparison_text(expected.as_str(), output.as_str());
                    Some((test.name.clone(), comparison, debug))
                }
            },
            None => None,
        },
        Err(err) => Some((test.name.clone(), String::new(), err)),
    }
}

/// Runs every test in order against the runner, printing progress unless
/// told not to, and aggregates the results.
///
/// The count equals the number of tests; the skipped count is exactly the
/// number of tests the filter skips; a dry run records no failures; and
/// every recorded failure is [`judge_outcome`]'s record of a test that
/// ran: it carries that test's name, and when the test has no expected
/// output it can only be a runner error, whose comparison text is empty.
#[verifier::loop_isolation(false)]
pub fn run_tests<R: Runner>(
    tests: &Vec<Test>,
    runner: &mut R,
    configuration: &RunConfiguration,
) -> (results: TestResults)
    ensures
        results.count == tests@.len(),
        results.skipped == count_skipped(tests@, configuration),
        results.well_formed(),
        configuration.dry_run ==> results.failures@.len() == 0,
        forall|i: int|
            0 <= i < results.failures@.len() ==> exists|j: int|
                0 <= j < tests@.len() && #[trigger] results.failures@[i].0@ == tests@[j]@.name
                    && !config_skips(configuration, tests@[j]@.name) && (tests@[j]@.expected
                    is None ==> results.failures@[i].1@ == Seq::<char>::empty()),
{
    let mut results = TestResults::empty();
    let mut i: usize = 0;
    let len = tests.len();
    proof {
        assert(tests@.skip(0) =~= tests@);
    }
    while i < len
        invariant
            i <= len,
            results.count == i,
            results.skipped + count_skipped(tests@.skip(i as int), configuration) == count_skipped(
                tests@,
                configuration,
            ),
            results.skipped <= i,
            results.well_formed(),
            configuration.dry_run ==> results.failures@.len() == 0,
            forall|k: int|
                0 <= k < results.failures@.len() ==> exists|j: int|
                    0 <= j < tests@.len() && #[trigger] results.failures@[k].0@ == tests@[j]@.name
                        && !config_skips(configuration, tests@[j]@.name) && (tests@[j]@.expected
                        is None ==> results.failures@[k].1@ == Seq::<char>::empty()),
        decreases len - i,
    {
        let test = &tests[i];
        proof {
            assert(tests@.skip(i as int)[0] == tests@[i as int]);
            assert(tests@.skip(i as int).drop_first() =~= tests@.skip(i + 1));
            lemma_count_skipped_bounds(tests@.skip(i + 1), configuration);
        }
        results.count += 1;
        let skip_test = match &configuration.filter {
            Some(f) => f.should_skip(test.name.as_str()),
            None => false,
        };
        if skip_test {
            results.skipped += 1;
        }
        if configuration.dry_run {
            if !skip_test {
                let outcome = runner.run(test);
                let mut message = String::from_str("Test ");
                message.append(test.name.as_str());
                match outcome {
                    Ok((output, _debug)) => {
                        message.append("\nreceived:\n");
                        message.append(output.as_str());
                    },
                    Err(output) => {
                        message.append("\nerrored: ");
                        message.append(output.as_str());
                    },
                }
                report::emit_stderr_line(message.as_str());
            }
        } else if skip_test {
            if !configuration.skip_print_test_results {
                let mut line = String::from_str("test ");
                line.append(test.name.as_str());
                line.append(" ... skipped");
                report::emit_stdout_line(line.as_str());
            }
        } else {
            let outcome = runner.run(test);
            let failure = judge_outcome(test, outcome);
            if !configuration.skip_print_test_results {
                let mut line = String::from_str("test ");
                line.append(test.name.as_str());
                if failure.is_none() {
                    line.append(" ... pass");
                } else {
                    line.append(" ... fail");
                }
                report::emit_stdout_line(line.as_str());
            }
            match failure {
                Some(record) => {
                    results.failures.push(record);
                    proof {
                        assert(results.failures@.last().0@ == tests@[i as int]@.name);
                    }
                },
                None => {},
            }
        }
        i += 1;
    }
    proof {
        assert(tests@.skip(len as int) =~= Seq::<Test>::empty());
    }
    results
}

} // verus!
