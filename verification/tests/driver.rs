//! Tests for the test driver: filtering, judging, aggregation.

use spectra::extract::extract_tests;
use spectra::runners::program::{rpc_turn, ReadOutcome};
use spectra::utilities::commands::Channel;
use spectra::utilities::filter::{Filter, FilterChoice, GlobPattern, StringMatch};
use spectra::utilities::is_exit_command;
use spectra::{judge_outcome, run_tests, RunConfiguration, Runner, Test, TestResults};

/// A runner that replies from a fixed list of outcomes, in order.
struct Scripted {
    replies: Vec<Result<(String, String), String>>,
    at: usize,
}

impl Scripted {
    fn new(replies: Vec<Result<(String, String), String>>) -> Scripted {
        Scripted { replies, at: 0 }
    }
}

impl Runner for Scripted {
    fn run(&mut self, _test: &Test) -> Result<(String, String), String> {
        let reply = self.replies[self.at].clone();
        self.at += 1;
        reply
    }
}

fn quiet() -> RunConfiguration {
    RunConfiguration {
        skip_print_test_results: true,
        ..Default::default()
    }
}

#[test]
fn passing_test_counts_as_passed() {
    let doc = "### Upper\n```\nhi\n```\n```\nHI\n```\n";
    let input = extract_tests(doc, false).unwrap();
    let mut runner = Scripted::new(vec![Ok(("HI".to_string(), String::new()))]);
    let results = run_tests(&input.tests, &mut runner, &quiet());
    assert_eq!(results.count, 1);
    assert_eq!(results.skipped, 0);
    assert!(results.failures.is_empty());
}

#[test]
fn mismatched_output_is_a_failure_with_debug_text() {
    let doc = "### Upper\n```\nhi\n```\n```\nHI\n```\n";
    let input = extract_tests(doc, false).unwrap();
    let mut runner = Scripted::new(vec![Ok(("nope".to_string(), "dbg".to_string()))]);
    let results = run_tests(&input.tests, &mut runner, &quiet());
    assert_eq!(results.failures.len(), 1);
    assert_eq!(results.failures[0].0, "Upper");
    assert_eq!(results.failures[0].2, "dbg");
}

#[test]
fn runner_error_is_a_failure_with_empty_comparison() {
    let doc = "### T\n```\nin\n```\n";
    let input = extract_tests(doc, false).unwrap();
    let mut runner = Scripted::new(vec![Err("PROCESS TIMED OUT".to_string())]);
    let results = run_tests(&input.tests, &mut runner, &quiet());
    assert_eq!(
        results.failures,
        vec![(
            "T".to_string(),
            String::new(),
            "PROCESS TIMED OUT".to_string()
        )]
    );
}

#[test]
fn crash_context_reaches_the_recorded_failure() {
    // a child that dies mid-test: its stderr lines, prefixed `* `, travel
    // through the turn's error into the failure the driver records
    let messages = vec![(Channel::Stderr, "panicked at 'two'".to_string())];
    let turn = rpc_turn(&messages, ReadOutcome::Finished, false);
    let err = turn.output.unwrap_err();
    assert!(turn.respawn);

    let doc = "### Test 2\n```\ntwo\n```\n```\nTWO\n```\n";
    let input = extract_tests(doc, false).unwrap();
    let mut runner = Scripted::new(vec![Err(err)]);
    let results = run_tests(&input.tests, &mut runner, &quiet());
    assert_eq!(
        results.failures,
        vec![(
            "Test 2".to_string(),
            String::new(),
            "* panicked at 'two'".to_string()
        )]
    );
}

#[test]
fn only_filter_runs_matching_tests() {
    let doc = "### foobar\n```\na\n```\n### bar\n```\nb\n```\n### foo baz\n```\nc\n```\n";
    let input = extract_tests(doc, false).unwrap();
    let mut configuration = quiet();
    configuration.filter = Some(FilterChoice::Substring(StringMatch {
        matcher: vec!["foo".to_string()],
        positive: true,
        case_sensitive: false,
    }));
    let mut runner = Scripted::new(vec![
        Ok((String::new(), String::new())),
        Ok((String::new(), String::new())),
    ]);
    let results = run_tests(&input.tests, &mut runner, &configuration);
    assert_eq!(results.count, 3);
    assert_eq!(results.skipped, 1);
    assert_eq!(results.count - results.skipped, 2);
}

#[test]
fn skip_filter_leaves_matching_tests_out() {
    let filter = StringMatch {
        matcher: vec!["slow".to_string()],
        positive: false,
        case_sensitive: true,
    };
    assert!(filter.should_skip("a slow test"));
    assert!(!filter.should_skip("a fast test"));
    // case-sensitivity: "Slow" does not match the lowercase needle
    assert!(!filter.should_skip("A Slow test"));
}

#[test]
fn case_insensitive_filter_folds_ascii_case() {
    let filter = StringMatch {
        matcher: vec!["upper".to_string()],
        positive: true,
        case_sensitive: false,
    };
    assert!(!filter.should_skip("UPPER case name"));
    assert!(filter.should_skip("unrelated"));
}

#[test]
fn glob_filter_decides_by_pattern() {
    let filter = GlobPattern {
        matcher: glob::Pattern::new("foo*").unwrap(),
        positive: true,
        case_sensitive: true,
    };
    assert!(!filter.should_skip("foobar"));
    assert!(filter.should_skip("bar"));
}

#[test]
fn no_expected_output_passes() {
    let test = Test {
        section: String::new(),
        name: "free".to_string(),
        options: String::new(),
        case: "x".to_string(),
        expected: None,
        merge_stderr: false,
    };
    assert!(judge_outcome(&test, Ok(("anything".to_string(), String::new()))).is_none());
}

#[test]
fn dry_run_records_no_failures() {
    let doc = "### T\n```\nin\n```\n```\nout\n```\n";
    let input = extract_tests(doc, false).unwrap();
    let mut configuration = quiet();
    configuration.dry_run = true;
    let mut runner = Scripted::new(vec![Err("broken".to_string())]);
    let results = run_tests(&input.tests, &mut runner, &configuration);
    assert_eq!(results.count, 1);
    assert!(results.failures.is_empty());
}

#[test]
fn exit_words_stop_an_interactive_run() {
    assert!(is_exit_command("exit"));
    assert!(is_exit_command(" q\n"));
    assert!(is_exit_command("quit"));
    assert!(is_exit_command("e"));
    assert!(!is_exit_command("continue"));
    assert!(!is_exit_command(""));
}

#[test]
fn results_append_sums_counters() {
    let mut a = TestResults {
        count: 2,
        skipped: 1,
        failures: vec![("x".to_string(), String::new(), String::new())],
    };
    let b = TestResults {
        count: 3,
        skipped: 0,
        failures: vec![("y".to_string(), String::new(), String::new())],
    };
    a.append(b);
    assert_eq!(a.count, 5);
    assert_eq!(a.skipped, 1);
    assert_eq!(a.failures.len(), 2);
    assert_eq!(a.failures[1].0, "y");
}
