//! Tests for the document extractor.

use spectra::extract::{extract_tests, ExtractError};

#[test]
fn heading_and_code_blocks_make_a_test() {
    let doc = "# Section A\n\n### Upper\n```\nhi\n```\n```\nHI\n```\n";
    let input = extract_tests(doc, false).unwrap();
    assert_eq!(input.tests.len(), 1);
    let test = &input.tests[0];
    assert_eq!(test.section, "Section A");
    assert_eq!(test.name, "Upper");
    assert_eq!(test.case, "hi\n");
    assert_eq!(test.expected.as_deref(), Some("HI\n"));
    assert!(!test.merge_stderr);
    assert!(input.expected_runner.is_none());
}

#[test]
fn every_emitted_test_has_a_case() {
    // headings without code blocks emit nothing
    let doc = "### Empty One\n\n### Real\n```\ninput\n```\n";
    let input = extract_tests(doc, false).unwrap();
    assert_eq!(input.tests.len(), 1);
    assert_eq!(input.tests[0].name, "Real");
    assert!(!input.tests[0].case.is_empty());
}

#[test]
fn with_backtick_paragraph_sets_options() {
    let doc = "### T\nWith `--flag on`\n```\ncase\n```\n";
    let input = extract_tests(doc, false).unwrap();
    assert_eq!(input.tests[0].options, "--flag on");
}

#[test]
fn bare_with_redirects_next_code_block_to_options() {
    let doc = "### T\nWith\n```\n--option-block\n```\n```\ncase\n```\n";
    let input = extract_tests(doc, false).unwrap();
    assert_eq!(input.tests[0].options, "--option-block\n");
    assert_eq!(input.tests[0].case, "case\n");
}

#[test]
fn continuation_blocks_make_a_starred_test() {
    let doc = "### Pair\n```\none\n```\n```\nONE\n```\n```\ntwo\n```\n```\nTWO\n```\n";
    let input = extract_tests(doc, false).unwrap();
    assert_eq!(input.tests.len(), 2);
    assert_eq!(input.tests[0].name, "Pair");
    assert_eq!(input.tests[1].name, "Pair *");
    assert_eq!(input.tests[1].case, "two\n");
    assert_eq!(input.tests[1].expected.as_deref(), Some("TWO\n"));
}

#[test]
fn merge_stderr_quote_marks_the_test() {
    let doc = "### T\n> Merge `stderr` here\n```\ncase\n```\n";
    let input = extract_tests(doc, false).unwrap();
    assert!(input.tests[0].merge_stderr);
}

#[test]
fn list_items_become_expected_output_when_enabled() {
    let doc = "### T\n```\ncase\n```\n- \\<first\\>\n- second \\\" item\n";
    let input = extract_tests(doc, true).unwrap();
    assert_eq!(
        input.tests[0].expected.as_deref(),
        Some("<first\\>\nsecond \" item")
    );

    // without the mode, list items are ignored
    let plain = extract_tests(doc, false).unwrap();
    assert!(plain.tests[0].expected.is_none());
}

#[test]
fn front_matter_names_the_expected_runner() {
    let doc = "---\nexpected_runner: bun\n---\n### T\n```\ncase\n```\n";
    let input = extract_tests(doc, false).unwrap();
    assert_eq!(input.expected_runner.as_deref(), Some("bun"));
}

#[test]
fn front_matter_with_wrong_runner_kind_is_fatal() {
    let doc = "---\nexpected_runner: true\n---\n### T\n```\ncase\n```\n";
    assert!(matches!(
        extract_tests(doc, false),
        Err(ExtractError::ExpectedRunnerNotText)
    ));
}

#[test]
fn marker_runs_too_deep_for_the_parser_are_turned_away() {
    // the block parser supports at most 255 number signs and 255 blanks
    // of list depth; deeper runs are rejected before parsing
    let deep_heading = format!("{} T\n```\ncase\n```\n", "#".repeat(256));
    assert!(matches!(
        extract_tests(&deep_heading, false),
        Err(ExtractError::MarkerTooDeep)
    ));

    let deep_list = format!("### T\n```\ncase\n```\n-{}x\n", " ".repeat(256));
    assert!(matches!(
        extract_tests(&deep_list, true),
        Err(ExtractError::MarkerTooDeep)
    ));

    // a run of 255 is still served
    let heading = format!("{} Deep\n```\ncase\n```\n", "#".repeat(255));
    let input = extract_tests(&heading, false).unwrap();
    assert_eq!(input.tests[0].name, "Deep");
}

#[test]
fn lower_headings_change_the_section() {
    let doc = "## One\n### A\n```\na\n```\n## Two\n### B\n```\nb\n```\n";
    let input = extract_tests(doc, false).unwrap();
    assert_eq!(input.tests[0].section, "One");
    assert_eq!(input.tests[1].section, "Two");
}
