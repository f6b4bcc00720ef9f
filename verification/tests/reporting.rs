//! Tests for result rendering and the small text utilities behind it.

use spectra::json::render_test_json;
use spectra::report::format_summary_line;
use spectra::text::{parse_u64, trim_end_ws, u64_to_string};
use spectra::{Test, TestResults};

#[test]
fn summary_line_matches_the_conventional_form() {
    let results = TestResults {
        count: 4,
        skipped: 1,
        failures: vec![("a".to_string(), String::new(), String::new())],
    };
    assert_eq!(
        format_summary_line(&results, "12ms"),
        "test result: err. 2 passed; 1 failed; 0 ignored; 0 measured; 1 filtered out; finished in 12ms"
    );
}

#[test]
fn summary_line_reads_ok_without_failures() {
    let results = TestResults {
        count: 3,
        skipped: 0,
        failures: Vec::new(),
    };
    assert_eq!(
        format_summary_line(&results, "1s"),
        "test result: ok. 3 passed; 0 failed; 0 ignored; 0 measured; 0 filtered out; finished in 1s"
    );
}

#[test]
fn decimal_rendering_is_exact() {
    assert_eq!(u64_to_string(0), "0");
    assert_eq!(u64_to_string(10), "10");
    assert_eq!(u64_to_string(90210), "90210");
    assert_eq!(u64_to_string(u64::MAX), "18446744073709551615");
}

#[test]
fn decimal_parsing_is_exact() {
    assert_eq!(parse_u64("0"), Some(0));
    assert_eq!(parse_u64("1500"), Some(1500));
    assert_eq!(parse_u64("18446744073709551615"), Some(u64::MAX));
    assert_eq!(parse_u64("18446744073709551616"), None);
    assert_eq!(parse_u64(""), None);
    assert_eq!(parse_u64("12a"), None);
    assert_eq!(parse_u64("-3"), None);
}

#[test]
fn trailing_whitespace_is_trimmed() {
    assert_eq!(trim_end_ws("keep me \t\r\n"), "keep me");
    assert_eq!(trim_end_ws("   "), "");
    assert_eq!(trim_end_ws("solid"), "solid");
}

#[test]
fn json_rendering_escapes_the_fields() {
    let test = Test {
        section: String::new(),
        name: "a \"quoted\" name".to_string(),
        options: String::new(),
        case: "line one\nline two\t".to_string(),
        expected: None,
        merge_stderr: false,
    };
    assert_eq!(
        render_test_json(&test),
        "{\"name\":\"a \\\"quoted\\\" name\",\"case\":\"line one\\nline two\\t\",\"expected\":\"\"}"
    );
}

#[test]
fn json_rendering_keeps_expected_text() {
    let test = Test {
        section: String::new(),
        name: "n".to_string(),
        options: String::new(),
        case: "c".to_string(),
        expected: Some("out\\put".to_string()),
        merge_stderr: false,
    };
    assert_eq!(
        render_test_json(&test),
        "{\"name\":\"n\",\"case\":\"c\",\"expected\":\"out\\\\put\"}"
    );
}
