//! Tests for the argument tokenizer.

use spectra::utilities::{split_arguments, ArgumentIter, TokenizeError};

fn collect(on: &str) -> Vec<String> {
    split_arguments(on).expect("tokenization failed")
}

#[test]
fn arguments() {
    let on = "this is a test! 'with' \"things in quotes\" see";
    assert_eq!(
        collect(on),
        vec![
            "this",
            "is",
            "a",
            "test!",
            "with",
            "things in quotes",
            "see"
        ]
    );
}

#[test]
fn escaping() {
    let on = "testing 'escaping \\'' \"with \\\" quote\"";
    assert_eq!(
        collect(on),
        vec!["testing", "escaping '", "with \" quote"]
    );
}

#[test]
fn empty_input_has_no_tokens() {
    assert_eq!(collect(""), Vec::<String>::new());
}

#[test]
fn iterator_steps_through_tokens() {
    let mut iter = ArgumentIter::new("run --flag");
    assert_eq!(iter.next(), Some(Ok("run".to_string())));
    assert_eq!(iter.next(), Some(Ok("--flag".to_string())));
    assert_eq!(iter.next(), None);
}

#[test]
fn unterminated_quote_is_reported() {
    let mut iter = ArgumentIter::new("run 'oops");
    assert_eq!(iter.next(), Some(Ok("run".to_string())));
    assert_eq!(iter.next(), Some(Err(TokenizeError::UnterminatedQuote)));
    assert!(split_arguments("run 'oops").is_err());
}

#[test]
fn round_trip_of_requoted_tokens() {
    // joining with single spaces, re-quoting where needed, tokenizes back
    let joined = "plain \"two words\" \"a \\\" quote\" \"\"";
    assert_eq!(
        collect(joined),
        vec!["plain", "two words", "a \" quote", ""]
    );
}
