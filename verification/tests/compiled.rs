//! Tests for the compiled-runner helpers.

use spectra::runners::compiled::get_output_name_from_json;

#[test]
fn test() {
    let out = get_output_name_from_json(
        r#"{"reason":"compiler-artifact","package_id":"path+file:///Users/benjamin/Projects/spectra/examples/rust-runner#0.1.0","manifest_path":"/Users/benjamin/Projects/spectra/examples/rust-runner/Cargo.toml","target":{"kind":["cdylib"],"crate_types":["cdylib"],"name":"rust_runner","src_path":"/Users/benjamin/Projects/spectra/examples/rust-runner/lib.rs","edition":"2024","doc":true,"doctest":false,"test":true},"profile":{"opt_level":"0","debuginfo":2,"debug_assertions":true,"overflow_checks":true,"test":false},"features":[],"filenames":["/Users/benjamin/Projects/spectra/examples/rust-runner/target/debug/librust_runner.dylib"],"executable":null,"fresh":true}"#,
    );
    assert_eq!(
        out,
        Some(
            "/Users/benjamin/Projects/spectra/examples/rust-runner/target/debug/librust_runner.dylib"
                .to_string()
        )
    );
}

#[test]
fn missing_marker_yields_nothing() {
    assert_eq!(get_output_name_from_json("{\"reason\":\"build-finished\"}"), None);
}
