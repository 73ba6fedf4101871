use rb::bundler::Bundler;
use rb::error::BundleError;

#[test]
fn resolution_error_names_specifier_and_importer() {
    let e = BundleError::ResolutionError {
        specifier: "./missing.js".to_string(),
        importer: "/proj/a.js".to_string(),
    };
    assert_eq!(e.message(), "failed to resolve specifier: ./missing.js from /proj/a.js");
}

#[test]
fn io_error_names_the_unreadable_file() {
    let e = BundleError::IoError { path: "/proj/a.js".to_string() };
    assert_eq!(e.message(), "failed to load file: /proj/a.js");
}

#[test]
fn parse_error_names_the_rejected_file() {
    let e = BundleError::ParseError { path: "/proj/a.js".to_string() };
    assert_eq!(e.message(), "failed to parse file: /proj/a.js");
}

#[test]
fn transform_error_names_the_rejected_file() {
    let e = BundleError::TransformError { path: "/proj/a.js".to_string() };
    assert_eq!(e.message(), "failed to transform file: /proj/a.js");
}

#[test]
fn output_error_names_the_destination() {
    let e = BundleError::OutputError { path: "dist/bundle.js".to_string() };
    assert_eq!(e.message(), "failed to write bundle to: dist/bundle.js");
}

#[test]
fn aborted_build_leaves_no_artifact() {
    // the entry file imports "./missing.js": resolution fails, so the entry
    // is never processed and packaging refuses to produce an artifact
    let mut b = Bundler::new("a.js".to_string());
    let (id, path) = b.next_pending().unwrap();
    assert_eq!((id, path.as_str()), (0, "a.js"));
    let e = BundleError::ResolutionError {
        specifier: "./missing.js".to_string(),
        importer: path,
    };
    assert!(e.message().contains("./missing.js"));
    assert!(b.bundle().is_none());
}
