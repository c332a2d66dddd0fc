use tracy::filter::{is_excluded, parse_gitattributes, FilterArgs};
use tracy::scan::{scan_files, ScanArgs, ScanResult, SourceFile};

const ATTRIBUTES: &str = "vendor/** linguist-vendored\nthird_party/** linguist-vendored\nsrc/gen/** linguist-generated\n*.generated.rs linguist-generated\n";

const MAIN_RS: &str = "//! REQ-1: inner doc\n\n/// REQ-2: outer doc\nfn main() {}\n\n/** REQ-3: block doc */\nfn other() {}\n\n// REQ-999: regular comment\nfn plain() {}\n\n/// REQ-60 REQ-61 REQ-62\nfn multi() {}\n\n/// REQ-63 first\nfn a() {}\n\n/// REQ-63 second\nfn b() {}\n\n/// REQ-64 REQ-64 REQ-64\nfn c() {}\n\n/// [REQ-66] (REQ-67) {REQ-68}\nfn d() {}\n\n/// implements REQ-69\nfn e() {}\n\n/// see https://tracker.example/REQ-70\nfn f() {}\n\n/// REQ-007\nfn g() {}\n";

const LIB_RS: &str = "/*! REQ-65: inner block doc */\n\n/// REQ-2: also in the library\npub fn lib() {}\n";

const APP_TS: &str = "/** REQ-10: class */\nclass Service {}\n\n/** REQ-11: method */\nfunction run(): void {}\n\n/** REQ-12: constant */\nconst limit: number = 1;\n// REQ-999: regular comment\n";

const APP_JS: &str = "/** REQ-20: class */\nclass Service {}\n\n/** REQ-21: function */\nfunction run() {}\n\n/** REQ-22: constant */\nconst limit = 1;\n// REQ-999: regular comment\n";

const APP_JAVA: &str = "/** REQ-40: class */\npublic class App {\n    /** REQ-41: method */\n    void run() {}\n    // REQ-999: regular comment\n}\n";

const MAIN_CPP: &str = "/// REQ-50: triple slash\nint one() { return 1; }\n\n/** REQ-51: doxygen block */\nint two() { return 2; }\n// REQ-999: regular comment\n";

const MAIN_GO: &str = "package main\n\n// REQ-30: line comment\nfunc main() {}\n\n/* REQ-31: block comment */\nfunc other() {}\n";

fn fixtures() -> Vec<(&'static str, &'static str)> {
    vec![
        ("README.md", "REQ-300: prose in markdown\n"),
        ("data.json", "{\"id\": \"REQ-301\"}\n"),
        ("src/App.java", APP_JAVA),
        ("src/app.js", APP_JS),
        ("src/app.ts", APP_TS),
        ("src/gen/types.rs", "/// REQ-102: generated\npub struct T;\n"),
        ("src/lib.rs", LIB_RS),
        ("src/main.cpp", MAIN_CPP),
        ("src/main.go", MAIN_GO),
        ("src/main.rs", MAIN_RS),
        ("src/types.generated.rs", "/// REQ-103: generated\npub struct G;\n"),
        ("third_party/lib.c", "/* REQ-101: third party */\nint x;\n"),
        ("vendor/dep/lib.rs", "/// REQ-100: vendored\npub fn v() {}\n"),
    ]
}

fn run_scan(include_vendored: bool, include_generated: bool) -> ScanResult {
    let filter_args = FilterArgs {
        include_vendored,
        include_generated,
        include_submodules: false,
        include_globs: Vec::new(),
        exclude_globs: Vec::new(),
    };
    let scan_args = ScanArgs { slug: vec!["REQ".to_string()] };
    let excludes = parse_gitattributes(Some(ATTRIBUTES));
    let files: Vec<SourceFile> = fixtures()
        .into_iter()
        .filter(|(path, _)| !is_excluded(Some(path), &excludes, &filter_args))
        .map(|(path, text)| SourceFile { path: path.to_string(), contents: Ok(text.to_string()) })
        .collect();
    scan_files("", &files, &scan_args).unwrap()
}

#[test]
fn finds_rust_doc_comments() {
    let results = run_scan(false, false);

    assert!(results.contains_key("REQ-1"), "inner doc //!");
    assert!(results.contains_key("REQ-2"), "outer doc ///");
    assert!(results.contains_key("REQ-3"), "block doc /**");
}

#[test]
fn finds_typescript_jsdoc() {
    let results = run_scan(false, false);

    assert!(results.contains_key("REQ-10"));
    assert!(results.contains_key("REQ-11"));
    assert!(results.contains_key("REQ-12"));
}

#[test]
fn finds_javascript_jsdoc() {
    let results = run_scan(false, false);

    assert!(results.contains_key("REQ-20"));
    assert!(results.contains_key("REQ-21"));
    assert!(results.contains_key("REQ-22"));
}

#[test]
fn finds_java_javadoc() {
    let results = run_scan(false, false);

    assert!(results.contains_key("REQ-40"));
    assert!(results.contains_key("REQ-41"));
}

#[test]
fn finds_cpp_doc_comments() {
    let results = run_scan(false, false);

    assert!(results.contains_key("REQ-50"));
    assert!(results.contains_key("REQ-51"));
}

#[test]
fn finds_go_comments() {
    let results = run_scan(false, false);

    assert!(results.contains_key("REQ-30"), "Go // comment");
    assert!(results.contains_key("REQ-31"), "Go /* comment");
}

#[test]
fn finds_regular_comments_in_all_languages() {
    let results = run_scan(false, false);

    assert!(
        results.contains_key("REQ-999"),
        "regular comments should be found"
    );
}

#[test]
fn excludes_vendored_by_default() {
    let results = run_scan(false, false);

    assert!(
        !results.contains_key("REQ-100"),
        "vendor/ should be excluded"
    );
    assert!(
        !results.contains_key("REQ-101"),
        "third_party/ should be excluded"
    );
}

#[test]
fn includes_vendored_when_flag_set() {
    let results = run_scan(true, false);

    assert!(
        results.contains_key("REQ-100"),
        "vendor/ included with flag"
    );
    assert!(
        results.contains_key("REQ-101"),
        "third_party/ included with flag"
    );
}

#[test]
fn excludes_generated_by_default() {
    let results = run_scan(false, false);

    assert!(
        !results.contains_key("REQ-102"),
        "src/gen/ should be excluded"
    );
    assert!(
        !results.contains_key("REQ-103"),
        "*.generated.rs should be excluded"
    );
}

#[test]
fn includes_generated_when_flag_set() {
    let results = run_scan(false, true);

    assert!(
        results.contains_key("REQ-102"),
        "src/gen/ included with flag"
    );
    assert!(
        results.contains_key("REQ-103"),
        "*.generated.rs included with flag"
    );
}

#[test]
fn integration_aggregates_same_slug_across_files() {
    let results = run_scan(false, false);

    assert!(results.contains_key("REQ-2"));
    assert!(
        results.get("REQ-2").unwrap().len() >= 2,
        "REQ-2 appears in main.rs and lib.rs"
    );
}

#[test]
fn handles_multiple_slugs_on_one_line() {
    let results = run_scan(false, false);

    assert!(results.contains_key("REQ-60"));
    assert!(results.contains_key("REQ-61"));
    assert!(results.contains_key("REQ-62"));
}

#[test]
fn same_slug_different_lines_creates_multiple_entries() {
    let results = run_scan(false, false);

    assert!(results.contains_key("REQ-63"));
    assert_eq!(results.get("REQ-63").unwrap().len(), 2, "REQ-63 on two different lines");
}

#[test]
fn integration_dedupes_same_slug_same_line() {
    let results = run_scan(false, false);

    assert!(results.contains_key("REQ-64"));
    assert_eq!(results.get("REQ-64").unwrap().len(), 1, "REQ-64 repeated on same line");
}

#[test]
fn finds_inner_block_doc() {
    let results = run_scan(false, false);

    assert!(results.contains_key("REQ-65"));
}

#[test]
fn finds_slugs_with_special_chars_around() {
    let results = run_scan(false, false);

    assert!(results.contains_key("REQ-66"), "[REQ-66]");
    assert!(results.contains_key("REQ-67"), "(REQ-67)");
    assert!(results.contains_key("REQ-68"), "{{REQ-68}}");
}

#[test]
fn finds_trailing_slugs() {
    let results = run_scan(false, false);

    assert!(results.contains_key("REQ-69"));
}

#[test]
fn finds_slugs_in_urls() {
    let results = run_scan(false, false);

    assert!(results.contains_key("REQ-70"));
}

#[test]
fn preserves_leading_zeros() {
    let results = run_scan(false, false);

    assert!(results.contains_key("REQ-007"));
}

#[test]
fn file_paths_are_relative() {
    let results = run_scan(false, false);

    let entry = &results.get("REQ-1").unwrap()[0];
    assert!(
        !entry.file.starts_with('/'),
        "file path should be relative: {:?}",
        entry.file
    );
    assert!(
        entry.file.starts_with("src/"),
        "should start with src/: {:?}",
        entry.file
    );
}

#[test]
fn integration_skips_unsupported_file_types() {
    let results = run_scan(false, false);

    assert!(!results.contains_key("REQ-300"), "markdown not supported");
    assert!(
        !results.contains_key("REQ-301"),
        "json not supported for comments"
    );
}
