use tracy::scan::comments::{locate_comments, Comment};
use tracy::scan::context::{first_line, CodeContext, Extractor};
use tracy::scan::dedup::Deduplicator;
use tracy::scan::language::{detect_language, is_comment, parse_tree, profile_for};
use tracy::scan::marker::{compile_markers, find_slugs};
use tracy::scan::scope::{resolve_scopes, ScopeItem};
use tracy::scan::tree::{RawNode, SyntaxTree};
use tracy::scan::{
    is_supported, scan_file, scan_files, scan_read, scan_tree, ScanArgs, ScanError, ScanResult,
    SourceFile,
};

fn source(path: &str, content: &str) -> SourceFile {
    SourceFile { path: path.to_string(), contents: Ok(content.to_string()) }
}

fn scan_text(path: &str, content: &str, slug: &str) -> ScanResult {
    scan_files("", &vec![source(path, content)], &ScanArgs { slug: vec![slug.to_string()] }).unwrap()
}

fn node(kind: &str, depth: usize, start: usize, end: usize, name: Option<&str>, text: &str) -> RawNode {
    RawNode {
        kind: kind.to_string(),
        text: text.to_string(),
        depth,
        start_line: start,
        end_line: end,
        end_column: 1,
        names: vec![name.map(|n| n.to_string())],
    }
}

fn context(kind: &str, name: Option<&str>, text: &str) -> CodeContext {
    CodeContext { kind: kind.to_string(), name: name.map(|n| n.to_string()), text: text.to_string() }
}

fn scope(kind: &str, name: Option<&str>) -> ScopeItem {
    ScopeItem { kind: kind.to_string(), name: name.map(|n| n.to_string()) }
}

// A module that holds an implementation block that holds a method with a
// comment in its body.
fn nested_tree() -> SyntaxTree {
    let raw = vec![
        node("source_file", 0, 0, 9, None, "mod m {"),
        node("mod_item", 1, 0, 8, Some("m"), "mod m {\n..."),
        node("declaration_list", 2, 0, 8, None, "{"),
        node("impl_item", 3, 1, 7, None, "impl S {\n..."),
        node("declaration_list", 4, 1, 7, None, "{"),
        node("function_item", 5, 2, 6, Some("method"), "fn method(&self) {\n..."),
        node("block", 6, 2, 6, None, "{"),
        node("line_comment", 7, 3, 3, None, "// REQ-1 inside"),
        node("let_declaration", 7, 4, 4, None, "let x = 1;"),
        node("line_comment", 7, 4, 4, None, "// REQ-2 trailing"),
        node("}", 7, 6, 6, None, "}"),
    ];
    SyntaxTree::from_raw(&raw).unwrap()
}

#[test]
fn scope_chain_runs_from_method_to_module() {
    let tree = nested_tree();
    let profile = profile_for("Rust");
    let extractor = Extractor::new(&tree, &profile);
    let chain = resolve_scopes(&extractor, 7);
    assert_eq!(
        chain,
        vec![
            scope("function_item", Some("method")),
            scope("impl_item", None),
            scope("mod_item", Some("m")),
        ]
    );
}

#[test]
fn scope_chain_of_top_level_node_is_empty() {
    let raw = vec![
        node("source_file", 0, 0, 1, None, "// REQ-1"),
        node("line_comment", 1, 0, 0, None, "// REQ-1"),
    ];
    let tree = SyntaxTree::from_raw(&raw).unwrap();
    let profile = profile_for("Rust");
    let extractor = Extractor::new(&tree, &profile);
    assert!(resolve_scopes(&extractor, 1).is_empty());
}

#[test]
fn scope_kinds_depend_on_the_language() {
    let tree = nested_tree();
    let profile = profile_for("Python");
    let extractor = Extractor::new(&tree, &profile);
    assert!(resolve_scopes(&extractor, 7).is_empty());
}

#[test]
fn scope_chain_from_parsed_rust_source() {
    let src = "mod m {\n    impl S {\n        fn method(&self) {\n            // REQ-1\n        }\n    }\n}\n";
    let results = scan_text("a.rs", src, "REQ");
    let entry = &results.get("REQ-1").unwrap()[0];
    assert_eq!(
        entry.scope,
        vec![
            scope("function_item", Some("method")),
            scope("impl_item", None),
            scope("mod_item", Some("m")),
        ]
    );
}

#[test]
fn scope_chain_from_parsed_python_source() {
    let src = "class Shape:\n    def area(self):\n        # REQ-4: formula\n        return 1\n";
    let results = scan_text("shape.py", src, "REQ");
    let entry = &results.get("REQ-4").unwrap()[0];
    assert_eq!(
        entry.scope,
        vec![scope("function_definition", Some("area")), scope("class_definition", Some("Shape"))]
    );
}

#[test]
fn inline_context_is_the_construct_on_the_comments_line() {
    let tree = nested_tree();
    let profile = profile_for("Rust");
    let extractor = Extractor::new(&tree, &profile);
    assert_eq!(extractor.inline(9), Some(context("let_declaration", None, "let x = 1;")));
}

#[test]
fn comment_alone_on_its_line_has_no_inline_context() {
    let tree = nested_tree();
    let profile = profile_for("Rust");
    let extractor = Extractor::new(&tree, &profile);
    assert_eq!(extractor.inline(7), None);
}

#[test]
fn above_context_is_the_enclosing_construct_at_its_opening_line() {
    let tree = nested_tree();
    let profile = profile_for("Rust");
    let extractor = Extractor::new(&tree, &profile);
    assert_eq!(
        extractor.above(7),
        Some(context("function_item", Some("method"), "fn method(&self) {"))
    );
}

#[test]
fn above_context_skips_comments_and_blank_lines() {
    let raw = vec![
        node("source_file", 0, 0, 9, None, ""),
        node("function_item", 1, 0, 1, Some("a"), "fn a() {\n}"),
        node("}", 2, 1, 1, None, "}"),
        node("line_comment", 1, 3, 3, None, "// note"),
        node("line_comment", 1, 5, 5, None, "// REQ-1"),
    ];
    let tree = SyntaxTree::from_raw(&raw).unwrap();
    let profile = profile_for("Rust");
    let extractor = Extractor::new(&tree, &profile);
    assert_eq!(extractor.above(4), Some(context("function_item", Some("a"), "fn a() {")));
    assert_eq!(extractor.above(3), Some(context("function_item", Some("a"), "fn a() {")));
}

#[test]
fn first_comment_of_a_file_has_no_above_context() {
    let raw = vec![
        node("source_file", 0, 0, 3, None, ""),
        node("line_comment", 1, 0, 0, None, "// REQ-1"),
        node("function_item", 1, 1, 1, Some("a"), "fn a() {}"),
    ];
    let tree = SyntaxTree::from_raw(&raw).unwrap();
    let profile = profile_for("Rust");
    let extractor = Extractor::new(&tree, &profile);
    assert_eq!(extractor.above(1), None);
    assert_eq!(extractor.below(1), Some(context("function_item", Some("a"), "fn a() {}")));
}

#[test]
fn stacked_comments_share_their_below_context() {
    let raw = vec![
        node("source_file", 0, 0, 6, None, ""),
        node("line_comment", 1, 0, 0, None, "// REQ-1"),
        node("line_comment", 1, 1, 1, None, "// REQ-2"),
        node("block_comment", 1, 2, 3, None, "/* REQ-3\n */"),
        node("function_item", 1, 5, 5, Some("target"), "fn target() {}"),
        node("fn", 2, 5, 5, None, "fn"),
    ];
    let tree = SyntaxTree::from_raw(&raw).unwrap();
    let profile = profile_for("Rust");
    let extractor = Extractor::new(&tree, &profile);
    let expected = Some(context("function_item", Some("target"), "fn target() {}"));
    assert_eq!(extractor.below(1), expected);
    assert_eq!(extractor.below(2), expected);
    assert_eq!(extractor.below(3), expected);
}

#[test]
fn block_of_comments_ends_at_a_line_with_code() {
    let raw = vec![
        node("source_file", 0, 0, 6, None, ""),
        node("line_comment", 1, 0, 0, None, "// REQ-1"),
        node("let_declaration", 1, 1, 1, None, "let a = 1;"),
        node("line_comment", 1, 1, 1, None, "// trailing"),
        node("function_item", 1, 2, 2, Some("later"), "fn later() {}"),
    ];
    let tree = SyntaxTree::from_raw(&raw).unwrap();
    let profile = profile_for("Rust");
    let extractor = Extractor::new(&tree, &profile);
    assert_eq!(extractor.below(1), Some(context("let_declaration", None, "let a = 1;")));
    assert_eq!(extractor.below(3), Some(context("function_item", Some("later"), "fn later() {}")));
}

#[test]
fn last_comment_of_a_file_has_no_below_context() {
    let raw = vec![
        node("source_file", 0, 0, 2, None, ""),
        node("function_item", 1, 0, 0, Some("a"), "fn a() {}"),
        node("line_comment", 1, 1, 1, None, "// REQ-1"),
    ];
    let tree = SyntaxTree::from_raw(&raw).unwrap();
    let profile = profile_for("Rust");
    let extractor = Extractor::new(&tree, &profile);
    assert_eq!(extractor.below(2), None);
}

#[test]
fn parts_of_a_comment_are_no_context() {
    let raw = vec![
        node("source_file", 0, 0, 2, None, ""),
        node("line_comment", 1, 0, 0, None, "/// REQ-1"),
        node("//", 2, 0, 0, None, "//"),
        node("doc_comment", 2, 0, 0, None, " REQ-1"),
    ];
    let tree = SyntaxTree::from_raw(&raw).unwrap();
    let profile = profile_for("Rust");
    let extractor = Extractor::new(&tree, &profile);
    assert_eq!(extractor.inline(1), None);
    assert_eq!(extractor.above(1), None);
    assert_eq!(extractor.below(1), None);
}

#[test]
fn context_text_is_the_first_line_only() {
    assert_eq!(first_line("fn a() {\n    body();\n}"), "fn a() {");
    assert_eq!(first_line("one line"), "one line");
    assert_eq!(first_line("windows\r\nnext"), "windows");
    assert_eq!(first_line(""), "");
    assert_eq!(first_line("\nrest"), "");
}

#[test]
fn scenario_two_stacked_markers_before_a_function() {
    let src = "// marker REQ-1: first\n// marker REQ-2: second\nfn handler() {}\n";
    let results = scan_text("a.rs", src, "REQ");
    assert_eq!(results.len(), 2);
    let first = results.get("REQ-1").unwrap();
    let second = results.get("REQ-2").unwrap();
    assert_eq!(first.len(), 1);
    assert_eq!(second.len(), 1);
    assert_eq!(first[0].below.as_ref().unwrap().name.as_deref(), Some("handler"));
    assert_eq!(second[0].below.as_ref().unwrap().name.as_deref(), Some("handler"));
    assert_eq!(first[0].below, second[0].below);
    assert_eq!(first[0].below.as_ref().unwrap().kind, "function_item");
}

#[test]
fn scenario_declaration_with_trailing_marker() {
    let results = scan_text("a.js", "const limit = 5; // REQ-5", "REQ");
    assert_eq!(results.len(), 1);
    let entries = results.get("REQ-5").unwrap();
    assert_eq!(entries.len(), 1);
    let entry = &entries[0];
    assert_eq!(entry.line, 1);
    let inline = entry.inline.as_ref().unwrap();
    assert_eq!(inline.kind, "lexical_declaration");
    assert_eq!(inline.text, "const limit = 5;");
    assert_eq!(entry.above, None);
    assert_eq!(entry.below, None);
}

#[test]
fn scenario_unsupported_extension_gives_nothing_and_no_error() {
    let files = vec![
        source("notes.xyz", "// REQ-1"),
        SourceFile { path: "blob.unknown".to_string(), contents: Err("unreadable".to_string()) },
        source("LICENSE", "// REQ-2"),
    ];
    let results = scan_files("", &files, &ScanArgs { slug: vec!["REQ".to_string()] }).unwrap();
    assert!(results.is_empty());
    assert!(!is_supported("notes.xyz"));
    assert!(is_supported("src/deep/lib.rs"));
    assert!(is_supported("a.py"));
    assert!(!is_supported("rs"));
}

#[test]
fn case_sensitivity_of_markers() {
    let results = scan_text("a.rs", "// req-1 Req-2\n", "REQ");
    assert!(results.is_empty());
}

#[test]
fn digits_are_kept_verbatim() {
    let results = scan_text("a.rs", "// REQ-007\n// REQ-7\n", "REQ");
    assert_eq!(results.len(), 2);
    assert_eq!(results.get("REQ-007").unwrap()[0].line, 1);
    assert_eq!(results.get("REQ-7").unwrap()[0].line, 2);
}

#[test]
fn several_marker_prefixes_are_matched_together() {
    let args = ScanArgs { slug: vec!["REQ".to_string(), "LIN".to_string()] };
    let results =
        scan_files("", &vec![source("a.rs", "// REQ-1 and LIN-22 and BUG-3\nfn a() {}")], &args)
            .unwrap();
    assert_eq!(results.len(), 2);
    assert!(results.contains_key("REQ-1"));
    assert!(results.contains_key("LIN-22"));
}

#[test]
fn marker_prefix_is_taken_literally() {
    let results = scan_text("a.rs", "// AxB-1 and A.B-2\n", "A.B");
    assert_eq!(results.len(), 1);
    assert!(results.contains_key("A.B-2"));
}

#[test]
fn empty_marker_set_is_refused() {
    let outcome = scan_files("", &vec![source("a.rs", "// REQ-1")], &ScanArgs { slug: Vec::new() });
    assert!(matches!(outcome, Err(ScanError::NoMarkers)));
    assert!(matches!(compile_markers(&Vec::new()), Err(ScanError::NoMarkers)));
}

#[test]
fn pattern_too_large_to_compile_is_refused() {
    let marker = "a".repeat(1_000_000);
    let outcome = compile_markers(&vec![marker]);
    match outcome {
        Err(ScanError::InvalidPattern { message }) => {
            assert!(ScanError::InvalidPattern { message }.message().starts_with("invalid slug pattern: "))
        }
        _ => panic!("expected the pattern to be refused"),
    }
}

#[test]
fn unreadable_supported_file_ends_the_scan() {
    let files = vec![
        source("a.rs", "// REQ-1"),
        SourceFile { path: "b.rs".to_string(), contents: Err("permission denied".to_string()) },
        SourceFile { path: "c.rs".to_string(), contents: Err("later".to_string()) },
    ];
    let outcome = scan_files("", &files, &ScanArgs { slug: vec!["REQ".to_string()] });
    match outcome {
        Err(ScanError::ReadFile { path, message }) => {
            assert_eq!(path, "b.rs");
            assert_eq!(message, "permission denied");
            let shown = ScanError::ReadFile { path, message }.message();
            assert_eq!(shown, "failed to read file b.rs: permission denied");
        }
        _ => panic!("expected a read failure"),
    }
}

#[test]
fn scan_error_message_for_missing_markers() {
    assert_eq!(ScanError::NoMarkers.message(), "no slug pattern given");
}

#[test]
fn find_slugs_returns_matches_in_order_without_overlap() {
    let pattern = compile_markers(&vec!["REQ".to_string()]).unwrap();
    assert_eq!(
        find_slugs(&pattern, "MYREQ-12 REQ-3, REQ-12REQ-4 REQ- REQ-x"),
        vec!["REQ-12", "REQ-3", "REQ-12", "REQ-4"]
    );
    assert!(find_slugs(&pattern, "nothing here").is_empty());
}

#[test]
fn occurrences_keep_file_order_then_source_order() {
    let files = vec![
        source("z.rs", "// REQ-1 z first\nfn a() {}\n// REQ-1 z second\n"),
        source("a.rs", "// REQ-1 a\n"),
    ];
    let results = scan_files("", &files, &ScanArgs { slug: vec!["REQ".to_string()] }).unwrap();
    let entries = results.get("REQ-1").unwrap();
    let places: Vec<(String, usize)> = entries.iter().map(|e| (e.file.clone(), e.line)).collect();
    assert_eq!(
        places,
        vec![("z.rs".to_string(), 1), ("z.rs".to_string(), 3), ("a.rs".to_string(), 1)]
    );
}

#[test]
fn keys_are_kept_in_string_order() {
    let results = scan_text("a.rs", "// REQ-2 REQ-10 REQ-1 REQ-007\n", "REQ");
    let keys: Vec<String> = (0..results.len()).map(|i| results.slug(i).clone()).collect();
    assert_eq!(keys, vec!["REQ-007", "REQ-1", "REQ-10", "REQ-2"]);
}

#[test]
fn scanning_twice_gives_the_same_mapping() {
    let files = vec![
        source("a.rs", "/// REQ-1 doc\nfn a() { let x = 1; // REQ-2\n}\n"),
        source("b.py", "# REQ-1\ndef f():\n    pass\n"),
    ];
    let args = ScanArgs { slug: vec!["REQ".to_string()] };
    let first = scan_files("", &files, &args).unwrap();
    let second = scan_files("", &files, &args).unwrap();
    assert_eq!(format!("{:?}", first), format!("{:?}", second));
}

#[test]
fn no_two_occurrences_of_a_file_share_identifier_and_line() {
    let src = "/// REQ-1 REQ-1\n/// REQ-1\nfn a() {} // REQ-1 REQ-1\n/* REQ-1\n REQ-1 */\n";
    let results = scan_text("a.rs", src, "REQ");
    let lines: Vec<usize> = results.get("REQ-1").unwrap().iter().map(|e| e.line).collect();
    assert_eq!(lines, vec![1, 2, 3, 4]);
}

#[test]
fn comment_text_is_that_of_the_outermost_comment_node() {
    let results = scan_text("a.rs", "/* REQ-1\n   REQ-2 */\nfn a() {}", "REQ");
    assert_eq!(results.get("REQ-1").unwrap()[0].comment_text, "/* REQ-1\n   REQ-2 */");
    assert_eq!(results.get("REQ-2").unwrap()[0].comment_text, "/* REQ-1\n   REQ-2 */");
    assert_eq!(results.get("REQ-2").unwrap()[0].line, 1);
}

#[test]
fn scan_file_adds_to_an_existing_mapping() {
    let pattern = compile_markers(&vec!["REQ".to_string()]).unwrap();
    let mut results = ScanResult::new();
    scan_file("", "a.rs", "// REQ-1\n", &pattern, &mut results);
    scan_file("", "b.txt", "// REQ-1\n", &pattern, &mut results);
    scan_file("repo", "repo/c.go", "package main\n// REQ-1\n", &pattern, &mut results);
    let entries = results.get("REQ-1").unwrap();
    assert_eq!(entries.len(), 2);
    assert_eq!(entries[0].file, "a.rs");
    assert_eq!(entries[1].file, "c.go");
    assert_eq!(entries[1].line, 2);
}

#[test]
fn scan_tree_reads_a_hand_built_tree() {
    let pattern = compile_markers(&vec!["REQ".to_string()]).unwrap();
    let profile = profile_for("Rust");
    let tree = nested_tree();
    let mut results = ScanResult::new();
    scan_tree("hand.rs", &tree, &profile, &pattern, &mut results);
    assert_eq!(results.len(), 2);
    let first = &results.get("REQ-1").unwrap()[0];
    assert_eq!(first.file, "hand.rs");
    assert_eq!(first.line, 4);
    assert_eq!(first.comment_text, "// REQ-1 inside");
    assert_eq!(first.inline, None);
    assert_eq!(first.below, Some(context("let_declaration", None, "let x = 1;")));
    assert_eq!(first.blame, None);
    let second = &results.get("REQ-2").unwrap()[0];
    assert_eq!(second.line, 5);
    assert_eq!(second.inline, Some(context("let_declaration", None, "let x = 1;")));
    assert_eq!(second.below, Some(context("}", None, "}")));
}

#[test]
fn comment_kinds_contain_the_comment_token() {
    assert!(is_comment("comment"));
    assert!(is_comment("line_comment"));
    assert!(is_comment("doc_comment_marker"));
    assert!(!is_comment("commen"));
    assert!(!is_comment("function_item"));
    assert!(!is_comment(""));
    assert!(!is_comment("Comment"));
}

#[test]
fn language_is_judged_by_the_extension() {
    assert_eq!(detect_language("a/b/c.rs").unwrap().name(), "Rust");
    assert_eq!(detect_language("x.py").unwrap().name(), "Python");
    assert_eq!(detect_language("x.tsx").unwrap().name(), "Tsx");
    assert!(detect_language("x.rs.bak").is_none());
}

#[test]
fn parser_gives_the_tree_with_names_and_lines() {
    let language = detect_language("a.rs").unwrap();
    let profile = profile_for(language.name());
    let tree = parse_tree(&language, "fn alpha() {}\n// note\n", &profile).unwrap();
    assert_eq!(tree.node(0).kind, "source_file");
    assert_eq!(tree.node(0).parent, None);
    assert_eq!(tree.node(1).kind, "function_item");
    assert_eq!(tree.node(1).parent, Some(0));
    assert_eq!(tree.node(1).name.as_deref(), Some("alpha"));
    assert_eq!(tree.node(1).text, "fn alpha() {}");
    assert_eq!(tree.node(1).first_line, 0);
    assert_eq!(tree.node(1).last_line, 0);
    assert_eq!(tree.node(2).kind, "fn");
    assert_eq!(tree.node(2).parent, Some(1));
    let last = tree.node(tree.len() - 2);
    assert_eq!(last.kind, "line_comment");
    assert_eq!(last.first_line, 1);
    assert_eq!(last.parent, Some(0));
}

#[test]
fn names_follow_the_fields_of_the_language() {
    let language = detect_language("a.c").unwrap();
    let profile = profile_for(language.name());
    let tree = parse_tree(&language, "int main(void) { return 0; }\n", &profile).unwrap();
    assert_eq!(tree.node(1).kind, "function_definition");
    assert_eq!(tree.node(1).name.as_deref(), Some("main(void)"));
}

#[test]
fn language_table_entries() {
    let rust = profile_for("Rust");
    assert_eq!(rust.comment_token, "comment");
    assert_eq!(rust.name_fields, vec!["name"]);
    assert!(rust.is_scope(&"impl_item".to_string()));
    assert!(!rust.is_scope(&"class_definition".to_string()));
    let c = profile_for("C");
    assert_eq!(c.name_fields, vec!["name", "declarator"]);
    assert!(c.is_scope(&"function_definition".to_string()));
    let unknown = profile_for("Klingon");
    assert!(unknown.scope_kinds.is_empty());
    assert_eq!(unknown.name_fields, vec!["name"]);
}

#[test]
fn comments_are_located_in_document_order() {
    let tree = nested_tree();
    let profile = profile_for("Rust");
    assert_eq!(
        locate_comments(&tree, &profile),
        vec![
            Comment { node: 7, line: 4, text: "// REQ-1 inside".to_string() },
            Comment { node: 9, line: 5, text: "// REQ-2 trailing".to_string() },
        ]
    );
    let empty = SyntaxTree::from_raw(&Vec::new()).unwrap();
    assert!(locate_comments(&empty, &profile).is_empty());
}

#[test]
fn deduplicator_tells_first_sightings_apart() {
    let mut seen = Deduplicator::new();
    assert!(!seen.contains(&"REQ-1".to_string(), 3));
    assert!(seen.insert(&"REQ-1".to_string(), 3));
    assert!(!seen.insert(&"REQ-1".to_string(), 3));
    assert!(seen.insert(&"REQ-1".to_string(), 4));
    assert!(seen.insert(&"REQ-2".to_string(), 3));
    assert!(seen.contains(&"REQ-1".to_string(), 3));
    assert!(seen.contains(&"REQ-2".to_string(), 3));
    assert!(!seen.contains(&"REQ-2".to_string(), 4));
}

#[test]
fn file_listed_twice_is_scanned_twice() {
    let files = vec![source("a.rs", "// REQ-1\n"), source("a.rs", "// REQ-1\n")];
    let results = scan_files("", &files, &ScanArgs { slug: vec!["REQ".to_string()] }).unwrap();
    assert_eq!(results.get("REQ-1").unwrap().len(), 2);
}

#[test]
fn paths_are_recorded_relative_to_the_root() {
    let files = vec![
        source("/work/repo/src/a.rs", "// REQ-1\n"),
        source("/work/repository/b.rs", "// REQ-1\n"),
        source("/elsewhere/c.rs", "// REQ-1\n"),
    ];
    let args = ScanArgs { slug: vec!["REQ".to_string()] };
    let results = scan_files("/work/repo", &files, &args).unwrap();
    let recorded: Vec<String> =
        results.get("REQ-1").unwrap().iter().map(|e| e.file.clone()).collect();
    assert_eq!(recorded, vec!["src/a.rs", "/work/repository/b.rs", "/elsewhere/c.rs"]);
}

#[test]
fn language_is_judged_by_the_whole_path() {
    let pattern = compile_markers(&vec!["REQ".to_string()]).unwrap();
    let mut results = ScanResult::new();
    scan_file("a.rs", "a.rs", "// REQ-1\n", &pattern, &mut results);
    assert_eq!(results.get("REQ-1").unwrap()[0].file, "");
}

#[test]
fn scan_read_takes_one_file_at_a_time() {
    let pattern = compile_markers(&vec!["REQ".to_string()]).unwrap();
    let mut results = ScanResult::new();
    let text = Ok("// REQ-1\n".to_string());
    let failed = Err("no such file".to_string());

    assert!(scan_read("/r", "/r/a.rs", &text, &pattern, &mut results).is_ok());
    assert!(scan_read("/r", "/r/notes.txt", &failed, &pattern, &mut results).is_ok());
    assert!(scan_read("/r", "/r/notes.txt", &text, &pattern, &mut results).is_ok());
    assert_eq!(results.len(), 1);
    assert_eq!(results.get("REQ-1").unwrap().len(), 1);
    assert_eq!(results.get("REQ-1").unwrap()[0].file, "a.rs");

    match scan_read("/r", "/r/b.rs", &failed, &pattern, &mut results) {
        Err(ScanError::ReadFile { path, message }) => {
            assert_eq!(path, "/r/b.rs");
            assert_eq!(message, "no such file");
        }
        _ => panic!("expected a read failure"),
    }
    assert_eq!(results.len(), 1);
    assert_eq!(results.get("REQ-1").unwrap().len(), 1);
}

#[test]
fn patterns_are_compiled_before_any_file_is_taken_up() {
    let files = vec![SourceFile { path: "a.rs".to_string(), contents: Err("gone".to_string()) }];
    let outcome = scan_files("", &files, &ScanArgs { slug: Vec::new() });
    assert!(matches!(outcome, Err(ScanError::NoMarkers)));
}
