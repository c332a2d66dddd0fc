use tracy::git::{BlameInfo, GitMeta};
use tracy::output::{csv_escape, format_output, OutputFormat};
use tracy::scan::context::CodeContext;
use tracy::scan::scope::ScopeItem;
use tracy::scan::{Entry, ScanResult};

fn entry_with_text(comment_text: &str) -> Entry {
    Entry {
        file: "src/lib.rs".to_string(),
        line: 1,
        comment_text: comment_text.to_string(),
        above: None,
        below: None,
        inline: None,
        scope: Vec::new(),
        blame: None,
    }
}

fn one_result_with_text(comment_text: &str) -> ScanResult {
    let mut results = ScanResult::new();
    results.push("REQ-1".to_string(), entry_with_text(comment_text));
    results
}

fn one_result() -> ScanResult {
    one_result_with_text("// REQ-1: validate input")
}

fn full_entry() -> Entry {
    Entry {
        file: "src\\win.rs".to_string(),
        line: 12,
        comment_text: "// REQ-2 \"x\"".to_string(),
        above: Some(CodeContext {
            kind: "function_item".to_string(),
            name: Some("before".to_string()),
            text: "fn before() {}".to_string(),
        }),
        below: Some(CodeContext {
            kind: "let_declaration".to_string(),
            name: None,
            text: "let a = 1;".to_string(),
        }),
        inline: None,
        scope: vec![
            ScopeItem { kind: "function_item".to_string(), name: Some("run".to_string()) },
            ScopeItem { kind: "impl_item".to_string(), name: None },
        ],
        blame: Some(BlameInfo {
            commit: "abc123".to_string(),
            author: Some("Ann".to_string()),
            author_mail: None,
            author_time: Some(-5),
            summary: Some("first".to_string()),
        }),
    }
}

#[test]
fn json_without_meta_is_plain_results() {
    let results = one_result();
    let out = format_output(OutputFormat::Json, None, &results).unwrap();
    let value: serde_json::Value = serde_json::from_str(&out).unwrap();
    assert!(value.get("REQ-1").is_some());
    assert!(value.get("meta").is_none());
    assert!(value.get("results").is_none());
}

#[test]
fn json_with_meta_wraps_results() {
    let results = one_result();
    let meta = GitMeta {
        repo_root: "/repo".to_string(),
        head_sha: "a".repeat(40),
        head_ref: Some("main".to_string()),
        is_dirty: false,
    };

    let out = format_output(OutputFormat::Json, Some(&meta), &results).unwrap();
    let value: serde_json::Value = serde_json::from_str(&out).unwrap();
    assert!(value.get("meta").is_some());
    assert!(value.get("results").is_some());
    assert!(value.get("REQ-1").is_none());
}

#[test]
fn jsonl_emits_meta_then_matches() {
    let results = one_result();
    let meta = GitMeta {
        repo_root: "/repo".to_string(),
        head_sha: "a".repeat(40),
        head_ref: None,
        is_dirty: true,
    };

    let out = format_output(OutputFormat::Jsonl, Some(&meta), &results).unwrap();
    let lines: Vec<&str> = out.split('\n').collect();
    assert_eq!(lines.len(), 2);

    let meta_line: serde_json::Value = serde_json::from_str(lines[0]).unwrap();
    assert_eq!(meta_line["type"], "meta");
    assert!(meta_line["meta"].is_object());

    let match_line: serde_json::Value = serde_json::from_str(lines[1]).unwrap();
    assert_eq!(match_line["type"], "match");
    assert_eq!(match_line["requirement_id"], "REQ-1");
    assert!(match_line["entry"].is_object());
}

#[test]
fn csv_escapes_commas_and_quotes() {
    let results = one_result_with_text("// REQ-1, \"quoted\"");

    let out = format_output(OutputFormat::Csv, None, &results).unwrap();
    let lines: Vec<&str> = out.split('\n').collect();
    assert_eq!(
        lines[0],
        "requirement_id,file,line,comment_text,above,below,inline,scope,blame"
    );
    assert!(
        lines[1].contains("\"// REQ-1, \"\"quoted\"\"\""),
        "expected csv escaping, got: {}",
        lines[1]
    );
}

#[test]
fn sarif_has_basic_structure() {
    let results = one_result();
    let out = format_output(OutputFormat::Sarif, None, &results).unwrap();
    let value: serde_json::Value = serde_json::from_str(&out).unwrap();
    assert_eq!(value["version"], "2.1.0");

    let run = &value["runs"][0];
    assert_eq!(run["tool"]["driver"]["name"], "tracy");

    let result = &run["results"][0];
    assert_eq!(result["ruleId"], "traceability.requirement_ref");
    assert_eq!(result["properties"]["requirement_id"], "REQ-1");
    assert_eq!(
        result["locations"][0]["physicalLocation"]["artifactLocation"]["uri"],
        "src/lib.rs"
    );
    assert_eq!(
        result["locations"][0]["physicalLocation"]["region"]["startLine"],
        1
    );
}

#[test]
fn json_report_has_the_exact_indented_text() {
    let out = format_output(OutputFormat::Json, None, &one_result()).unwrap();
    let expected = "{\n  \"REQ-1\": [\n    {\n      \"file\": \"src/lib.rs\",\n      \"line\": 1,\n      \"comment_text\": \"// REQ-1: validate input\"\n    }\n  ]\n}";
    assert_eq!(out, expected);
}

#[test]
fn json_report_of_empty_mapping_is_an_empty_object() {
    let out = format_output(OutputFormat::Json, None, &ScanResult::new()).unwrap();
    assert_eq!(out, "{}");
}

#[test]
fn json_strings_are_written_as_literals() {
    let results = one_result_with_text("say \"hi\"\n\ttab \\ done");
    let out = format_output(OutputFormat::Jsonl, None, &results).unwrap();
    assert!(out.contains("\"comment_text\":\"say \\\"hi\\\"\\n\\ttab \\\\ done\""), "{}", out);
    let value: serde_json::Value = serde_json::from_str(&out).unwrap();
    assert_eq!(value["entry"]["comment_text"], "say \"hi\"\n\ttab \\ done");
}

#[test]
fn jsonl_line_holds_every_present_field_in_order() {
    let mut results = ScanResult::new();
    results.push("REQ-2".to_string(), full_entry());
    let out = format_output(OutputFormat::Jsonl, None, &results).unwrap();
    let expected = "{\"type\":\"match\",\"requirement_id\":\"REQ-2\",\"entry\":{\"file\":\"src\\\\win.rs\",\"line\":12,\"comment_text\":\"// REQ-2 \\\"x\\\"\",\"above\":{\"kind\":\"function_item\",\"name\":\"before\",\"text\":\"fn before() {}\"},\"below\":{\"kind\":\"let_declaration\",\"text\":\"let a = 1;\"},\"scope\":[{\"kind\":\"function_item\",\"name\":\"run\"},{\"kind\":\"impl_item\"}],\"blame\":{\"commit\":\"abc123\",\"author\":\"Ann\",\"author_time\":-5,\"summary\":\"first\"}}}";
    assert_eq!(out, expected);
}

#[test]
fn jsonl_without_meta_and_results_is_empty() {
    let out = format_output(OutputFormat::Jsonl, None, &ScanResult::new()).unwrap();
    assert_eq!(out, "");
}

#[test]
fn csv_row_has_exact_cells_with_meta() {
    let mut results = ScanResult::new();
    results.push("REQ-2".to_string(), full_entry());
    let meta = GitMeta {
        repo_root: "/repo".to_string(),
        head_sha: "deadbeef".to_string(),
        head_ref: None,
        is_dirty: true,
    };
    let out = format_output(OutputFormat::Csv, Some(&meta), &results).unwrap();
    let lines: Vec<&str> = out.split('\n').collect();
    assert_eq!(lines.len(), 2);
    assert_eq!(
        lines[0],
        "requirement_id,file,line,comment_text,above,below,inline,scope,blame,repo_root,head_sha,head_ref,is_dirty"
    );
    let expected = "REQ-2,src\\win.rs,12,\"// REQ-2 \"\"x\"\"\",\"{\"\"kind\"\":\"\"function_item\"\",\"\"name\"\":\"\"before\"\",\"\"text\"\":\"\"fn before() {}\"\"}\",\"{\"\"kind\"\":\"\"let_declaration\"\",\"\"text\"\":\"\"let a = 1;\"\"}\",,\"[{\"\"kind\"\":\"\"function_item\"\",\"\"name\"\":\"\"run\"\"},{\"\"kind\"\":\"\"impl_item\"\"}]\",\"{\"\"commit\"\":\"\"abc123\"\",\"\"author\"\":\"\"Ann\"\",\"\"author_time\"\":-5,\"\"summary\"\":\"\"first\"\"}\",/repo,deadbeef,,true";
    assert_eq!(lines[1], expected);
}

#[test]
fn csv_rows_follow_key_order_then_occurrence_order() {
    let mut results = ScanResult::new();
    results.push("REQ-2".to_string(), entry_with_text("b"));
    results.push("REQ-10".to_string(), entry_with_text("a"));
    results.push("REQ-2".to_string(), entry_with_text("c"));
    let out = format_output(OutputFormat::Csv, None, &results).unwrap();
    let lines: Vec<&str> = out.split('\n').collect();
    assert_eq!(lines.len(), 4);
    assert_eq!(lines[1], "REQ-10,src/lib.rs,1,a,,,,,");
    assert_eq!(lines[2], "REQ-2,src/lib.rs,1,b,,,,,");
    assert_eq!(lines[3], "REQ-2,src/lib.rs,1,c,,,,,");
}

#[test]
fn csv_escape_leaves_plain_values_alone() {
    assert_eq!(csv_escape("plain value"), "plain value");
    assert_eq!(csv_escape(""), "");
}

#[test]
fn csv_escape_quotes_each_special_character() {
    assert_eq!(csv_escape("a,b"), "\"a,b\"");
    assert_eq!(csv_escape("a\"b"), "\"a\"\"b\"");
    assert_eq!(csv_escape("a\nb"), "\"a\nb\"");
    assert_eq!(csv_escape("a\rb"), "\"a\rb\"");
    assert_eq!(csv_escape("\"\""), "\"\"\"\"\"\"");
}

#[test]
fn sarif_uri_uses_slashes_and_carries_blame_and_meta() {
    let mut results = ScanResult::new();
    results.push("REQ-2".to_string(), full_entry());
    let meta = GitMeta {
        repo_root: "/repo".to_string(),
        head_sha: "deadbeef".to_string(),
        head_ref: Some("main".to_string()),
        is_dirty: false,
    };
    let out = format_output(OutputFormat::Sarif, Some(&meta), &results).unwrap();
    let value: serde_json::Value = serde_json::from_str(&out).unwrap();
    assert_eq!(
        value["$schema"],
        "https://schemastore.azurewebsites.net/schemas/json/sarif-2.1.0.json"
    );
    let run = &value["runs"][0];
    assert_eq!(run["tool"]["driver"]["rules"][0]["id"], "traceability.requirement_ref");
    assert_eq!(
        run["tool"]["driver"]["rules"][0]["shortDescription"]["text"],
        "Requirement references found in comments"
    );
    let result = &run["results"][0];
    assert_eq!(result["level"], "note");
    assert_eq!(result["message"]["text"], "Requirement reference: REQ-2");
    assert_eq!(
        result["locations"][0]["physicalLocation"]["artifactLocation"]["uri"],
        "src/win.rs"
    );
    assert_eq!(result["locations"][0]["physicalLocation"]["region"]["startLine"], 12);
    assert_eq!(result["properties"]["comment_text"], "// REQ-2 \"x\"");
    assert_eq!(result["properties"]["blame"]["commit"], "abc123");
    assert_eq!(result["properties"]["blame"]["author_time"], -5);
    assert_eq!(run["properties"]["head_ref"], "main");
    assert_eq!(run["properties"]["is_dirty"], false);
}

#[test]
fn json_with_meta_has_the_exact_indented_text() {
    let meta = GitMeta {
        repo_root: "/repo".to_string(),
        head_sha: "abc".to_string(),
        head_ref: None,
        is_dirty: true,
    };
    let out = format_output(OutputFormat::Json, Some(&meta), &ScanResult::new()).unwrap();
    let expected = "{\n  \"meta\": {\n    \"repo_root\": \"/repo\",\n    \"head_sha\": \"abc\",\n    \"is_dirty\": true\n  },\n  \"results\": {}\n}";
    assert_eq!(out, expected);
}
