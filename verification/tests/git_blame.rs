use tracy::git::{
    add_blame, blame_args, blame_range, blame_requests, collect_git_meta, command_outcome,
    command_text, parse_blame_porcelain, query_args, trimmed, BlameInfo, BlameMap, BlameRequest,
    GitError, GitMeta, RepoQuery,
};
use tracy::scan::{scan_files, Entry, ScanArgs, ScanResult, SourceFile};

fn entry(file: &str, line: usize) -> Entry {
    Entry {
        file: file.to_string(),
        line,
        comment_text: format!("// at {line}"),
        above: None,
        below: None,
        inline: None,
        scope: Vec::new(),
        blame: None,
    }
}

fn info(commit: &str, author: Option<&str>, mail: Option<&str>, time: Option<i64>, summary: Option<&str>) -> BlameInfo {
    BlameInfo {
        commit: commit.to_string(),
        author: author.map(|s| s.to_string()),
        author_mail: mail.map(|s| s.to_string()),
        author_time: time,
        summary: summary.map(|s| s.to_string()),
    }
}

const FULL_BLOCK: &str = "1111111111111111111111111111111111111111 10 10 3\nauthor Ann Author\nauthor-mail <ann@example.com>\nauthor-time 946684800\nauthor-tz +0000\ncommitter Bob\nsummary first change\nfilename src/lib.rs\n\tlet x = 1;\n";

#[test]
fn run_length_is_expanded_over_consecutive_lines() {
    let table = parse_blame_porcelain(FULL_BLOCK);
    let expected = info(
        "1111111111111111111111111111111111111111",
        Some("Ann Author"),
        Some("ann@example.com"),
        Some(946684800),
        Some("first change"),
    );
    assert_eq!(table.get(10), Some(&expected));
    assert_eq!(table.get(11), Some(&expected));
    assert_eq!(table.get(12), Some(&expected));
    assert_eq!(table.get(9), None);
    assert_eq!(table.get(13), None);
}

#[test]
fn absent_run_length_counts_as_one() {
    let table = parse_blame_porcelain("abc 4 7\nauthor A\n\tcode\n");
    assert_eq!(table.get(7), Some(&info("abc", Some("A"), None, None, None)));
    assert_eq!(table.get(8), None);
    assert_eq!(table.get(4), None);
}

#[test]
fn unreadable_run_length_counts_as_one_and_zero_covers_nothing() {
    let table = parse_blame_porcelain("abc 1 5 many\n\tx\ndef 1 9 0\n\ty\n");
    assert!(table.get(5).is_some());
    assert_eq!(table.get(6), None);
    assert_eq!(table.get(9), None);
}

#[test]
fn metadata_is_retained_for_later_blocks_of_the_same_revision() {
    let output = "aaa 1 1 1\nauthor Ann\nauthor-mail <ann@x.org>\nauthor-time 100\nsummary one\n\tline one\nbbb 2 2 1\nauthor Bob\nsummary two\n\tline two\naaa 3 3 1\n\tline three\n";
    let table = parse_blame_porcelain(output);
    let ann = info("aaa", Some("Ann"), Some("ann@x.org"), Some(100), Some("one"));
    assert_eq!(table.get(1), Some(&ann));
    assert_eq!(table.get(2), Some(&info("bbb", Some("Bob"), None, None, Some("two"))));
    assert_eq!(table.get(3), Some(&ann));
}

#[test]
fn later_block_may_change_part_of_the_metadata() {
    let output = "aaa 1 1\nauthor Ann\nsummary one\n\tx\naaa 2 2\nsummary changed\n\ty\naaa 3 3\n\tz\n";
    let table = parse_blame_porcelain(output);
    assert_eq!(table.get(1), Some(&info("aaa", Some("Ann"), None, None, Some("one"))));
    assert_eq!(table.get(2), Some(&info("aaa", Some("Ann"), None, None, Some("changed"))));
    assert_eq!(table.get(3), Some(&info("aaa", Some("Ann"), None, None, Some("changed"))));
}

#[test]
fn malformed_and_blank_headers_are_skipped() {
    let output = "\n   \nnot-a-header\nabc x y\nabc 1\nabc 1 two\nabc one 2\nauthor Ann\n\tcode\n";
    let table = parse_blame_porcelain(output);
    assert_eq!(table.get(2), Some(&info("abc", Some("Ann"), None, None, None)));
    assert_eq!(table.get(1), None);
}

#[test]
fn block_without_content_line_is_closed_at_the_end_of_input() {
    let table = parse_blame_porcelain("abc 1 4 2\nauthor Ann");
    assert_eq!(table.get(4), Some(&info("abc", Some("Ann"), None, None, None)));
    assert_eq!(table.get(5), Some(&info("abc", Some("Ann"), None, None, None)));
}

#[test]
fn empty_output_gives_an_empty_table() {
    let table = parse_blame_porcelain("");
    assert_eq!(table.get(0), None);
    assert_eq!(table.get(1), None);
    assert!(table.spans.is_empty());
}

#[test]
fn mail_address_loses_white_space_and_angle_brackets() {
    let table = parse_blame_porcelain("abc 1 1\nauthor-mail   <<ann@x.org>>  \n\t\n");
    assert_eq!(table.get(1).unwrap().author_mail.as_deref(), Some("ann@x.org"));
    let table = parse_blame_porcelain("abc 1 1\nauthor-mail plain\n\t\n");
    assert_eq!(table.get(1).unwrap().author_mail.as_deref(), Some("plain"));
    let table = parse_blame_porcelain("abc 1 1\nauthor-mail <>\n\t\n");
    assert_eq!(table.get(1).unwrap().author_mail.as_deref(), Some(""));
}

#[test]
fn author_time_is_a_signed_number_or_nothing() {
    let table = parse_blame_porcelain("a 1 1\nauthor-time -42\n\t\nb 1 2\nauthor-time +7\n\t\nc 1 3\nauthor-time 12x\n\t\nd 1 4\nauthor-time 9223372036854775807\n\t\ne 1 5\nauthor-time 9223372036854775808\n\t\nf 1 6\nauthor-time -9223372036854775808\n\t\n");
    assert_eq!(table.get(1).unwrap().author_time, Some(-42));
    assert_eq!(table.get(2).unwrap().author_time, Some(7));
    assert_eq!(table.get(3).unwrap().author_time, None);
    assert_eq!(table.get(4).unwrap().author_time, Some(i64::MAX));
    assert_eq!(table.get(5).unwrap().author_time, None);
    assert_eq!(table.get(6).unwrap().author_time, Some(i64::MIN));
}

#[test]
fn unreadable_author_time_replaces_a_retained_one() {
    let table = parse_blame_porcelain("a 1 1\nauthor-time 5\n\t\na 2 2\nauthor-time soon\n\t\n");
    assert_eq!(table.get(1).unwrap().author_time, Some(5));
    assert_eq!(table.get(2).unwrap().author_time, None);
}

#[test]
fn values_are_kept_verbatim_after_the_first_space() {
    let table = parse_blame_porcelain("a 1 1\nauthor  Ann  B \nsummary fix: a b\nboundary\nprevious x y\n\tcode\n");
    let record = table.get(1).unwrap();
    assert_eq!(record.author.as_deref(), Some(" Ann  B "));
    assert_eq!(record.summary.as_deref(), Some("fix: a b"));
}

#[test]
fn carriage_returns_before_line_feeds_are_dropped() {
    let table = parse_blame_porcelain("a 1 1\r\nauthor Ann\r\n\tcode\r\n");
    assert_eq!(table.get(1).unwrap().author.as_deref(), Some("Ann"));
}

#[test]
fn later_block_overrides_an_earlier_one_for_the_same_line() {
    let table = parse_blame_porcelain("a 1 5 3\n\t\nb 1 6 1\n\t\n");
    assert_eq!(table.get(5).unwrap().commit, "a");
    assert_eq!(table.get(6).unwrap().commit, "b");
    assert_eq!(table.get(7).unwrap().commit, "a");
}

#[test]
fn header_with_large_numbers() {
    let max = usize::MAX;
    let table = parse_blame_porcelain(&format!("a 1 {max} 5\n\t\nb 1 {max}0 1\n\t\n"));
    assert_eq!(table.get(max).unwrap().commit, "a");
    assert_eq!(table.get(max - 1), None);
}

#[test]
fn header_fields_may_be_separated_by_any_white_space() {
    let table = parse_blame_porcelain("  a\t1   +3  2\n\t\n");
    assert_eq!(table.get(3).unwrap().commit, "a");
    assert_eq!(table.get(4).unwrap().commit, "a");
}

#[test]
fn table_record_overrides_and_keeps_other_lines() {
    let mut table = BlameMap::new();
    table.record(2, 3, info("a", None, None, None, None));
    table.record(3, 1, info("b", None, None, None, None));
    assert_eq!(table.get(1), None);
    assert_eq!(table.get(2).unwrap().commit, "a");
    assert_eq!(table.get(3).unwrap().commit, "b");
    assert_eq!(table.get(4).unwrap().commit, "a");
    assert_eq!(table.get(5), None);
}

#[test]
fn one_request_per_file_for_the_least_range() {
    let mut results = ScanResult::new();
    results.push("REQ-2".to_string(), entry("big.rs", 598));
    results.push("REQ-1".to_string(), entry("big.rs", 2));
    results.push("REQ-1".to_string(), entry("other.rs", 7));
    results.push("REQ-3".to_string(), entry("big.rs", 300));
    let requests = blame_requests(&results);
    assert_eq!(
        requests,
        vec![
            BlameRequest { file: "big.rs".to_string(), start_line: 2, end_line: 598 },
            BlameRequest { file: "other.rs".to_string(), start_line: 7, end_line: 7 },
        ]
    );
}

#[test]
fn no_occurrences_no_requests() {
    assert!(blame_requests(&ScanResult::new()).is_empty());
}

#[test]
fn request_arguments() {
    let request = BlameRequest { file: "src/a b.rs".to_string(), start_line: 2, end_line: 598 };
    assert_eq!(
        blame_args(&request),
        vec!["blame", "--line-porcelain", "-L", "2,598", "--", "src/a b.rs"]
    );
    let request = BlameRequest { file: "f".to_string(), start_line: 0, end_line: 1000 };
    assert_eq!(blame_args(&request)[3], "0,1000");
}

#[test]
fn attribution_is_assigned_per_line() {
    let mut results = ScanResult::new();
    results.push("REQ-1".to_string(), entry("file.txt", 1));
    results.push("REQ-2".to_string(), entry("file.txt", 2));
    results.push("REQ-2".to_string(), entry("untracked.txt", 2));
    results.push("REQ-3".to_string(), entry("file.txt", 9));
    let output = "aaa 1 1 1\nauthor Test\n\tREQ-1 first\nbbb 2 2 1\nauthor Test\n\tREQ-2 second changed\n";
    let requests = blame_requests(&results);
    assert_eq!(
        requests,
        vec![
            BlameRequest { file: "file.txt".to_string(), start_line: 1, end_line: 9 },
            BlameRequest { file: "untracked.txt".to_string(), start_line: 2, end_line: 2 },
        ]
    );
    let outcomes = vec![
        Ok(output.to_string()),
        Err(GitError::CommandFailed { cmd: "git blame".to_string(), stderr: "no such path".to_string() }),
        Ok("ccc 1 1 1\n\t\n".to_string()),
    ];
    let outcome = add_blame(Ok("true".to_string()), &mut results, &outcomes);
    assert_eq!(outcome, Ok(()));
    let first = results.get("REQ-1").unwrap()[0].blame.as_ref().unwrap();
    assert_eq!(first.commit, "aaa");
    assert_eq!(first.author.as_deref(), Some("Test"));
    let second = &results.get("REQ-2").unwrap();
    assert_eq!(second[0].blame.as_ref().unwrap().commit, "bbb");
    assert_eq!(second[1].blame, None);
    assert_eq!(second[1].file, "untracked.txt");
    assert_eq!(results.get("REQ-3").unwrap()[0].blame, None);
    assert_eq!(results.len(), 3);
    assert_eq!(second.len(), 2);
}

#[test]
fn attribution_replaces_an_earlier_one_only_where_the_file_is_answered() {
    let mut results = ScanResult::new();
    let mut old = entry("a.rs", 3);
    old.blame = Some(info("old", None, None, None, None));
    results.push("REQ-1".to_string(), old);
    let mut kept = entry("b.rs", 3);
    kept.blame = Some(info("kept", None, None, None, None));
    results.push("REQ-1".to_string(), kept);
    let outcomes = vec![Ok("new 1 1\n\t\n".to_string())];
    add_blame(Ok(String::new()), &mut results, &outcomes).unwrap();
    let entries = results.get("REQ-1").unwrap();
    assert_eq!(entries[0].blame, None);
    assert_eq!(entries[1].blame.as_ref().unwrap().commit, "kept");
}

#[test]
fn failed_probe_leaves_the_results_as_they_are() {
    let mut results = ScanResult::new();
    results.push("REQ-1".to_string(), entry("file.txt", 1));
    let mut earlier = entry("file.txt", 2);
    earlier.blame = Some(info("earlier", None, None, None, None));
    results.push("REQ-2".to_string(), earlier);
    let before = format!("{:?}", results);
    let outcomes = vec![Ok("aaa 1 1 2\n\t\n".to_string())];
    let outcome = add_blame(
        Err(GitError::CommandFailed {
            cmd: "git rev-parse --is-inside-work-tree".to_string(),
            stderr: "fatal: not a git repository".to_string(),
        }),
        &mut results,
        &outcomes,
    );
    assert_eq!(outcome, Ok(()));
    assert_eq!(format!("{:?}", results), before);
    assert_eq!(results.get("REQ-1").unwrap()[0].blame, None);
    assert_eq!(results.get("REQ-2").unwrap()[0].blame.as_ref().unwrap().commit, "earlier");
}

#[test]
fn failed_queries_leave_the_results_as_they_are() {
    let mut results = ScanResult::new();
    results.push("REQ-1".to_string(), entry("a.rs", 1));
    let mut earlier = entry("b.rs", 2);
    earlier.blame = Some(info("earlier", None, None, None, None));
    results.push("REQ-1".to_string(), earlier);
    let before = format!("{:?}", results);
    let outcomes = vec![
        Err(GitError::Run { message: "no git".to_string() }),
        Err(GitError::OutputUtf8 { message: "bad bytes".to_string() }),
    ];
    assert_eq!(add_blame(Ok("true".to_string()), &mut results, &outcomes), Ok(()));
    assert_eq!(format!("{:?}", results), before);

    let none: Vec<Result<String, GitError>> = Vec::new();
    assert_eq!(add_blame(Ok("true".to_string()), &mut results, &none), Ok(()));
    assert_eq!(format!("{:?}", results), before);
}

#[test]
fn each_file_is_decided_by_its_own_query() {
    let mut results = ScanResult::new();
    results.push("REQ-1".to_string(), entry("b.rs", 4));
    results.push("REQ-1".to_string(), entry("a.rs", 2));
    results.push("REQ-2".to_string(), entry("b.rs", 1));
    let requests = blame_requests(&results);
    assert_eq!(
        requests,
        vec![
            BlameRequest { file: "b.rs".to_string(), start_line: 1, end_line: 4 },
            BlameRequest { file: "a.rs".to_string(), start_line: 2, end_line: 2 },
        ]
    );
    let outcomes = vec![Ok("bbb 1 1 4\n\t\n".to_string()), Ok("aaa 2 2 1\n\t\n".to_string())];
    add_blame(Ok("true".to_string()), &mut results, &outcomes).unwrap();
    let first = results.get("REQ-1").unwrap();
    assert_eq!(first[0].blame.as_ref().unwrap().commit, "bbb");
    assert_eq!(first[1].blame.as_ref().unwrap().commit, "aaa");
    assert_eq!(results.get("REQ-2").unwrap()[0].blame.as_ref().unwrap().commit, "bbb");
}

#[test]
fn blame_range_reads_output_or_passes_the_failure_on() {
    let table = blame_range(Ok("abc 1 3 2\n\t\n".to_string())).unwrap();
    assert_eq!(table.get(4).unwrap().commit, "abc");
    let failure = blame_range(Err(GitError::Run { message: "no git".to_string() }));
    assert!(matches!(failure, Err(GitError::Run { message }) if message == "no git"));
}

#[test]
fn repository_state_from_four_answers() {
    let meta = collect_git_meta(
        Ok("/work/repo".to_string()),
        Ok("0123456789012345678901234567890123456789".to_string()),
        Ok("main".to_string()),
        Ok(String::new()),
    )
    .unwrap();
    assert_eq!(
        meta,
        GitMeta {
            repo_root: "/work/repo".to_string(),
            head_sha: "0123456789012345678901234567890123456789".to_string(),
            head_ref: Some("main".to_string()),
            is_dirty: false,
        }
    );
    assert_eq!(meta.head_sha.len(), 40);
}

#[test]
fn detached_head_has_no_symbolic_name_and_changes_make_dirty() {
    let meta = collect_git_meta(
        Ok("/r".to_string()),
        Ok("abc".to_string()),
        Ok("HEAD".to_string()),
        Ok(" M file.txt".to_string()),
    )
    .unwrap();
    assert_eq!(meta.head_ref, None);
    assert!(meta.is_dirty);
    let meta = collect_git_meta(
        Ok("/r".to_string()),
        Ok("abc".to_string()),
        Ok(String::new()),
        Ok(String::new()),
    )
    .unwrap();
    assert_eq!(meta.head_ref, None);
    let meta = collect_git_meta(
        Ok("/r".to_string()),
        Ok("abc".to_string()),
        Ok("head".to_string()),
        Ok(String::new()),
    )
    .unwrap();
    assert_eq!(meta.head_ref.as_deref(), Some("head"));
}

#[test]
fn first_failed_query_is_the_error() {
    let run = |n: usize| -> Result<String, GitError> { Err(GitError::Run { message: format!("q{n}") }) };
    let ok = || -> Result<String, GitError> { Ok("x".to_string()) };
    assert_eq!(collect_git_meta(run(1), run(2), run(3), run(4)), Err(GitError::Run { message: "q1".to_string() }));
    assert_eq!(collect_git_meta(ok(), run(2), run(3), run(4)), Err(GitError::Run { message: "q2".to_string() }));
    assert_eq!(collect_git_meta(ok(), ok(), run(3), run(4)), Err(GitError::Run { message: "q3".to_string() }));
    assert_eq!(collect_git_meta(ok(), ok(), ok(), run(4)), Err(GitError::Run { message: "q4".to_string() }));
}

#[test]
fn outcome_of_a_finished_query() {
    let args = vec!["rev-parse".to_string(), "HEAD".to_string()];
    assert_eq!(
        command_outcome(&args, true, Ok("  abc123\n".to_string()), Ok("ignored".to_string())),
        Ok("abc123".to_string())
    );
    assert_eq!(
        command_outcome(&args, false, Ok("out".to_string()), Ok("\nfatal: bad\n\n".to_string())),
        Err(GitError::CommandFailed { cmd: "git rev-parse HEAD".to_string(), stderr: "fatal: bad".to_string() })
    );
    assert_eq!(
        command_outcome(&args, true, Err("invalid utf-8".to_string()), Ok(String::new())),
        Err(GitError::OutputUtf8 { message: "invalid utf-8".to_string() })
    );
    assert_eq!(
        command_outcome(&args, false, Ok(String::new()), Err("bad bytes".to_string())),
        Err(GitError::OutputUtf8 { message: "bad bytes".to_string() })
    );
}

#[test]
fn command_line_text() {
    assert_eq!(command_text(&Vec::new()), "git ");
    assert_eq!(command_text(&vec!["status".to_string()]), "git status");
    assert_eq!(
        command_text(&vec!["status".to_string(), "--porcelain".to_string()]),
        "git status --porcelain"
    );
}

#[test]
fn trimming_removes_unicode_white_space_at_both_ends() {
    assert_eq!(trimmed("  a b \t\r\n"), "a b");
    assert_eq!(trimmed("\u{a0}\u{2003}x\u{3000}\u{85}"), "x");
    assert_eq!(trimmed("\u{200b}x"), "\u{200b}x");
    assert_eq!(trimmed(" \n "), "");
    assert_eq!(trimmed(""), "");
}

#[test]
fn git_error_messages() {
    assert_eq!(GitError::Run { message: "no such file".to_string() }.message(), "failed to run git: no such file");
    assert_eq!(
        GitError::CommandFailed { cmd: "git status".to_string(), stderr: "boom".to_string() }.message(),
        "git command failed (git status): boom"
    );
    assert_eq!(
        GitError::OutputUtf8 { message: "bad".to_string() }.message(),
        "git output was not valid utf-8: bad"
    );
}

#[test]
fn scenario_sparse_markers_in_a_long_file_give_one_query() {
    let mut text = String::new();
    for line in 1..=600 {
        if line == 2 {
            text.push_str("// REQ-1: near the top\n");
        } else if line == 598 {
            text.push_str("// REQ-2: near the end\n");
        } else {
            text.push_str(&format!("fn f{line}() {{}}\n"));
        }
    }
    let files = vec![SourceFile { path: "src/long.rs".to_string(), contents: Ok(text) }];
    let results = scan_files("", &files, &ScanArgs { slug: vec!["REQ".to_string()] }).unwrap();
    assert_eq!(results.get("REQ-1").unwrap()[0].line, 2);
    assert_eq!(results.get("REQ-2").unwrap()[0].line, 598);
    let requests = blame_requests(&results);
    assert_eq!(
        requests,
        vec![BlameRequest { file: "src/long.rs".to_string(), start_line: 2, end_line: 598 }]
    );
    assert_eq!(blame_args(&requests[0])[3], "2,598");
}

#[test]
fn repository_questions_have_fixed_arguments() {
    assert_eq!(query_args(RepoQuery::InsideWorkTree), vec!["rev-parse", "--is-inside-work-tree"]);
    assert_eq!(query_args(RepoQuery::TopLevel), vec!["rev-parse", "--show-toplevel"]);
    assert_eq!(query_args(RepoQuery::HeadRevision), vec!["rev-parse", "HEAD"]);
    assert_eq!(query_args(RepoQuery::HeadName), vec!["rev-parse", "--abbrev-ref", "HEAD"]);
    assert_eq!(query_args(RepoQuery::Status), vec!["status", "--porcelain"]);
}

#[test]
fn collects_head_and_dirty_state() {
    let sha = "0123456789abcdef0123456789abcdef01234567";
    let meta = collect_git_meta(
        Ok("/tmp/repo".to_string()),
        Ok(sha.to_string()),
        Ok("main".to_string()),
        Ok(String::new()),
    )
    .unwrap();
    assert_eq!(meta.repo_root, "/tmp/repo");
    assert_eq!(meta.head_sha.len(), 40);
    assert_eq!(meta.head_ref.as_deref(), Some("main"));
    assert!(!meta.is_dirty);

    let meta = collect_git_meta(
        Ok("/tmp/repo".to_string()),
        Ok(sha.to_string()),
        Ok("main".to_string()),
        Ok("M file.txt".to_string()),
    )
    .unwrap();
    assert!(meta.is_dirty);
}

#[test]
fn adds_blame_per_line() {
    let first_sha = "1111111111111111111111111111111111111111";
    let second_sha = "2222222222222222222222222222222222222222";
    let output = format!(
        "{first_sha} 1 1 1\nauthor Test\nauthor-mail <test@example.com>\nauthor-time 946684800\nauthor-tz +0000\ncommitter Test\ncommitter-mail <test@example.com>\ncommitter-time 946684800\ncommitter-tz +0000\nsummary first\nfilename file.txt\n\tREQ-1 first\n{second_sha} 2 2 1\nauthor Test\nauthor-mail <test@example.com>\nauthor-time 946684801\nauthor-tz +0000\ncommitter Test\ncommitter-mail <test@example.com>\ncommitter-time 946684801\ncommitter-tz +0000\nsummary second\nprevious {first_sha} file.txt\nfilename file.txt\n\tREQ-2 second changed\n"
    );

    let mut results = ScanResult::new();
    results.push(
        "REQ-1".to_string(),
        Entry {
            file: "file.txt".to_string(),
            line: 1,
            comment_text: "REQ-1 first".to_string(),
            above: None,
            below: None,
            inline: None,
            scope: Vec::new(),
            blame: None,
        },
    );
    results.push(
        "REQ-2".to_string(),
        Entry {
            file: "file.txt".to_string(),
            line: 2,
            comment_text: "REQ-2 second changed".to_string(),
            above: None,
            below: None,
            inline: None,
            scope: Vec::new(),
            blame: None,
        },
    );

    let requests = blame_requests(&results);
    assert_eq!(requests.len(), 1);
    assert_eq!(blame_args(&requests[0])[3], "1,2");
    let outcomes = vec![Ok(output)];
    add_blame(Ok("true".to_string()), &mut results, &outcomes).unwrap();

    let blame_1 = results.get("REQ-1").unwrap()[0].blame.as_ref().unwrap();
    assert_eq!(blame_1.commit, first_sha);
    assert_eq!(blame_1.author.as_deref(), Some("Test"));

    let blame_2 = results.get("REQ-2").unwrap()[0].blame.as_ref().unwrap();
    assert_eq!(blame_2.commit, second_sha);
    assert_eq!(blame_2.author.as_deref(), Some("Test"));
    assert_eq!(blame_2.author_mail.as_deref(), Some("test@example.com"));
    assert_eq!(blame_2.author_time, Some(946684801));
    assert_eq!(blame_2.summary.as_deref(), Some("second"));
}
