use tracy::path::{relative_to, strip_root};

#[test]
fn path_below_the_root_loses_the_root_and_its_separator() {
    assert_eq!(relative_to("/work/repo", "/work/repo/src/a.rs"), "src/a.rs");
    assert_eq!(relative_to("repo", "repo/a.rs"), "a.rs");
    assert_eq!(strip_root("/work/repo", "/work/repo/src/a.rs"), Some("src/a.rs".to_string()));
}

#[test]
fn root_may_end_in_a_separator() {
    assert_eq!(relative_to("/work/repo/", "/work/repo/src/a.rs"), "src/a.rs");
    assert_eq!(relative_to("/", "/etc/hosts"), "etc/hosts");
    assert_eq!(strip_root("/", "/"), Some(String::new()));
}

#[test]
fn path_outside_the_root_stays_as_it_is() {
    assert_eq!(relative_to("/work/repo", "/elsewhere/a.rs"), "/elsewhere/a.rs");
    assert_eq!(relative_to("/work/repo", "/work"), "/work");
    assert_eq!(relative_to("/work/repo", "a.rs"), "a.rs");
    assert_eq!(strip_root("/work/repo", "/elsewhere/a.rs"), None);
    assert_eq!(strip_root("/work/repo", "/work"), None);
}

#[test]
fn root_that_ends_inside_a_name_is_no_prefix() {
    assert_eq!(relative_to("/work/repo", "/work/repository/a.rs"), "/work/repository/a.rs");
    assert_eq!(strip_root("/work/repo", "/work/repository/a.rs"), None);
    assert_eq!(strip_root("src", "src2"), None);
}

#[test]
fn empty_root_is_a_prefix_of_every_path() {
    assert_eq!(relative_to("", "src/a.rs"), "src/a.rs");
    assert_eq!(relative_to("", "/abs/a.rs"), "/abs/a.rs");
    assert_eq!(strip_root("", "src/a.rs"), Some("src/a.rs".to_string()));
    assert_eq!(strip_root("", ""), Some(String::new()));
}

#[test]
fn the_root_itself_has_the_empty_path() {
    assert_eq!(strip_root("/work/repo", "/work/repo"), Some(String::new()));
    assert_eq!(relative_to("/work/repo", "/work/repo"), "");
    assert_eq!(strip_root("/work/repo", "/work/repo/"), Some(String::new()));
}
