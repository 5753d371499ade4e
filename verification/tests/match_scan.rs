use godir::matcher::{find_matches, find_matches_compiled, Matcher};
use godir::paths::{expand_path, is_direct_pattern, ResolvedInput};
use godir::scanner::{is_skipped_name, join_path, Scanner};
use godir::strutil::{is_excluded, is_yes, str_contains, str_lex_lt};
use godir::GodirError;

fn dirs(v: &[&str]) -> Vec<String> {
    v.iter().map(|s| s.to_string()).collect()
}

#[test]
fn matches_are_the_matching_subset_in_order() {
    let d = dirs(&["/a/dev", "/b/dev2", "/c/x"]);
    let ms = find_matches(&d, "dev").unwrap();
    assert_eq!(ms, vec!["/a/dev", "/b/dev2"]);
}

#[test]
fn empty_directories_give_no_matches() {
    let ms = find_matches(&Vec::new(), "dev").unwrap();
    assert!(ms.is_empty());
}

#[test]
fn invalid_pattern_is_rejected_before_anything_else() {
    let d = dirs(&["/a/dev"]);
    match find_matches(&d, "[") {
        Err(GodirError::InvalidPattern) => {}
        _ => panic!("expected the invalid-pattern error"),
    }
    assert!(Matcher::try_new("[").is_err());
}

#[test]
fn regex_syntax_is_honoured() {
    let d = dirs(&["/a/dev", "/dave", "/b/a"]);
    assert_eq!(find_matches(&d, "^/a").unwrap(), vec!["/a/dev"]);
    assert_eq!(find_matches(&d, "d.v").unwrap(), vec!["/a/dev", "/dave"]);
    assert_eq!(find_matches(&d, "a$").unwrap(), vec!["/b/a"]);
}

#[test]
fn case_sensitive_matching() {
    let d = dirs(&["/a/Dev", "/a/dev"]);
    assert_eq!(find_matches(&d, "dev").unwrap(), vec!["/a/dev"]);
}

#[test]
fn case_policy_flag_controls_folding() {
    let d = dirs(&["/a/DEV", "/a/dev"]);
    let sensitive = Matcher::try_new_with_case("dev", false).unwrap();
    assert_eq!(find_matches_compiled(&d, &sensitive), vec!["/a/dev"]);
    let insensitive = Matcher::try_new_with_case("dev", true).unwrap();
    assert_eq!(find_matches_compiled(&d, &insensitive), vec!["/a/DEV", "/a/dev"]);
}

#[test]
fn scan_records_matching_children_and_queues_descent() {
    let m = Matcher::try_new("dev").unwrap();
    let mut s = Scanner::new(m, Vec::new(), "/r".to_string());
    assert_eq!(s.next_dir(), Some("/r".to_string()));
    s.record_children(
        &"/r".to_string(),
        &dirs(&["adev", "plain", "bdev"]),
    );
    // depth-first: the last queued child comes back first
    assert_eq!(s.next_dir(), Some("/r/bdev".to_string()));
    assert_eq!(s.next_dir(), Some("/r/plain".to_string()));
    assert_eq!(s.next_dir(), Some("/r/adev".to_string()));
    assert_eq!(s.next_dir(), None);
    assert_eq!(s.into_results(), vec!["/r/adev", "/r/bdev"]);
}

#[test]
fn scan_excluded_subtree_contributes_nothing() {
    let m = Matcher::try_new("dev").unwrap();
    let excludes = dirs(&["skip"]);
    let mut s = Scanner::new(m, excludes, "/r".to_string());
    assert_eq!(s.next_dir(), Some("/r".to_string()));
    // "/r/skip-dev" matches the pattern but contains an exclusion substring:
    // it is neither recorded nor descended into
    s.record_children(&"/r".to_string(), &dirs(&["skip-dev", "okdev"]));
    assert_eq!(s.next_dir(), Some("/r/okdev".to_string()));
    assert_eq!(s.next_dir(), None);
    assert_eq!(s.into_results(), vec!["/r/okdev"]);
}

#[test]
fn scan_excluded_root_is_pruned_at_once() {
    let m = Matcher::try_new("dev").unwrap();
    let excludes = dirs(&["r"]);
    let mut s = Scanner::new(m, excludes, "/r".to_string());
    assert_eq!(s.next_dir(), None);
    assert!(s.into_results().is_empty());
}

#[test]
fn scan_hidden_children_are_never_matched_nor_descended() {
    let m = Matcher::try_new("dev").unwrap();
    let mut s = Scanner::new(m, Vec::new(), "/r".to_string());
    assert_eq!(s.next_dir(), Some("/r".to_string()));
    s.record_children(&"/r".to_string(), &dirs(&[".dev", ".Trash", "dev"]));
    assert_eq!(s.next_dir(), Some("/r/dev".to_string()));
    assert_eq!(s.next_dir(), None);
    assert_eq!(s.into_results(), vec!["/r/dev"]);
}

#[test]
fn skipped_names_are_hidden_or_trash() {
    assert!(is_skipped_name(&".hidden".to_string()));
    assert!(is_skipped_name(&".Trash".to_string()));
    assert!(!is_skipped_name(&"visible".to_string()));
    assert!(!is_skipped_name(&"".to_string()));
}

#[test]
fn joining_respects_a_trailing_separator() {
    assert_eq!(join_path(&"/r".to_string(), &"x".to_string()), "/r/x");
    assert_eq!(join_path(&"/".to_string(), &"x".to_string()), "/x");
}

#[test]
fn exclusion_is_substring_containment() {
    assert!(is_excluded("/a/bc", &dirs(&["b"])));
    assert!(is_excluded("/a/bc", &dirs(&["zz", "/a/"])));
    assert!(!is_excluded("/a/bc", &dirs(&["zz"])));
    assert!(!is_excluded("/a/bc", &Vec::new()));
}

#[test]
fn direct_patterns_are_dot_or_contain_a_separator() {
    assert!(is_direct_pattern("."));
    assert!(is_direct_pattern("../projects"));
    assert!(is_direct_pattern("/abs/path"));
    assert!(is_direct_pattern("~/dev/project"));
    assert!(!is_direct_pattern("dev"));
    assert!(!is_direct_pattern("~tmp"));
}

#[test]
fn home_marker_expands_to_the_home_directory() {
    match expand_path("~/dev", "/home/u") {
        ResolvedInput::Ready(p) => assert_eq!(p, "/home/u/dev"),
        _ => panic!("expected a ready path"),
    }
    match expand_path("~", "/home/u") {
        ResolvedInput::Ready(p) => assert_eq!(p, "/home/u/"),
        _ => panic!("expected a ready path"),
    }
}

#[test]
fn absolute_paths_are_ready_and_relative_ones_are_not() {
    match expand_path("/srv/x", "/home/u") {
        ResolvedInput::Ready(p) => assert_eq!(p, "/srv/x"),
        _ => panic!("expected a ready path"),
    }
    match expand_path("rel/p", "/home/u") {
        ResolvedInput::NeedsCanonicalize(p) => assert_eq!(p, "rel/p"),
        _ => panic!("expected a path to canonicalize"),
    }
}

#[test]
fn yes_answers_are_the_single_letter() {
    assert!(is_yes("y"));
    assert!(is_yes("Y"));
    assert!(!is_yes("n"));
    assert!(!is_yes("yes"));
    assert!(!is_yes(""));
}

#[test]
fn substring_search_agrees_with_the_standard_library() {
    for (hay, needle) in [
        ("/a/bc", "b"),
        ("/a/bc", "bc"),
        ("/a/bc", ""),
        ("/a/bc", "/a/bcd"),
        ("abab", "bab"),
        ("aaa", "aaaa"),
    ] {
        assert_eq!(str_contains(hay, needle), hay.contains(needle));
    }
}

#[test]
fn lexicographic_order_agrees_with_the_standard_library() {
    for (a, b) in [("", "a"), ("a", "ab"), ("ab", "b"), ("b", "ab"), ("x", "x")] {
        assert_eq!(str_lex_lt(a, b), a < b);
    }
}
