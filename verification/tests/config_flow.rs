use godir::config::{add_directory, update_and_save_config, Config};
use godir::flow::{
    flow_step, numbered_label, on_matches, parse_selection, usize_to_string, FlowAction,
    FlowEvent, FlowState,
};
use godir::paths::is_direct_pattern;

fn config_with(dirs: &[&str]) -> Config {
    Config {
        directories: dirs.iter().map(|s| s.to_string()).collect(),
        excludes: Vec::new(),
    }
}

#[test]
fn update_sorts_and_dedups() {
    let mut c = config_with(&["/b/two", "/a/one", "/b/two", "/c/three"]);
    update_and_save_config(&mut c);
    assert_eq!(c.directories, vec!["/a/one", "/b/two", "/c/three"]);
}

#[test]
fn update_leaves_excludes_alone() {
    let mut c = Config {
        directories: vec!["/b".to_string(), "/a".to_string()],
        excludes: vec!["skip".to_string(), "tmp".to_string()],
    };
    update_and_save_config(&mut c);
    assert_eq!(c.excludes, vec!["skip", "tmp"]);
}

#[test]
fn update_on_empty_is_empty() {
    let mut c = config_with(&[]);
    update_and_save_config(&mut c);
    assert!(c.directories.is_empty());
}

#[test]
fn adding_twice_keeps_one_occurrence() {
    let mut once = config_with(&["/a", "/b"]);
    add_directory(&mut once, &"/new".to_string());
    update_and_save_config(&mut once);

    let mut twice = config_with(&["/a", "/b"]);
    add_directory(&mut twice, &"/new".to_string());
    update_and_save_config(&mut twice);
    add_directory(&mut twice, &"/new".to_string());
    update_and_save_config(&mut twice);

    assert_eq!(once.directories, twice.directories);
    let count = once.directories.iter().filter(|d| d.as_str() == "/new").count();
    assert_eq!(count, 1);
}

#[test]
fn add_reports_whether_new() {
    let mut c = config_with(&["/a"]);
    assert!(!add_directory(&mut c, &"/a".to_string()));
    assert!(add_directory(&mut c, &"/b".to_string()));
    assert_eq!(c.directories, vec!["/a", "/b"]);
}

#[test]
fn dot_pattern_is_direct_and_adds_the_directory_once() {
    assert!(is_direct_pattern("."));
    let mut c = config_with(&["/a"]);
    let cwd = "/tmp/work".to_string();
    assert!(add_directory(&mut c, &cwd));
    update_and_save_config(&mut c);
    assert!(!add_directory(&mut c, &cwd));
    let count = c.directories.iter().filter(|d| **d == cwd).count();
    assert_eq!(count, 1);
}

#[test]
fn empty_matches_fall_through_to_manual_prompt() {
    let (state, action) = on_matches(Vec::new());
    assert!(matches!(state, FlowState::AskManual));
    assert!(action.is_none());
}

#[test]
fn single_match_is_emitted_without_prompt() {
    let (state, action) = on_matches(vec!["/a/dev".to_string()]);
    assert!(matches!(state, FlowState::Done));
    match action {
        Some(FlowAction::Emit(p)) => assert_eq!(p, "/a/dev"),
        _ => panic!("expected an emit action"),
    }
}

#[test]
fn two_matches_selection_two_emits_second() {
    let (state, action) = on_matches(vec!["/a/dev".to_string(), "/b/dev2".to_string()]);
    assert!(action.is_none());
    match &state {
        FlowState::AwaitSelection(ms) => {
            assert_eq!(ms, &vec!["/a/dev".to_string(), "/b/dev2".to_string()])
        }
        _ => panic!("expected a selection prompt"),
    }
    let (next, actions) = flow_step(state, FlowEvent::Line("2".to_string()));
    assert!(matches!(next, FlowState::Done));
    assert_eq!(actions.len(), 1);
    match &actions[0] {
        FlowAction::Emit(p) => assert_eq!(p, "/b/dev2"),
        _ => panic!("expected an emit action"),
    }
}

#[test]
fn selection_out_of_range_is_invalid() {
    let (state, _) = on_matches(vec!["/a".to_string(), "/b".to_string()]);
    let (next, actions) = flow_step(state, FlowEvent::Line("3".to_string()));
    assert!(matches!(next, FlowState::Done));
    assert_eq!(actions.len(), 1);
    assert!(matches!(actions[0], FlowAction::ReportInvalidChoice));
}

#[test]
fn selection_non_numeric_is_invalid() {
    let (state, _) = on_matches(vec!["/a".to_string(), "/b".to_string()]);
    let (next, actions) = flow_step(state, FlowEvent::Line("x".to_string()));
    assert!(matches!(next, FlowState::Done));
    assert!(matches!(actions[0], FlowAction::ReportInvalidChoice));
}

#[test]
fn manual_yes_then_valid_path_is_added_and_emitted() {
    let (after_yes, no_acts) = flow_step(FlowState::AskManual, FlowEvent::Line("y".to_string()));
    assert!(matches!(after_yes, FlowState::AskManualPath));
    assert!(no_acts.is_empty());
    let (next, acts) = flow_step(
        FlowState::AskManualPath,
        FlowEvent::DirChecked("/srv/data".to_string(), true),
    );
    assert!(matches!(next, FlowState::Done));
    assert_eq!(acts.len(), 2);
    match (&acts[0], &acts[1]) {
        (FlowAction::AddAndPersist(a), FlowAction::Emit(e)) => {
            assert_eq!(a, "/srv/data");
            assert_eq!(e, "/srv/data");
        }
        _ => panic!("expected add-and-persist then emit"),
    }
}

#[test]
fn manual_invalid_path_falls_through_to_scan_prompt() {
    let (next, acts) = flow_step(
        FlowState::AskManualPath,
        FlowEvent::DirChecked("/nope".to_string(), false),
    );
    assert!(matches!(next, FlowState::AskScan));
    assert_eq!(acts.len(), 1);
    assert!(matches!(acts[0], FlowAction::ReportInvalidPath));
}

#[test]
fn manual_no_asks_for_scan() {
    let (next, acts) = flow_step(FlowState::AskManual, FlowEvent::Line("n".to_string()));
    assert!(matches!(next, FlowState::AskScan));
    assert!(acts.is_empty());
}

#[test]
fn scan_yes_runs_scan() {
    let (next, acts) = flow_step(FlowState::AskScan, FlowEvent::Line("Y".to_string()));
    assert!(matches!(next, FlowState::Scanning));
    assert_eq!(acts.len(), 1);
    assert!(matches!(acts[0], FlowAction::RunScan));
}

#[test]
fn scan_no_ends_without_output() {
    let (next, acts) = flow_step(FlowState::AskScan, FlowEvent::Line("n".to_string()));
    assert!(matches!(next, FlowState::Done));
    assert!(acts.is_empty());
}

#[test]
fn scan_single_result_is_merged_and_emitted() {
    let (next, acts) = flow_step(
        FlowState::Scanning,
        FlowEvent::ScanDone(vec!["/only/dev".to_string()]),
    );
    assert!(matches!(next, FlowState::Done));
    assert_eq!(acts.len(), 2);
    match (&acts[0], &acts[1]) {
        (FlowAction::MergeAndPersist(v), FlowAction::Emit(e)) => {
            assert_eq!(v, &vec!["/only/dev".to_string()]);
            assert_eq!(e, "/only/dev");
        }
        _ => panic!("expected merge then emit"),
    }
}

#[test]
fn scan_many_results_merge_but_emit_nothing() {
    let (next, acts) = flow_step(
        FlowState::Scanning,
        FlowEvent::ScanDone(vec!["/a/dev".to_string(), "/b/dev".to_string()]),
    );
    assert!(matches!(next, FlowState::Done));
    assert_eq!(acts.len(), 1);
    assert!(matches!(acts[0], FlowAction::MergeAndPersist(_)));
}

#[test]
fn scan_no_results_reports_it() {
    let (next, acts) = flow_step(FlowState::Scanning, FlowEvent::ScanDone(Vec::new()));
    assert!(matches!(next, FlowState::Done));
    assert_eq!(acts.len(), 1);
    assert!(matches!(acts[0], FlowAction::ReportNoScanMatches));
}

#[test]
fn listing_lines_are_numbered_from_one() {
    assert_eq!(numbered_label(1, "/a/dev"), "1: /a/dev");
    assert_eq!(numbered_label(2, "/b/dev2"), "2: /b/dev2");
    assert_eq!(numbered_label(12, "/c"), "12: /c");
}

#[test]
fn numbers_print_in_decimal() {
    assert_eq!(usize_to_string(0), "0");
    assert_eq!(usize_to_string(7), "7");
    assert_eq!(usize_to_string(10), "10");
    assert_eq!(usize_to_string(905), "905");
}

#[test]
fn selection_parsing_handles_bad_input_as_zero() {
    assert_eq!(parse_selection("2"), 2);
    assert_eq!(parse_selection("+3"), 3);
    assert_eq!(parse_selection("0"), 0);
    assert_eq!(parse_selection(""), 0);
    assert_eq!(parse_selection("abc"), 0);
    assert_eq!(parse_selection("1x"), 0);
    assert_eq!(parse_selection("999999999999999999999999999999"), 0);
    assert_eq!(parse_selection("12"), 12);
}
