use scope_monitor::inputs::history::{AnyHistory, History, HistoryNavResult, Matcher, PersistHistory};

fn with_entries(cmds: &[&str]) -> History {
    let mut h = History::new();
    for cmd in cmds {
        let _ = h.push(cmd);
    }
    h
}

fn entries(h: &History) -> Vec<&str> {
    h.entries().iter().map(|s| s.as_str()).collect()
}

#[test]
fn empty_haystack_returns_empty() {
    let mut m = Matcher::new();
    assert!(m.fuzy_match_idx(&[], "foo").is_empty());
}

#[test]
fn empty_needle_returns_all_indices_in_order() {
    let haystack = ["a", "b", "c"].map(String::from).to_vec();
    let mut m = Matcher::new();
    assert_eq!(m.fuzy_match_idx(&haystack, ""), vec![0, 1, 2]);
}

#[test]
fn empty_needle_on_empty_haystack_returns_empty() {
    let mut m = Matcher::new();
    assert!(m.fuzy_match_idx(&[], "").is_empty());
}

#[test]
fn needle_matches_subset_of_entries() {
    let haystack = ["serial send", "rtt recv", "serial recv"].map(String::from).to_vec();
    let mut m = Matcher::new();
    let result = m.fuzy_match_idx(&haystack, "rtt");
    assert_eq!(result.len(), 1);
    assert_eq!(haystack[result[0]], "rtt recv");
}

#[test]
fn needle_with_no_match_returns_empty() {
    let haystack = ["foo", "bar"].map(String::from).to_vec();
    let mut m = Matcher::new();
    assert!(m.fuzy_match_idx(&haystack, "xyz").is_empty());
}

#[test]
fn match_is_case_insensitive() {
    let haystack = ["Hello World", "other"].map(String::from).to_vec();
    let mut m = Matcher::new();
    let result = m.fuzy_match_idx(&haystack, "hello");
    assert_eq!(result.len(), 1);
    assert_eq!(haystack[result[0]], "Hello World");
}

#[test]
fn single_entry_exact_match() {
    let haystack = ["exact"].map(String::from).to_vec();
    let mut m = Matcher::new();
    assert_eq!(m.fuzy_match_idx(&haystack, "exact"), vec![0]);
}

#[test]
fn single_entry_no_match() {
    let haystack = ["exact"].map(String::from).to_vec();
    let mut m = Matcher::new();
    assert!(m.fuzy_match_idx(&haystack, "xyz").is_empty());
}

#[test]
fn all_entries_match_broad_needle() {
    let haystack = ["foo bar", "foo baz", "foo qux"].map(String::from).to_vec();
    let mut m = Matcher::new();
    assert_eq!(m.fuzy_match_idx(&haystack, "foo").len(), 3);
}

#[test]
fn consecutive_calls_are_independent() {
    let haystack = ["alpha", "beta", "gamma"].map(String::from).to_vec();
    let mut m = Matcher::new();
    let first = m.fuzy_match_idx(&haystack, "alpha");
    let second = m.fuzy_match_idx(&haystack, "beta");
    assert_eq!(first.len(), 1);
    assert_eq!(haystack[first[0]], "alpha");
    assert_eq!(second.len(), 1);
    assert_eq!(haystack[second[0]], "beta");
}

#[test]
fn adds_entry() {
    let mut h = History::new();
    let _ = h.push("hello");
    assert_eq!(entries(&h), vec!["hello"]);
}

#[test]
fn history_returns_true_when_added() {
    let mut h = History::new();
    assert_eq!(h.push("cmd"), Ok(true));
}

#[test]
fn history_returns_false_on_consecutive_duplicate() {
    let mut h = History::new();
    let _ = h.push("dup");
    assert_eq!(h.push("dup"), Ok(false));
}

#[test]
fn deduplicates_consecutive_in_entries() {
    let mut h = History::new();
    let _ = h.push("dup");
    let _ = h.push("dup");
    assert_eq!(entries(&h), vec!["dup"]);
}

#[test]
fn allows_non_consecutive_duplicates() {
    let mut h = History::new();
    let _ = h.push("a");
    let _ = h.push("b");
    let _ = h.push("a");
    assert_eq!(entries(&h), vec!["a", "b", "a"]);
}

#[test]
fn allows_empty_string() {
    let mut h = History::new();
    assert_eq!(h.push(""), Ok(true));
    assert_eq!(entries(&h), vec![""]);
}

#[test]
fn multiple_entries_preserve_order() {
    let mut h = History::new();
    let _ = h.push("first");
    let _ = h.push("second");
    let _ = h.push("third");
    assert_eq!(entries(&h), vec!["first", "second", "third"]);
}

#[test]
fn true_on_new() {
    assert!(History::new().is_empty());
}

#[test]
fn false_after_push() {
    let mut h = History::new();
    let _ = h.push("cmd");
    assert!(!h.is_empty());
}

#[test]
fn history_on_empty_history_returns_empty() {
    let mut h = History::new();
    assert!(matches!(h.navigate_up(""), HistoryNavResult::Empty));
}

#[test]
fn saves_backup_on_first_call() {
    let mut h = with_entries(&["a"]);
    h.navigate_up("my_draft");
    assert_eq!(h.backup(), "my_draft");
}

#[test]
fn does_not_update_backup_on_subsequent_calls() {
    let mut h = with_entries(&["a", "b"]);
    h.navigate_up("");
    h.navigate_up("should_be_ignored");
    assert_eq!(h.backup(), "");
}

#[test]
fn returns_last_entry_first() {
    let mut h = with_entries(&["a", "b", "c"]);
    assert!(matches!(h.navigate_up(""), HistoryNavResult::Entry("c")));
}

#[test]
fn traverses_entries_from_newest_to_oldest() {
    let mut h = with_entries(&["a", "b", "c"]);
    assert!(matches!(h.navigate_up(""), HistoryNavResult::Entry("c")));
    assert!(matches!(h.navigate_up(""), HistoryNavResult::Entry("b")));
    assert!(matches!(h.navigate_up(""), HistoryNavResult::Entry("a")));
}

#[test]
fn clamps_at_oldest_entry() {
    let mut h = with_entries(&["a", "b"]);
    h.navigate_up("");
    h.navigate_up("");
    assert!(matches!(h.navigate_up(""), HistoryNavResult::Entry("a")));
}

#[test]
fn single_entry_clamps_immediately() {
    let mut h = with_entries(&["only"]);
    assert!(matches!(h.navigate_up(""), HistoryNavResult::Entry("only")));
    assert!(matches!(h.navigate_up(""), HistoryNavResult::Entry("only")));
}

#[test]
fn fuzzy_filter_excludes_non_matching_entries() {
    let mut h = with_entries(&["serial send", "rtt recv", "serial recv"]);
    let r = h.navigate_up("rtt");
    if let HistoryNavResult::Entry(e) = r {
        assert!(e.contains("rtt"));
    }
}

#[test]
fn fuzzy_no_matches_returns_empty() {
    let mut h = with_entries(&["foo", "bar"]);
    assert!(matches!(h.navigate_up("xyz"), HistoryNavResult::Empty));
}

#[test]
fn fuzzy_single_match_clamps_immediately() {
    let mut h = with_entries(&["rtt recv", "serial send"]);
    assert!(matches!(h.navigate_up("rtt"), HistoryNavResult::Entry("rtt recv")));
    assert!(matches!(h.navigate_up(""), HistoryNavResult::Entry("rtt recv")));
}

#[test]
fn on_empty_history_returns_empty() {
    let mut h = History::new();
    assert!(matches!(h.navigate_down(), HistoryNavResult::Empty));
}

#[test]
fn without_prior_up_returns_empty() {
    let mut h = with_entries(&["a", "b"]);
    assert!(matches!(h.navigate_down(), HistoryNavResult::Empty));
}

#[test]
fn returns_newer_entry_after_going_up() {
    let mut h = with_entries(&["a", "b", "c"]);
    h.navigate_up("");
    h.navigate_up("");
    assert!(matches!(h.navigate_down(), HistoryNavResult::Entry("c")));
}

#[test]
fn past_newest_returns_restore_backup() {
    let mut h = with_entries(&["a", "b"]);
    h.navigate_up("");
    assert!(matches!(h.navigate_down(), HistoryNavResult::RestoreBackup));
}

#[test]
fn restore_backup_preserves_backup_value() {
    let mut h = with_entries(&["a"]);
    h.navigate_up("my_draft");
    h.navigate_down();
    assert_eq!(h.backup(), "my_draft");
}

#[test]
fn full_up_down_cycle() {
    let mut h = with_entries(&["a", "b", "c"]);
    h.navigate_up("");
    h.navigate_up("");
    h.navigate_up("");
    assert!(matches!(h.navigate_down(), HistoryNavResult::Entry("b")));
    assert!(matches!(h.navigate_down(), HistoryNavResult::Entry("c")));
    assert!(matches!(h.navigate_down(), HistoryNavResult::RestoreBackup));
}

#[test]
fn fuzzy_filtered_down_stays_within_matches() {
    let mut h = with_entries(&["rtt recv", "serial send"]);
    h.navigate_up("rtt");
    assert!(matches!(h.navigate_down(), HistoryNavResult::RestoreBackup));
}

#[test]
fn fuzzy_no_matches_then_down_returns_empty() {
    let mut h = with_entries(&["foo", "bar"]);
    h.navigate_up("xyz");
    assert!(matches!(h.navigate_down(), HistoryNavResult::Empty));
}

#[test]
fn navigate_down_returns_empty_after_reset() {
    let mut h = with_entries(&["a", "b"]);
    h.navigate_up("");
    h.reset_index();
    assert!(matches!(h.navigate_down(), HistoryNavResult::Empty));
}

#[test]
fn navigate_up_restarts_from_newest_after_reset() {
    let mut h = with_entries(&["a", "b", "c"]);
    h.navigate_up("");
    h.navigate_up("");
    h.navigate_up("");
    h.reset_index();
    assert!(matches!(h.navigate_up(""), HistoryNavResult::Entry("c")));
}

#[test]
fn reset_updates_backup_on_next_navigate_up() {
    let mut h = with_entries(&["a", "b"]);
    h.navigate_up("first_draft");
    h.reset_index();
    h.navigate_up("second_draft");
    assert_eq!(h.backup(), "second_draft");
}

fn base_with_entries(cmds: &[&str]) -> AnyHistory {
    let mut h = AnyHistory::Base(History::new());
    for cmd in cmds {
        let _ = h.push(cmd);
    }
    h
}

#[test]
fn base_is_empty_on_new() {
    assert!(AnyHistory::Base(History::new()).is_empty());
}

#[test]
fn base_is_empty_false_after_push() {
    let mut h = AnyHistory::Base(History::new());
    let _ = h.push("cmd");
    assert!(!h.is_empty());
}

#[test]
fn base_navigate_up_and_down() {
    let mut h = base_with_entries(&["a", "b", "c"]);
    assert!(matches!(h.navigate_up(""), HistoryNavResult::Entry("c")));
    assert!(matches!(h.navigate_up(""), HistoryNavResult::Entry("b")));
    assert!(matches!(h.navigate_down(), HistoryNavResult::Entry("c")));
    assert!(matches!(h.navigate_down(), HistoryNavResult::RestoreBackup));
}

#[test]
fn base_backup_and_reset() {
    let mut h = base_with_entries(&["a", "b"]);
    h.navigate_up("draft");
    assert_eq!(h.backup(), "draft");
    h.reset_index();
    assert!(matches!(h.navigate_down(), HistoryNavResult::Empty));
}

#[test]
fn a_history_file_is_read_line_by_line_skipping_blank_lines() {
    let h = History::from_file_content("alpha\r\n\nbeta\n\ngamma");
    assert_eq!(entries(&h), vec!["alpha", "beta", "gamma"]);
    assert!(History::from_file_content("").is_empty());
}

#[test]
fn a_persisted_history_says_what_to_append() {
    let mut h = PersistHistory::new("hist.txt".to_string(), "first\nsecond\n");
    assert_eq!(h.file_path(), "hist.txt");
    assert!(!h.push("second"));
    assert!(h.push("third"));
    assert_eq!(h.entries().len(), 3);
    assert!(matches!(h.navigate_up(""), HistoryNavResult::Entry("third")));
    assert!(matches!(h.navigate_down(), HistoryNavResult::RestoreBackup));
    assert_eq!(h.backup(), "");
    h.reset_index();
    assert!(!h.is_empty());
}
