use scope_monitor::graphics::special_char::{SpecialCharItem, ToSpecialChar};
use scope_monitor::infra::tags::TagList;

fn tag_list_with(tags: &[(&str, &str)]) -> TagList {
    let yaml: String = tags
        .iter()
        .map(|(k, v)| format!("{k}: \"{v}\"\n"))
        .collect();
    let content = if tags.is_empty() { None } else { Some(yaml) };
    TagList::new("tags.yml".to_string(), content).expect("valid tag file")
}

fn resolve(tag_list: &TagList, content: &str) -> String {
    let mut resolved = String::new();
    let mut splitter = content.to_special_char(|s| tag_list.tag_filter(s));
    while let Some(item) = splitter.next_item() {
        match item {
            SpecialCharItem::Plain(s) => resolved.push_str(&s),
            SpecialCharItem::Special(s, _) => resolved.push_str(&tag_list.get_tagged_key(&s)),
        }
    }
    resolved
}

#[test]
fn test_tag_filter_single() {
    let tag_list = tag_list_with(&[("tag1", "v1")]);
    let pos = tag_list.tag_filter("@tag1").expect("tag should match");
    assert_eq!(pos.start, 0);
    assert_eq!(pos.length, 5);
}

#[test]
fn test_tag_filter_adjacent_no_sep() {
    let tag_list = tag_list_with(&[("tag1", "v1"), ("tag2", "v2")]);
    let pos = tag_list
        .tag_filter("@tag1@tag2")
        .expect("first tag should match");
    assert_eq!(pos.start, 0);
    assert_eq!(pos.length, 5);
}

#[test]
fn test_tag_filter_adjacent_resolves_both() {
    let tag_list = tag_list_with(&[("tag1", "v1"), ("tag2", "v2")]);
    assert_eq!(resolve(&tag_list, "@tag1@tag2"), "v1v2");
}

#[test]
fn test_tag_filter_closing_quote_terminates_tag() {
    let tag_list = tag_list_with(&[("tag1", "v1")]);
    let pos = tag_list
        .tag_filter("\"@tag1\"")
        .expect("tag should match before the closing quote");
    assert_eq!(pos.start, 1);
    assert_eq!(pos.length, 5);
}

#[test]
fn test_tag_in_quotes_resolves_without_space() {
    let tag_list = tag_list_with(&[("tag1", "hello")]);
    assert_eq!(resolve(&tag_list, "\"@tag1\""), "\"hello\"");
}

fn tag_list_showing(tags: &[(&str, &str)], pattern: &str) -> TagList {
    let mut tag_list = tag_list_with(tags);
    tag_list.update_pattern(pattern, pattern.chars().count());
    tag_list.update_autocomplete_list();
    tag_list
}

#[test]
fn test_selection_starts_at_first_entry() {
    let tag_list = tag_list_showing(&[("alpha", "1"), ("beta", "2"), ("gamma", "3")], "@");
    assert_eq!(tag_list.selected(), 0);
    assert_eq!(tag_list.get_selected_autocomplete().as_deref(), Some("alpha"));
}

#[test]
fn test_select_next_and_prev_walk_the_list() {
    let mut tag_list = tag_list_showing(&[("beta", "2"), ("alpha", "1"), ("gamma", "3")], "@");

    tag_list.select_next();
    assert_eq!(tag_list.selected(), 1);
    assert_eq!(tag_list.get_selected_autocomplete().as_deref(), Some("beta"));

    tag_list.select_prev();
    assert_eq!(tag_list.selected(), 0);
}

#[test]
fn test_selection_clamps_at_both_ends() {
    let mut tag_list = tag_list_showing(&[("alpha", "1"), ("beta", "2")], "@");

    tag_list.select_prev();
    assert_eq!(tag_list.selected(), 0);

    tag_list.select_next();
    tag_list.select_next();
    tag_list.select_next();
    assert_eq!(tag_list.selected(), 1);
}

#[test]
fn test_selection_resets_when_list_is_rebuilt() {
    let mut tag_list = tag_list_showing(&[("alpha", "1"), ("beta", "2")], "@");
    tag_list.select_next();
    assert_eq!(tag_list.selected(), 1);

    tag_list.update_autocomplete_list();
    assert_eq!(tag_list.selected(), 0);
}

#[test]
fn test_clear_resets_selection_and_hides_popup() {
    let mut tag_list = tag_list_showing(&[("alpha", "1"), ("beta", "2")], "@");
    tag_list.select_next();
    assert!(tag_list.has_suggestions());

    tag_list.clear();
    assert_eq!(tag_list.selected(), 0);
    assert!(!tag_list.has_suggestions());
    assert!(tag_list.get_selected_autocomplete().is_none());
}

#[test]
fn test_has_suggestions_requires_pattern_and_matches() {
    let empty = tag_list_with(&[("alpha", "1")]);
    assert!(!empty.has_suggestions());

    let no_match = tag_list_showing(&[("alpha", "1")], "@zzz");
    assert!(!no_match.has_suggestions());

    let matching = tag_list_showing(&[("alpha", "1")], "@al");
    assert!(matching.has_suggestions());
}

#[test]
fn autocomplete_is_sorted_case_insensitively_and_filtered_by_prefix() {
    let tag_list = tag_list_showing(&[("Beta", "2"), ("alpha", "1"), ("alps", "3")], "@al");
    assert_eq!(tag_list.autocomplete_list(), vec!["alpha".to_string(), "alps".to_string()]);
    assert_eq!(tag_list.pattern(), "@al");
}

#[test]
fn an_unknown_tag_resolves_to_its_own_text() {
    let tag_list = tag_list_with(&[("tag1", "v1")]);
    assert_eq!(tag_list.get_tagged_key("@nope"), "@nope");
    assert_eq!(tag_list.get_tagged_key("@tag1"), "v1");
}

#[test]
fn a_missing_file_gives_an_empty_list_and_bad_yaml_an_error() {
    let empty = TagList::new("none.yml".to_string(), None).unwrap();
    assert!(empty.tag_filter("@x").is_none());
    assert_eq!(empty.file_path(), "none.yml");

    let err = TagList::new("bad.yml".to_string(), Some("- [unclosed".to_string()));
    match err {
        Err(message) => assert!(message.starts_with("Failed to parse tag file at bad.yml: ")),
        Ok(_) => panic!("malformed yaml must be rejected"),
    }
}

#[test]
fn reload_replaces_the_tags() {
    let mut tag_list = tag_list_with(&[("a", "1")]);
    tag_list.reload(Some("b: \"2\"\n".to_string())).unwrap();
    assert_eq!(tag_list.get_tagged_key("@b"), "2");
    assert_eq!(tag_list.get_tagged_key("@a"), "@a");
    assert!(tag_list.reload(Some(": : :\n- x".to_string())).is_err());
    assert_eq!(tag_list.get_tagged_key("@b"), "2");
}
