use safe_backup::path::{
    any_parent_marker, begins_with, holds_name, is_parent_marker, keep_names, last_segment_start,
    render, same_text, split,
};

fn chars(s: &str) -> Vec<char> {
    s.chars().collect()
}

fn list(parts: &[&str]) -> Vec<Vec<char>> {
    parts.iter().map(|part| chars(part)).collect()
}

#[test]
fn split_cuts_at_every_separator() {
    assert_eq!(split(&chars("a/b/c")), list(&["a", "b", "c"]));
    assert_eq!(split(&chars("a")), list(&["a"]));
    assert_eq!(split(&chars("sub/../x")), list(&["sub", "..", "x"]));
}

#[test]
fn split_keeps_empty_segments() {
    assert_eq!(split(&chars("")), list(&[""]));
    assert_eq!(split(&chars("/")), list(&["", ""]));
    assert_eq!(split(&chars("/a")), list(&["", "a"]));
    assert_eq!(split(&chars("a/")), list(&["a", ""]));
    assert_eq!(split(&chars("a//b")), list(&["a", "", "b"]));
    assert_eq!(split(&chars("//")), list(&["", "", ""]));
}

#[test]
fn split_gives_one_segment_more_than_there_are_separators() {
    for text in ["", "a", "/", "a/b", "/a/b/", "///", "a\\b/c"] {
        let separators = text.chars().filter(|c| *c == '/').count();
        assert_eq!(split(&chars(text)).len(), separators + 1, "{:?}", text);
    }
}

#[test]
fn parent_marker_is_two_dots_and_nothing_else() {
    assert!(is_parent_marker(&chars("..")));
    for other in ["", ".", "...", ". ", " .", "a.", ".a", "\u{2024}\u{2024}"] {
        assert!(!is_parent_marker(&chars(other)), "{:?}", other);
    }
}

#[test]
fn parent_marker_is_found_among_segments() {
    assert!(any_parent_marker(&list(&[".."])));
    assert!(any_parent_marker(&list(&["a", "..", "b"])));
    assert!(any_parent_marker(&list(&["a", "b", ".."])));
    assert!(!any_parent_marker(&list(&[])));
    assert!(!any_parent_marker(&list(&["a", "...", ".", "", "..a"])));
}

#[test]
fn names_are_neither_empty_nor_the_current_marker() {
    assert!(holds_name(&chars("a")));
    assert!(holds_name(&chars("..")));
    assert!(holds_name(&chars(".a")));
    assert!(holds_name(&chars(" ")));
    assert!(!holds_name(&chars("")));
    assert!(!holds_name(&chars(".")));
}

#[test]
fn keep_names_drops_what_names_nothing() {
    assert_eq!(keep_names(list(&["", "a", ".", "", "b", "."])), list(&["a", "b"]));
    assert_eq!(keep_names(list(&["", ""])), list(&[]));
    assert_eq!(keep_names(list(&["a", "b"])), list(&["a", "b"]));
    assert_eq!(keep_names(list(&[])), list(&[]));
}

#[test]
fn render_puts_a_separator_in_front_of_each_name() {
    assert_eq!(render(&list(&["work", "notes.md"])), chars("/work/notes.md"));
    assert_eq!(render(&list(&["a"])), chars("/a"));
}

#[test]
fn render_of_no_names_is_the_root() {
    assert_eq!(render(&list(&[])), chars("/"));
}

#[test]
fn rendered_names_split_into_themselves() {
    for names in [list(&[]), list(&["a"]), list(&["work", "sub", "a.txt"]), list(&["...", "b c"])] {
        assert_eq!(keep_names(split(&render(&names))), names);
    }
}

#[test]
fn begins_with_goes_name_by_name() {
    let path = list(&["work", "sub", "a"]);
    assert!(begins_with(&path, &list(&[])));
    assert!(begins_with(&path, &list(&["work"])));
    assert!(begins_with(&path, &list(&["work", "sub"])));
    assert!(begins_with(&path, &path));
    assert!(!begins_with(&path, &list(&["wor"])));
    assert!(!begins_with(&path, &list(&["work", "su"])));
    assert!(!begins_with(&path, &list(&["sub"])));
    assert!(!begins_with(&path, &list(&["work", "sub", "a", "b"])));
    assert!(!begins_with(&list(&[]), &list(&["work"])));
}

#[test]
fn same_text_compares_every_character() {
    assert!(same_text(&chars(""), &chars("")));
    assert!(same_text(&chars("abc"), &chars("abc")));
    assert!(!same_text(&chars("abc"), &chars("abd")));
    assert!(!same_text(&chars("abc"), &chars("ab")));
    assert!(!same_text(&chars("ab"), &chars("abc")));
    assert!(!same_text(&chars("Abc"), &chars("abc")));
}

#[test]
fn last_segment_starts_behind_the_last_separator() {
    assert_eq!(last_segment_start(&chars("")), 0);
    assert_eq!(last_segment_start(&chars("abc")), 0);
    assert_eq!(last_segment_start(&chars("/abc")), 1);
    assert_eq!(last_segment_start(&chars("a/b/c.txt")), 4);
    assert_eq!(last_segment_start(&chars("a/b/")), 4);
}
