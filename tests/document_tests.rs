use writer::document::Document;
use writer::editor::{Position, SearchDirection};

fn rows(doc: &Document) -> Vec<String> {
    let mut out = Vec::new();
    for i in 0..doc.len() {
        out.push(doc.row(i).unwrap().to_text());
    }
    out
}

fn doc(text: &str) -> Document {
    Document::from_text("notes.txt", text)
}

#[test]
fn newline_at_end_of_row_adds_empty_row() {
    let mut d = doc("ab\ncd");
    d.insert(&Position { x: 2, y: 0 }, '\n');
    assert_eq!(rows(&d), vec!["ab", "", "cd"]);
    assert!(d.is_dirty());
}

#[test]
fn delete_at_end_of_row_joins_rows() {
    let mut d = doc("ab\ncd");
    d.delete(&Position { x: 2, y: 0 });
    assert_eq!(rows(&d), vec!["abcd"]);
    assert!(d.is_dirty());
}

#[test]
fn save_without_name_is_a_no_op() {
    let mut d = Document::default();
    d.insert(&Position { x: 0, y: 0 }, 'a');
    assert!(d.is_dirty());
    assert!(d.pending_save().is_none());
    d.mark_saved();
    assert!(d.is_dirty());
    assert_eq!(rows(&d), vec!["a"]);
}

#[test]
fn save_with_name_gives_text_and_clears_dirty() {
    let mut d = doc("ab\ncd");
    d.insert(&Position { x: 0, y: 1 }, 'x');
    assert_eq!(d.pending_save(), Some("ab\nxcd\n".to_string()));
    d.set_file_name(Some("main.rs".to_string()));
    d.mark_saved();
    assert!(!d.is_dirty());
    assert_eq!(d.file_type(), "Rust");
}

#[test]
fn merge_then_split_restores_rows() {
    let mut d = doc("hello\nworld\n!");
    d.delete(&Position { x: 5, y: 0 });
    assert_eq!(rows(&d), vec!["helloworld", "!"]);
    d.insert_newline(&Position { x: 5, y: 0 });
    assert_eq!(rows(&d), vec!["hello", "world", "!"]);
}

#[test]
fn insert_into_row_and_past_end() {
    let mut d = doc("ac");
    d.insert(&Position { x: 1, y: 0 }, 'b');
    assert_eq!(rows(&d), vec!["abc"]);
    d.insert(&Position { x: 9, y: 0 }, 'd');
    assert_eq!(rows(&d), vec!["abcd"]);
    d.insert(&Position { x: 0, y: 1 }, 'e');
    assert_eq!(rows(&d), vec!["abcd", "e"]);
}

#[test]
fn insert_past_row_count_changes_nothing() {
    let mut d = doc("ab");
    d.insert(&Position { x: 0, y: 5 }, 'x');
    assert_eq!(rows(&d), vec!["ab"]);
    assert!(!d.is_dirty());
}

#[test]
fn delete_inside_row_and_out_of_range() {
    let mut d = doc("abc\nde");
    d.delete(&Position { x: 1, y: 0 });
    assert_eq!(rows(&d), vec!["ac", "de"]);
    d.delete(&Position { x: 0, y: 7 });
    assert_eq!(rows(&d), vec!["ac", "de"]);
    d.delete(&Position { x: 2, y: 1 });
    assert_eq!(rows(&d), vec!["ac", "de"]);
}

#[test]
fn newline_on_row_count_appends_empty_row() {
    let mut d = doc("ab");
    d.insert_newline(&Position { x: 0, y: 1 });
    assert_eq!(rows(&d), vec!["ab", ""]);
    d.insert_newline(&Position { x: 0, y: 9 });
    assert_eq!(rows(&d), vec!["ab", ""]);
}

#[test]
fn newline_splits_row_in_the_middle() {
    let mut d = doc("abcd");
    d.insert(&Position { x: 1, y: 0 }, '\n');
    assert_eq!(rows(&d), vec!["a", "bcd"]);
}

#[test]
fn lines_are_split_at_line_feeds() {
    let d = doc("one\r\ntwo\n\nthree\n");
    assert_eq!(rows(&d), vec!["one", "two", "", "three"]);
    assert!(!d.is_dirty());
    assert!(doc("").is_empty());
    assert_eq!(rows(&doc("x\r")), vec!["x\r"]);
}

#[test]
fn forward_search_finds_query_on_last_row() {
    let d = doc("aaa\nbbb\nxxfoo");
    let p = d.find("foo", &Position { x: 0, y: 0 }, SearchDirection::Forward).unwrap();
    assert_eq!(p, Position { x: 2, y: 2 });
}

#[test]
fn forward_search_from_offset_skips_earlier_match() {
    let d = doc("ab ab");
    let p = d.find("ab", &Position { x: 1, y: 0 }, SearchDirection::Forward).unwrap();
    assert_eq!(p, Position { x: 3, y: 0 });
    assert!(d.find("zz", &Position { x: 0, y: 0 }, SearchDirection::Forward).is_none());
    assert!(d.find("ab", &Position { x: 0, y: 4 }, SearchDirection::Forward).is_none());
}

#[test]
fn backward_search_wraps_to_end_of_previous_row() {
    let d = doc("foo foo\nbar");
    let p = d.find("foo", &Position { x: 0, y: 1 }, SearchDirection::Backward).unwrap();
    assert_eq!(p, Position { x: 4, y: 0 });
    let q = d.find("foo", &Position { x: 3, y: 0 }, SearchDirection::Backward).unwrap();
    assert_eq!(q, Position { x: 0, y: 0 });
    assert!(d.find("oo", &Position { x: 0, y: 0 }, SearchDirection::Backward).is_none());
}

#[test]
fn backward_search_finds_match_starting_at_cursor() {
    let d = doc("ab
cd");
    let p = d.find("cd", &Position { x: 0, y: 1 }, SearchDirection::Backward).unwrap();
    assert_eq!(p, Position { x: 0, y: 1 });
}

#[test]
fn delete_that_changes_nothing_keeps_document_clean() {
    let mut d = doc("ab
cd");
    d.delete(&Position { x: 5, y: 0 });
    assert!(!d.is_dirty());
    d.delete(&Position { x: 2, y: 1 });
    assert!(!d.is_dirty());
    assert_eq!(rows(&d), vec!["ab", "cd"]);
    d.delete(&Position { x: 0, y: 1 });
    assert!(d.is_dirty());
}

#[test]
fn newline_marks_document_modified() {
    let mut d = doc("abcd");
    d.insert_newline(&Position { x: 2, y: 0 });
    assert!(d.is_dirty());
    assert_eq!(rows(&d), vec!["ab", "cd"]);
    let mut e = doc("ab");
    e.insert_newline(&Position { x: 0, y: 3 });
    assert!(!e.is_dirty());
}

#[test]
fn typing_into_middle_of_row() {
    let mut d = doc("ad
z");
    for (i, c) in "bc".chars().enumerate() {
        d.insert(&Position { x: 1 + i, y: 0 }, c);
    }
    assert_eq!(rows(&d), vec!["abcd", "z"]);
}

#[test]
fn file_type_follows_name() {
    assert_eq!(Document::from_text("lib.rs", "fn main() {}").file_type(), "Rust");
    assert_eq!(doc("x").file_type(), "No filetype");
    assert_eq!(Document::default().file_type(), "No filetype");
}

#[test]
fn row_lookup_past_end_is_none() {
    let d = doc("a\nb");
    assert!(d.row(2).is_none());
    assert_eq!(d.len(), 2);
    assert!(!d.is_empty());
    assert_eq!(d.file_name().clone(), Some("notes.txt".to_string()));
}

#[test]
fn backward_search_from_past_row_end_is_clamped() {
    let d = doc("a");
    let p = d.find("a", &Position { x: 5, y: 0 }, SearchDirection::Backward).unwrap();
    assert_eq!(p, Position { x: 0, y: 0 });
}

#[test]
fn empty_query_matches_at_start_offset() {
    let d = doc("abc");
    let p = d.find("", &Position { x: 0, y: 0 }, SearchDirection::Forward).unwrap();
    assert_eq!(p, Position { x: 0, y: 0 });
    let q = d.find("", &Position { x: 7, y: 0 }, SearchDirection::Backward).unwrap();
    assert_eq!(q, Position { x: 3, y: 0 });
}
