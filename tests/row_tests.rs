use writer::editor::SearchDirection;
use writer::highlighting::{classify, highlight_row, HighlightingOptions, Type};
use writer::filetype::FileType;
use writer::row::{chars_of, Row};

fn chars(s: &str) -> Vec<char> {
    s.chars().collect()
}

#[test]
fn split_then_append_restores_row() {
    for x in 0..8 {
        let mut r = Row::from("hello");
        let rest = r.split(x);
        r.append(rest);
        assert_eq!(r.to_text(), "hello");
    }
    let mut r = Row::from("hello");
    let rest = r.split(2);
    assert_eq!(r.to_text(), "he");
    assert_eq!(rest.to_text(), "llo");
}

#[test]
fn typing_left_to_right_gives_the_text() {
    let text = "let x = 1;";
    let mut r = Row::new();
    for (i, c) in text.chars().enumerate() {
        r.insert(i, c);
    }
    assert_eq!(r.to_text(), text);
}

#[test]
fn insert_and_delete_clamp() {
    let mut r = Row::from("ac");
    r.insert(1, 'b');
    r.insert(10, 'd');
    assert_eq!(r.to_text(), "abcd");
    r.delete(0);
    r.delete(10);
    assert_eq!(r.to_text(), "bcd");
    assert_eq!(r.len(), 3);
    assert!(!r.is_empty());
}

#[test]
fn render_expands_tabs_and_clamps() {
    let r = Row::from("a\tbcd");
    assert_eq!(r.render(0, 100), "a bcd");
    assert_eq!(r.render(1, 3), " b");
    assert_eq!(r.render(4, 2), "");
    assert_eq!(r.render(9, 12), "");
}

#[test]
fn row_find_in_both_directions() {
    let r = Row::from("abcabc");
    assert_eq!(r.find(&chars("bc"), 0, SearchDirection::Forward), Some(1));
    assert_eq!(r.find(&chars("bc"), 2, SearchDirection::Forward), Some(4));
    assert_eq!(r.find(&chars("bc"), 6, SearchDirection::Backward), Some(4));
    assert_eq!(r.find(&chars("bc"), 4, SearchDirection::Backward), Some(4));
    assert_eq!(r.find(&chars("bc"), 3, SearchDirection::Backward), Some(1));
    assert_eq!(r.find(&chars("bc"), 0, SearchDirection::Backward), None);
    assert_eq!(r.find(&chars(""), 2, SearchDirection::Forward), Some(2));
    assert_eq!(r.find(&chars(""), 9, SearchDirection::Forward), None);
    assert_eq!(r.find(&chars(""), 9, SearchDirection::Backward), Some(6));
    assert_eq!(r.find(&chars("bc"), 9, SearchDirection::Backward), Some(4));
    assert_eq!(r.find(&chars("a"), 7, SearchDirection::Forward), None);
}

fn rust_tags(s: &str, word: Option<&str>) -> Vec<Type> {
    let ft = FileType::from("main.rs");
    let mut r = Row::from(s);
    let w = word.map(chars);
    r.highlight(ft.highlight_options(), w.as_ref());
    r.highlighting().clone()
}

#[test]
fn numbers_strings_and_characters_are_tagged() {
    assert_eq!(rust_tags("x1 2.5", None), vec![Type::Normal, Type::Normal, Type::Normal, Type::Number, Type::Number, Type::Number]);
    assert_eq!(rust_tags("\"a\"b", None), vec![Type::String, Type::String, Type::String, Type::Normal]);
    assert_eq!(rust_tags("'a' '\\n'", None), vec![Type::Character, Type::Character, Type::Character, Type::Normal, Type::Character, Type::Character, Type::Character, Type::Character]);
    assert_eq!(rust_tags("\"ab", None), vec![Type::String, Type::String, Type::String]);
}

#[test]
fn keywords_are_tagged_on_word_boundaries() {
    assert_eq!(rust_tags("fn u8", None), vec![Type::PrimaryKeywords, Type::PrimaryKeywords, Type::Normal, Type::SecondaryKeywords, Type::SecondaryKeywords]);
    assert_eq!(rust_tags("fnx", None), vec![Type::Normal, Type::Normal, Type::Normal]);
    assert_eq!(rust_tags("xfn", None), vec![Type::Normal, Type::Normal, Type::Normal]);
}

#[test]
fn match_overrides_keyword_tags() {
    assert_eq!(rust_tags("let while", Some("while")), vec![Type::PrimaryKeywords, Type::PrimaryKeywords, Type::PrimaryKeywords, Type::Normal, Type::Match, Type::Match, Type::Match, Type::Match, Type::Match]);
    assert_eq!(rust_tags("aaa", Some("aa")), vec![Type::Match, Type::Match, Type::Match]);
    assert_eq!(rust_tags("abc", Some("")), vec![Type::Normal, Type::Normal, Type::Normal]);
}

#[test]
fn highlighting_twice_gives_same_tags() {
    let ft = FileType::from("main.rs");
    let mut r = Row::from("let s = \"x\"; 42");
    let w = chars("s");
    r.highlight(ft.highlight_options(), Some(&w));
    let first = r.highlighting().clone();
    r.highlight(ft.highlight_options(), Some(&w));
    assert_eq!(r.highlighting().clone(), first);
}

#[test]
fn disabled_categories_are_not_tagged() {
    let opts = HighlightingOptions::none();
    let tags = classify(&chars("fn 1 \"a\" 'b'"), &opts);
    assert!(tags.iter().all(|t| *t == Type::Normal));
    let tags = highlight_row(&chars("ab"), &opts, None);
    assert_eq!(tags.len(), 2);
}

#[test]
fn tag_colors() {
    assert_eq!(Type::Number.rgb(), (220, 163, 163));
    assert_eq!(Type::Match.rgb(), (38, 210, 139));
    assert_eq!(Type::Normal.rgb(), (255, 255, 255));
}

#[test]
fn chars_of_keeps_every_character() {
    assert_eq!(chars_of("añb"), vec!['a', 'ñ', 'b']);
}
