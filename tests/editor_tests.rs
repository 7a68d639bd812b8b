use writer::document::Document;
use writer::editor::{can_quit, move_cursor, scroll, Motion, Position};

fn doc() -> Document {
    Document::from_text("a.txt", "abc\nd\n\nefgh")
}

#[test]
fn cursor_moves_and_clamps() {
    let d = doc();
    assert_eq!(move_cursor(&d, Position { x: 3, y: 0 }, Motion::Down, 10), Position { x: 1, y: 1 });
    assert_eq!(move_cursor(&d, Position { x: 3, y: 0 }, Motion::Right, 10), Position { x: 0, y: 1 });
    assert_eq!(move_cursor(&d, Position { x: 0, y: 1 }, Motion::Left, 10), Position { x: 3, y: 0 });
    assert_eq!(move_cursor(&d, Position { x: 0, y: 0 }, Motion::Up, 10), Position { x: 0, y: 0 });
    assert_eq!(move_cursor(&d, Position { x: 0, y: 3 }, Motion::End, 10), Position { x: 4, y: 3 });
    assert_eq!(move_cursor(&d, Position { x: 4, y: 3 }, Motion::Home, 10), Position { x: 0, y: 3 });
    assert_eq!(move_cursor(&d, Position { x: 0, y: 0 }, Motion::PageDown, 2), Position { x: 0, y: 2 });
    assert_eq!(move_cursor(&d, Position { x: 0, y: 0 }, Motion::PageDown, 10), Position { x: 0, y: 4 });
    assert_eq!(move_cursor(&d, Position { x: 0, y: 3 }, Motion::PageUp, 2), Position { x: 0, y: 1 });
    assert_eq!(move_cursor(&d, Position { x: 0, y: 4 }, Motion::Down, 10), Position { x: 0, y: 4 });
}

#[test]
fn scroll_follows_cursor() {
    let o = Position { x: 0, y: 0 };
    assert_eq!(scroll(Position { x: 5, y: 30 }, o, 80, 24), Position { x: 0, y: 7 });
    assert_eq!(scroll(Position { x: 2, y: 3 }, Position { x: 5, y: 10 }, 80, 24), Position { x: 2, y: 3 });
    assert_eq!(scroll(Position { x: 100, y: 3 }, o, 80, 24), Position { x: 21, y: 0 });
}

#[test]
fn quit_needs_confirmation_when_dirty() {
    assert_eq!(can_quit(3, true), (false, 2));
    assert_eq!(can_quit(0, true), (true, 0));
    assert_eq!(can_quit(3, false), (true, 3));
}
