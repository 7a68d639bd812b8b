use vstd::prelude::*;
use crate::document::Document;

verus! {

/// A place in a document: `x` counts characters in row `y`.
#[derive(PartialEq, Eq, Structural, Clone, Copy, Debug)]
pub struct Position {
    pub x: usize,
    pub y: usize,
}

impl Default for Position {
    fn default() -> (r: Position)
        ensures
            r.x == 0,
            r.y == 0,
    {
        Position { x: 0, y: 0 }
    }
}

/// The direction in which a search walks.
#[derive(PartialEq, Eq, Structural, Clone, Copy, Debug)]
pub enum SearchDirection {
    Forward,
    Backward,
}

/// A key that moves the cursor.
#[derive(PartialEq, Eq, Structural, Clone, Copy, Debug)]
pub enum Motion {
    Up,
    Down,
    Left,
    Right,
    PageUp,
    PageDown,
    Home,
    End,
}

/// The length of row `y`, or 0 below the last row.
pub open spec fn row_len(rows: Seq<Seq<char>>, y: int) -> int {
    if 0 <= y < rows.len() {
        rows[y].len() as int
    } else {
        0
    }
}

/// Where a motion takes the cursor before it is clamped to its row.
pub open spec fn step(rows: Seq<Seq<char>>, x: int, y: int, key: Motion, page: int) -> (int, int) {
    let height = rows.len() as int;
    let width = row_len(rows, y);
    match key {
        Motion::Up => (x, if y > 0 { y - 1 } else { 0 }),
        Motion::Down => (x, if y < height { y + 1 } else { y }),
        Motion::Left => if x > 0 {
            (x - 1, y)
        } else if y > 0 {
            (row_len(rows, y - 1), y - 1)
        } else {
            (x, y)
        },
        Motion::Right => if x < width {
            (x + 1, y)
        } else if y < height {
            (0, y + 1)
        } else {
            (x, y)
        },
        Motion::PageDown => (x, if y + page < height { y + page } else { height }),
        Motion::PageUp => (x, if y > page { y - page } else { 0 }),
        Motion::Home => (0, y),
        Motion::End => (width, y),
    }
}

/// Where a motion takes the cursor: the step, with the column clamped to
/// the length of the row it lands on.
pub open spec fn moved(rows: Seq<Seq<char>>, x: int, y: int, key: Motion, page: int) -> (int, int) {
    let (x1, y1) = step(rows, x, y, key, page);
    (if x1 > row_len(rows, y1) { row_len(rows, y1) } else { x1 }, y1)
}

fn row_width(doc: &Document, y: usize) -> (r: usize)
    ensures
        r == row_len(doc.text(), y as int),
{
    match doc.row(y) {
        Some(row) => row.len(),
        None => 0,
    }
}

/// Moves the cursor `at` of `doc` by `key`; a page is `page` rows.
pub fn move_cursor(doc: &Document, at: Position, key: Motion, page: usize) -> (r: Position)
    ensures
        (r.x as int, r.y as int) == moved(doc.text(), at.x as int, at.y as int, key, page as int),
{
    let height = doc.len();
    let mut x = at.x;
    let mut y = at.y;
    let width = row_width(doc, y);
    match key {
        Motion::Up => {
            y = y.saturating_sub(1);
        },
        Motion::Down => {
            if y < height {
                y = y + 1;
            }
        },
        Motion::Left => {
            if x > 0 {
                x = x - 1;
            } else if y > 0 {
                y = y - 1;
                x = row_width(doc, y);
            }
        },
        Motion::Right => {
            if x < width {
                x = x + 1;
            } else if y < height {
                y = y + 1;
                x = 0;
            }
        },
        Motion::PageDown => {
            y = if y.saturating_add(page) < height {
                y + page
            } else {
                height
            };
        },
        Motion::PageUp => {
            y = if y > page {
                y - page
            } else {
                0
            };
        },
        Motion::Home => {
            x = 0;
        },
        Motion::End => {
            x = width;
        },
    }
    let w = row_width(doc, y);
    if x > w {
        x = w;
    }
    Position { x, y }
}

/// The scroll offset along one axis that keeps `c` inside a window of
/// `size` cells starting at `o`.
pub open spec fn follow(c: usize, o: usize, size: usize) -> usize {
    if c < o {
        c
    } else if c >= o.saturating_add(size) {
        c.saturating_sub(size).saturating_add(1)
    } else {
        o
    }
}

fn follow_exec(c: usize, o: usize, size: usize) -> (r: usize)
    ensures
        r == follow(c, o, size),
{
    if c < o {
        c
    } else if c >= o.saturating_add(size) {
        c.saturating_sub(size).saturating_add(1)
    } else {
        o
    }
}

/// The scroll offset that keeps `cursor` on a screen of `width` by
/// `height` cells, moved as little as it takes from `offset`: the cursor
/// ends inside the window, and an offset that already shows it stays.
pub fn scroll(cursor: Position, offset: Position, width: usize, height: usize) -> (r: Position)
    ensures
        r.x == follow(cursor.x, offset.x, width),
        r.y == follow(cursor.y, offset.y, height),
        width > 0 && offset.x + width <= usize::MAX ==> r.x <= cursor.x < r.x + width
            && (offset.x <= cursor.x < offset.x + width ==> r.x == offset.x),
        height > 0 && offset.y + height <= usize::MAX ==> r.y <= cursor.y < r.y + height
            && (offset.y <= cursor.y < offset.y + height ==> r.y == offset.y),
{
    Position { x: follow_exec(cursor.x, offset.x, width), y: follow_exec(cursor.y, offset.y, height) }
}

/// Whether a quit request goes through, and the warnings left: with unsaved
/// changes and warnings left, it is refused and one warning is used.
pub fn can_quit(quit_times: u8, dirty: bool) -> (r: (bool, u8))
    ensures
        quit_times > 0 && dirty ==> r == (false, (quit_times - 1) as u8),
        !(quit_times > 0 && dirty) ==> r == (true, quit_times),
{
    if quit_times > 0 && dirty {
        (false, quit_times - 1)
    } else {
        (true, quit_times)
    }
}

} // verus!
