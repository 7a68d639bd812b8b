use vstd::prelude::*;
use vstd::string::*;
use crate::editor::SearchDirection;
use crate::highlighting::{highlight_row, highlight_spec, opt_view, occurs_at, matches_at, HighlightingOptions, Type};

verus! {

/// The characters of a string slice.
pub fn chars_of(s: &str) -> (r: Vec<char>)
    ensures
        r@ == s@,
{
    let n = s.unicode_len();
    let mut v: Vec<char> = Vec::new();
    let mut i: usize = 0;
    while i < n
        invariant
            i <= n,
            n == s@.len(),
            v@ == s@.subrange(0, i as int),
        decreases n - i,
    {
        v.push(s.get_char(i));
        i += 1;
        assert(v@ =~= s@.subrange(0, i as int));
    }
    assert(v@ =~= s@);
    v
}

/// Relies on std's `String::push`: the character is added at the end.
#[verifier::external_body]
pub(crate) fn push_char(s: &mut String, c: char)
    ensures
        final(s)@ == old(s)@.push(c),
{
    s.push(c);
}

/// How a character is shown: a tab takes one blank column.
pub open spec fn display_char(c: char) -> char {
    if c == '\t' {
        ' '
    } else {
        c
    }
}

pub open spec fn min(a: int, b: int) -> int {
    if a < b {
        a
    } else {
        b
    }
}

/// The display form of the columns `[start, end)` of `s`, clamped to its length.
pub open spec fn render_spec(s: Seq<char>, start: int, end: int) -> Seq<char> {
    let e = min(end, s.len() as int);
    let b = min(start, e);
    s.subrange(b, e).map_values(|c: char| display_char(c))
}

/// The first occurrence of `q` that starts at `p` or later.
pub open spec fn find_forward(s: Seq<char>, q: Seq<char>, p: int) -> Option<int>
    decreases s.len() + 1 - p,
{
    if p < 0 || p + q.len() > s.len() {
        Option::None
    } else if occurs_at(s, q, p) {
        Option::Some(p)
    } else {
        find_forward(s, q, p + 1)
    }
}

/// The last occurrence of `q` that starts at `p` or earlier.
pub open spec fn find_backward(s: Seq<char>, q: Seq<char>, p: int) -> Option<int>
    decreases p + 1,
{
    if p < 0 {
        Option::None
    } else if occurs_at(s, q, p) {
        Option::Some(p)
    } else {
        find_backward(s, q, p - 1)
    }
}

/// A search of one row from offset `at`: forward, the first occurrence that
/// starts at `at` or later; backward, the last one that starts at `at` or
/// earlier, with `at` clamped to the row's length. The empty query occurs
/// at every offset from 0 to the length.
pub open spec fn row_find(s: Seq<char>, q: Seq<char>, at: int, dir: SearchDirection) -> Option<int> {
    match dir {
        SearchDirection::Forward => find_forward(s, q, at),
        SearchDirection::Backward => find_backward(s, q, min(at, s.len() as int)),
    }
}

/// `s` after inserting `c` before offset `at`, or at the end when `at` is
/// past it.
pub open spec fn row_insert(s: Seq<char>, at: int, c: char) -> Seq<char> {
    if 0 <= at < s.len() {
        s.insert(at, c)
    } else {
        s.push(c)
    }
}

/// An empty row after typing the characters of `c` one by one, each at the
/// offset just after the previous one.
pub open spec fn typed(c: Seq<char>) -> Seq<char>
    decreases c.len(),
{
    if c.len() == 0 {
        Seq::empty()
    } else {
        row_insert(typed(c.drop_last()), c.len() - 1, c.last())
    }
}

/// Splitting a row at any offset and appending the split-off part gives
/// back the row's content.
pub proof fn lemma_split_append(s: Seq<char>, x: int)
    requires
        0 <= x,
    ensures
        s.subrange(0, min(x, s.len() as int)) + s.subrange(min(x, s.len() as int), s.len() as int) == s,
{
    assert(s.subrange(0, min(x, s.len() as int)) + s.subrange(min(x, s.len() as int), s.len() as int) =~= s);
}

/// Typing a text character by character at increasing offsets into an
/// empty row gives that text.
pub proof fn lemma_typing(c: Seq<char>)
    ensures
        typed(c) == c,
    decreases c.len(),
{
    if c.len() > 0 {
        lemma_typing(c.drop_last());
        assert(c.drop_last().push(c.last()) =~= c);
    }
}

/// Highlighting is a function of the content: two rows with the same
/// content, highlighted under the same options and word, carry the same
/// tags, so highlighting a row again changes nothing.
pub proof fn lemma_highlight_idempotent(a: Row, b: Row, o: HighlightingOptions, w: Option<Seq<char>>)
    requires
        a@ == b@,
        a.highlighted(o, w),
        b.highlighted(o, w),
    ensures
        a.tags() == b.tags(),
{
}

/// One line of text and the highlight tags of its characters.
pub struct Row {
    string: Vec<char>,
    highlighting: Vec<Type>,
}

impl View for Row {
    type V = Seq<char>;

    closed spec fn view(&self) -> Seq<char> {
        self.string@
    }
}

impl Row {
    /// The highlight tags that the row holds.
    pub closed spec fn tags(&self) -> Seq<Type> {
        self.highlighting@
    }

    /// The tags are those of the current content under `o` and `word`.
    pub open spec fn highlighted(&self, o: HighlightingOptions, word: Option<Seq<char>>) -> bool {
        self.tags() == highlight_spec(self@, o, word)
    }

    /// An empty row.
    pub fn new() -> (r: Row)
        ensures
            r@ == Seq::<char>::empty(),
            r.tags() == Seq::<Type>::empty(),
    {
        Row { string: Vec::new(), highlighting: Vec::new() }
    }

    /// A row holding the characters of `s`, not yet highlighted.
    pub fn from(s: &str) -> (r: Row)
        ensures
            r@ == s@,
            r.tags() == Seq::<Type>::empty(),
    {
        Row { string: chars_of(s), highlighting: Vec::new() }
    }

    /// A row holding the given characters, not yet highlighted.
    pub fn from_chars(s: Vec<char>) -> (r: Row)
        ensures
            r@ == s@,
            r.tags() == Seq::<Type>::empty(),
    {
        Row { string: s, highlighting: Vec::new() }
    }

    pub fn len(&self) -> (r: usize)
        ensures
            r == self@.len(),
    {
        self.string.len()
    }

    pub fn is_empty(&self) -> (r: bool)
        ensures
            r == (self@.len() == 0),
    {
        self.string.len() == 0
    }

    /// The characters of the row.
    pub fn chars(&self) -> (r: &Vec<char>)
        ensures
            r@ == self@,
    {
        &self.string
    }

    /// The highlight tags of the row.
    pub fn highlighting(&self) -> (r: &Vec<Type>)
        ensures
            r@ == self.tags(),
    {
        &self.highlighting
    }

    /// The row's text as a string.
    pub fn to_text(&self) -> (r: String)
        ensures
            r@ == self@,
    {
        let mut out = String::new();
        let mut i: usize = 0;
        while i < self.string.len()
            invariant
                i <= self@.len(),
                out@ == self@.subrange(0, i as int),
            decreases self@.len() - i,
        {
            push_char(&mut out, self.string[i]);
            i += 1;
            assert(out@ =~= self@.subrange(0, i as int));
        }
        assert(out@ =~= self@);
        out
    }

    /// Inserts `c` before offset `at`; past the end it is appended.
    pub fn insert(&mut self, at: usize, c: char)
        ensures
            final(self)@ == row_insert(old(self)@, at as int, c),
            final(self).tags() == old(self).tags(),
    {
        if at < self.string.len() {
            self.string.insert(at, c);
        } else {
            self.string.push(c);
        }
    }

    /// Removes the character at offset `at`; past the end nothing changes.
    pub fn delete(&mut self, at: usize)
        ensures
            final(self)@ == (if at < old(self)@.len() {
                old(self)@.remove(at as int)
            } else {
                old(self)@
            }),
            final(self).tags() == old(self).tags(),
    {
        if at < self.string.len() {
            self.string.remove(at);
        }
    }

    /// Adds the content of `other` at the end.
    pub fn append(&mut self, other: Row)
        ensures
            final(self)@ == old(self)@ + other@,
            final(self).tags() == old(self).tags(),
    {
        let mut rest = other.string;
        self.string.append(&mut rest);
    }

    /// Keeps `[0, at)` and returns a row with the rest; an offset past the
    /// end splits at the end.
    pub fn split(&mut self, at: usize) -> (r: Row)
        ensures
            final(self)@ == old(self)@.subrange(0, min(at as int, old(self)@.len() as int)),
            r@ == old(self)@.subrange(min(at as int, old(self)@.len() as int), old(self)@.len() as int),
            final(self).tags() == old(self).tags(),
            r.tags() == Seq::<Type>::empty(),
    {
        let cut = if at < self.string.len() {
            at
        } else {
            self.string.len()
        };
        let rest = self.string.split_off(cut);
        Row { string: rest, highlighting: Vec::new() }
    }

    /// The display form of the columns `[start, end)`, clamped to the row.
    pub fn render(&self, start: usize, end: usize) -> (r: String)
        ensures
            r@ == render_spec(self@, start as int, end as int),
    {
        let e = if end < self.string.len() {
            end
        } else {
            self.string.len()
        };
        let b = if start < e {
            start
        } else {
            e
        };
        let mut out = String::new();
        let mut i: usize = b;
        while i < e
            invariant
                b <= i <= e,
                e <= self@.len(),
                out@ == self@.subrange(b as int, i as int).map_values(|c: char| display_char(c)),
            decreases e - i,
        {
            let c = self.string[i];
            let d = if c == '\t' {
                ' '
            } else {
                c
            };
            push_char(&mut out, d);
            i += 1;
            assert(out@ =~= self@.subrange(b as int, i as int).map_values(|c: char| display_char(c)));
        }
        out
    }

    /// Searches the row for `query` from offset `at` in `direction`.
    pub fn find(&self, query: &Vec<char>, at: usize, direction: SearchDirection) -> (r: Option<usize>)
        ensures
            r matches Option::Some(p) ==> row_find(self@, query@, at as int, direction) == Option::Some(p as int),
            r is None ==> row_find(self@, query@, at as int, direction) is None,
    {
        let n = self.string.len();
        let qn = query.len();
        let start = if at < n {
            at
        } else {
            n
        };
        if qn == 0 {
            assert(self@.subrange(start as int, start as int) =~= query@);
            if direction == SearchDirection::Backward {
                return Some(start);
            }
            if at > n {
                return None;
            }
            return Some(at);
        }
        if direction == SearchDirection::Forward && at > n {
            return None;
        }
        match direction {
            SearchDirection::Forward => {
                let mut p: usize = at;
                while p <= n && qn <= n - p
                    invariant
                        n == self@.len(),
                        qn == query@.len(),
                        qn > 0,
                        at <= p,
                        at <= n,
                        direction == SearchDirection::Forward,
                        find_forward(self@, query@, at as int) == find_forward(self@, query@, p as int),
                    decreases n + 1 - p,
                {
                    if matches_at(&self.string, p, query) {
                        assert(find_forward(self@, query@, p as int) == Option::Some(p as int));
                        return Some(p);
                    }
                    p += 1;
                }
                None
            },
            SearchDirection::Backward => {
                let mut p: usize = start;
                loop
                    invariant
                        n == self@.len(),
                        qn == query@.len(),
                        qn > 0,
                        direction == SearchDirection::Backward,
                        p <= start,
                        start <= n,
                        start as int == min(at as int, n as int),
                        find_backward(self@, query@, start as int) == find_backward(self@, query@, p as int),
                    decreases p,
                {
                    if matches_at(&self.string, p, query) {
                        return Some(p);
                    }
                    if p == 0 {
                        assert(find_backward(self@, query@, -1) is None);
                        return None;
                    }
                    p -= 1;
                }
            },
        }
    }

    /// Recomputes the tags from the content under `o` and `word`.
    pub fn highlight(&mut self, o: &HighlightingOptions, word: Option<&Vec<char>>)
        ensures
            final(self)@ == old(self)@,
            final(self).highlighted(*o, opt_view(word)),
    {
        self.highlighting = highlight_row(&self.string, o, word);
    }
}

} // verus!
