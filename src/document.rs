use vstd::prelude::*;
use crate::editor::{Position, SearchDirection};
use crate::filetype::{is_rust_file, FileType};
use crate::highlighting::{opt_view, HighlightingOptions};
use crate::row::{chars_of, find_forward, min, push_char, row_find, Row};
use crate::highlighting::occurs_at;

verus! {

/// The contents of a sequence of rows.
pub open spec fn contents(rows: Seq<Row>) -> Seq<Seq<char>> {
    rows.map_values(|r: Row| r@)
}

/// The rows after typing `c` at column `x` of row `y`.
pub open spec fn insert_rows(rows: Seq<Seq<char>>, x: int, y: int, c: char) -> Seq<Seq<char>> {
    if y > rows.len() {
        rows
    } else if c == '\n' {
        newline_rows(rows, x, y)
    } else if y == rows.len() {
        rows.push(seq![c])
    } else if x < rows[y].len() {
        rows.update(y, rows[y].insert(x, c))
    } else {
        rows.update(y, rows[y].push(c))
    }
}

/// The rows after breaking row `y` at column `x` (at its end when `x` is
/// past it); at `y == rows.len()` an empty row is added.
pub open spec fn newline_rows(rows: Seq<Seq<char>>, x: int, y: int) -> Seq<Seq<char>> {
    if y > rows.len() {
        rows
    } else if y == rows.len() {
        rows.push(Seq::empty())
    } else {
        let cut = min(x, rows[y].len() as int);
        rows.update(y, rows[y].subrange(0, cut)).insert(y + 1, rows[y].subrange(cut, rows[y].len() as int))
    }
}

/// The rows after deleting at column `x` of row `y`: at the end of a row
/// that has a successor the two are joined.
pub open spec fn delete_rows(rows: Seq<Seq<char>>, x: int, y: int) -> Seq<Seq<char>> {
    if y < 0 || y >= rows.len() {
        rows
    } else if x == rows[y].len() && y + 1 < rows.len() {
        rows.update(y, rows[y] + rows[y + 1]).remove(y + 1)
    } else if 0 <= x < rows[y].len() {
        rows.update(y, rows[y].remove(x))
    } else {
        rows
    }
}

/// A forward search from column `x` of row `y` to the last row.
pub open spec fn find_down(rows: Seq<Seq<char>>, q: Seq<char>, x: int, y: int) -> Option<(int, int)>
    decreases rows.len() - y,
{
    if y < 0 || y >= rows.len() {
        Option::None
    } else {
        match row_find(rows[y], q, x, SearchDirection::Forward) {
            Option::Some(p) => Option::Some((p, y)),
            Option::None => find_down(rows, q, 0, y + 1),
        }
    }
}

/// A backward search from column `x` of row `y` to the first row.
pub open spec fn find_up(rows: Seq<Seq<char>>, q: Seq<char>, x: int, y: int) -> Option<(int, int)>
    decreases y,
{
    if y < 0 || y >= rows.len() {
        Option::None
    } else {
        match row_find(rows[y], q, x, SearchDirection::Backward) {
            Option::Some(p) => Option::Some((p, y)),
            Option::None => if y == 0 {
                Option::None
            } else {
                find_up(rows, q, rows[y - 1].len() as int, y - 1)
            },
        }
    }
}

/// A search of the document from column `x` of row `y`.
pub open spec fn doc_find(rows: Seq<Seq<char>>, q: Seq<char>, x: int, y: int, dir: SearchDirection) -> Option<(int, int)> {
    match dir {
        SearchDirection::Forward => find_down(rows, q, x, y),
        SearchDirection::Backward => find_up(rows, q, x, y),
    }
}

/// The stored form of the rows: each row followed by a line feed.
pub open spec fn text_of(rows: Seq<Seq<char>>) -> Seq<char>
    decreases rows.len(),
{
    if rows.len() == 0 {
        Seq::empty()
    } else {
        text_of(rows.drop_last()) + rows.last() + seq!['\n']
    }
}

/// The pieces of `s` between line feeds, one more than it has line feeds.
pub open spec fn pieces(s: Seq<char>) -> Seq<Seq<char>>
    decreases s.len(),
{
    if s.len() == 0 {
        seq![Seq::empty()]
    } else {
        let p = pieces(s.drop_last());
        if s.last() == '\n' {
            p.push(Seq::empty())
        } else {
            p.update(p.len() - 1, p.last().push(s.last()))
        }
    }
}

/// A line without the carriage return that ended it.
pub open spec fn strip_cr(l: Seq<char>) -> Seq<char> {
    if l.len() > 0 && l.last() == '\r' {
        l.drop_last()
    } else {
        l
    }
}

/// The lines of a text: split at line feeds, a carriage return before a
/// line feed dropped, and no line after a final line feed.
pub open spec fn lines_of(s: Seq<char>) -> Seq<Seq<char>> {
    let p = pieces(s);
    let n = if p.last().len() == 0 {
        p.len() - 1
    } else {
        p.len() as int
    };
    Seq::new(n as nat, |i: int| if i < p.len() - 1 {
        strip_cr(p[i])
    } else {
        p[i]
    })
}

/// Joining a row with the next by a delete at its end, then breaking it
/// at the same place, gives back the rows.
pub proof fn lemma_merge_split(rows: Seq<Seq<char>>, y: int)
    requires
        0 <= y,
        y + 1 < rows.len(),
    ensures
        newline_rows(delete_rows(rows, rows[y].len() as int, y), rows[y].len() as int, y) == rows,
{
    let d = delete_rows(rows, rows[y].len() as int, y);
    assert(d[y] == rows[y] + rows[y + 1]);
    assert(d[y].subrange(0, rows[y].len() as int) =~= rows[y]);
    assert(d[y].subrange(rows[y].len() as int, d[y].len() as int) =~= rows[y + 1]);
    assert(newline_rows(d, rows[y].len() as int, y) =~= rows);
}

/// The rows after typing the characters of `c` one by one into row `y`,
/// the first at column `k` and each next one just after the previous.
pub open spec fn typed_rows(rows: Seq<Seq<char>>, k: int, y: int, c: Seq<char>) -> Seq<Seq<char>>
    decreases c.len(),
{
    if c.len() == 0 {
        rows
    } else {
        insert_rows(typed_rows(rows, k, y, c.drop_last()), k + c.len() - 1, y, c.last())
    }
}

/// Typing a text without line feeds character by character at increasing
/// columns, from column `k` of row `y` (or into a new row at the end),
/// puts the text at `k` and leaves the other rows as they were.
pub proof fn lemma_typing_rows(rows: Seq<Seq<char>>, k: int, y: int, c: Seq<char>)
    requires
        c.len() >= 1,
        !c.contains('\n'),
        0 <= y <= rows.len(),
        y < rows.len() ==> 0 <= k <= rows[y].len(),
        y == rows.len() ==> k == 0,
    ensures
        typed_rows(rows, k, y, c).len() == (if y < rows.len() { rows.len() } else { rows.len() + 1 }),
        typed_rows(rows, k, y, c)[y] == (if y < rows.len() {
            rows[y].subrange(0, k) + c + rows[y].subrange(k, rows[y].len() as int)
        } else {
            c
        }),
        forall|i: int| 0 <= i < rows.len() && i != y ==> #[trigger] typed_rows(rows, k, y, c)[i] == rows[i],
    decreases c.len(),
{
    let n = c.len() as int;
    let cl = c.last();
    assert(c[n - 1] == cl);
    let cp = c.drop_last();
    if n == 1 {
        assert(typed_rows(rows, k, y, cp) == rows);
        if y < rows.len() {
            if k < rows[y].len() {
                assert(rows[y].insert(k, cl) =~= rows[y].subrange(0, k) + c + rows[y].subrange(k, rows[y].len() as int));
            } else {
                assert(rows[y].push(cl) =~= rows[y].subrange(0, k) + c + rows[y].subrange(k, rows[y].len() as int));
            }
        } else {
            assert(seq![cl] =~= c);
        }
    } else {
        assert forall|m: int| 0 <= m < cp.len() implies cp[m] != '\n' by {
            assert(c[m] == cp[m]);
        }
        lemma_typing_rows(rows, k, y, cp);
        let prev = typed_rows(rows, k, y, cp);
        if y < rows.len() {
            let r = rows[y];
            let x = k + n - 1;
            if x < prev[y].len() {
                assert(prev[y].insert(x, cl) =~= r.subrange(0, k) + c + r.subrange(k, r.len() as int));
            } else {
                assert(prev[y].push(cl) =~= r.subrange(0, k) + c + r.subrange(k, r.len() as int));
            }
        } else {
            assert(prev[y].push(cl) =~= c);
        }
    }
}

/// Highlighting a document again under the same profile and word leaves
/// every row's tags as they were.
pub proof fn lemma_document_highlight_idempotent(a: Document, b: Document, w: Option<Seq<char>>)
    requires
        a.text() == b.text(),
        a.opts() == b.opts(),
        a.all_highlighted(w),
        b.all_highlighted(w),
    ensures
        a.rows().len() == b.rows().len(),
        forall|i: int| 0 <= i < a.rows().len() ==> #[trigger] a.rows()[i].tags() == b.rows()[i].tags(),
{
    assert(a.rows().len() == a.text().len());
    assert forall|i: int| 0 <= i < a.rows().len() implies #[trigger] a.rows()[i].tags() == b.rows()[i].tags() by {
        assert(a.text()[i] == a.rows()[i]@);
        assert(b.text()[i] == b.rows()[i]@);
        assert(a.rows()[i].highlighted(a.opts(), w));
        assert(b.rows()[i].highlighted(b.opts(), w));
    }
}

proof fn lemma_find_forward(s: Seq<char>, q: Seq<char>, p: int)
    requires
        q.len() > 0,
        0 <= p,
    ensures
        find_forward(s, q, p) matches Option::Some(k) ==> p <= k && occurs_at(s, q, k)
            && forall|m: int| p <= m < k ==> !#[trigger] occurs_at(s, q, m),
        find_forward(s, q, p) is None ==> forall|m: int| p <= m ==> !#[trigger] occurs_at(s, q, m),
    decreases s.len() - p,
{
    if p < s.len() && p + q.len() <= s.len() && !occurs_at(s, q, p) {
        lemma_find_forward(s, q, p + 1);
    }
}

proof fn lemma_find_down_skip(rows: Seq<Seq<char>>, q: Seq<char>, y: int)
    requires
        q.len() > 0,
        0 <= y < rows.len(),
        forall|i: int, m: int| 0 <= i < rows.len() - 1 ==> !#[trigger] occurs_at(rows[i], q, m),
    ensures
        find_down(rows, q, 0, y) == find_down(rows, q, 0, rows.len() - 1),
    decreases rows.len() - y,
{
    if y < rows.len() - 1 {
        lemma_find_forward(rows[y], q, 0);
        lemma_find_down_skip(rows, q, y + 1);
    }
}

/// A forward search from the top for a query that occurs only on the last
/// row finds its first occurrence there.
pub proof fn lemma_find_last_row(rows: Seq<Seq<char>>, q: Seq<char>)
    requires
        rows.len() > 0,
        q.len() > 0,
        forall|i: int, m: int| 0 <= i < rows.len() - 1 ==> !#[trigger] occurs_at(rows[i], q, m),
        exists|m: int| #[trigger] occurs_at(rows[rows.len() - 1], q, m),
    ensures
        doc_find(rows, q, 0, 0, SearchDirection::Forward) matches Option::Some((x, y)) && y == rows.len() - 1
            && occurs_at(rows[y], q, x) && forall|m: int| 0 <= m < x ==> !#[trigger] occurs_at(rows[y], q, m),
{
    let last = rows.len() - 1;
    lemma_find_down_skip(rows, q, 0);
    lemma_find_forward(rows[last], q, 0);
    let m = choose|m: int| #[trigger] occurs_at(rows[last], q, m);
    assert(0 <= m);
}

/// A backward search that finds nothing on its row goes on from the end of
/// the row above.
pub proof fn lemma_backward_wraps(rows: Seq<Seq<char>>, q: Seq<char>, y: int)
    requires
        0 < y < rows.len(),
        row_find(rows[y], q, 0, SearchDirection::Backward) is None,
    ensures
        doc_find(rows, q, 0, y, SearchDirection::Backward) == doc_find(rows, q, rows[y - 1].len() as int, y - 1, SearchDirection::Backward),
{
}

proof fn lemma_pieces_len(s: Seq<char>)
    ensures
        pieces(s).len() >= 1,
    decreases s.len(),
{
    if s.len() > 0 {
        lemma_pieces_len(s.drop_last());
    }
}

/// A text split into rows, with its file's name, language and state.
pub struct Document {
    rows: Vec<Row>,
    file_name: Option<String>,
    dirty: bool,
    file_type: FileType,
}

impl Default for Document {
    fn default() -> (r: Document)
        ensures
            r.rows().len() == 0,
            r.name() is None,
            !r.dirty(),
            r.kind().is_plain(),
    {
        Document { rows: Vec::new(), file_name: None, dirty: false, file_type: FileType::plain() }
    }
}

impl Document {
    pub closed spec fn rows(&self) -> Seq<Row> {
        self.rows@
    }

    /// The contents of the rows.
    pub open spec fn text(&self) -> Seq<Seq<char>> {
        contents(self.rows())
    }

    /// The name of the file that the document is stored in, if any.
    pub closed spec fn name(&self) -> Option<String> {
        self.file_name
    }

    pub closed spec fn dirty(&self) -> bool {
        self.dirty
    }

    /// The language profile in force.
    pub closed spec fn kind(&self) -> FileType {
        self.file_type
    }

    pub open spec fn opts(&self) -> HighlightingOptions {
        self.kind().options()
    }

    /// Row `i` carries the tags of its content with no search word.
    pub open spec fn fresh(&self, i: int) -> bool {
        self.rows()[i].highlighted(self.opts(), Option::None)
    }

    /// Every row carries the tags of its content under `word`.
    pub open spec fn all_highlighted(&self, word: Option<Seq<char>>) -> bool {
        forall|i: int| 0 <= i < self.rows().len() ==> #[trigger] self.rows()[i].highlighted(self.opts(), word)
    }

    /// Re-highlights every row under the current language and `word`.
    fn highlight_all(&mut self, word: Option<&Vec<char>>)
        ensures
            final(self).text() == old(self).text(),
            final(self).rows().len() == old(self).rows().len(),
            final(self).name() == old(self).name(),
            final(self).dirty() == old(self).dirty(),
            final(self).kind() == old(self).kind(),
            final(self).all_highlighted(opt_view(word)),
    {
        let n = self.rows.len();
        let mut i: usize = 0;
        while i < n
            invariant
                i <= n,
                n == self.rows@.len(),
                self.text() == old(self).text(),
                self.file_name == old(self).file_name,
                self.dirty == old(self).dirty,
                self.file_type == old(self).file_type,
                forall|j: int| 0 <= j < i ==> #[trigger] self.rows@[j].highlighted(self.opts(), opt_view(word)),
            decreases n - i,
        {
            let ghost prev = self.rows@;
            let ghost o = self.opts();
            assert(forall|j: int| 0 <= j < i ==> #[trigger] prev[j].highlighted(o, opt_view(word)));
            let row = &mut self.rows[i];
            row.highlight(self.file_type.highlight_options(), word);
            assert forall|j: int| 0 <= j < i + 1 implies #[trigger] self.rows@[j].highlighted(self.opts(), opt_view(word)) by {
                if j < i {
                    assert(self.rows@[j] == prev[j]);
                    assert(prev[j].highlighted(o, opt_view(word)));
                    assert(o == self.opts());
                }
            }
            i += 1;
            assert(self.text() =~= old(self).text());
        }
    }

    /// A document of the given text, named `file_name`, highlighted under
    /// the language that the name selects, and not modified.
    pub fn from_text(file_name: &str, content: &str) -> (r: Document)
        ensures
            r.text() == lines_of(content@),
            r.name() matches Option::Some(n) && n@ == file_name@,
            !r.dirty(),
            is_rust_file(file_name@) ==> r.kind().is_rust(),
            !is_rust_file(file_name@) ==> r.kind().is_plain(),
            r.all_highlighted(Option::None),
    {
        let s = chars_of(content);
        let mut rows: Vec<Row> = Vec::new();
        let mut cur: Vec<char> = Vec::new();
        let mut i: usize = 0;
        proof {
            lemma_pieces_len(s@.subrange(0, 0));
            assert(s@.subrange(0, 0) =~= Seq::<char>::empty());
        }
        while i < s.len()
            invariant
                i <= s@.len(),
                pieces(s@.subrange(0, i as int)).len() == rows@.len() + 1,
                cur@ == pieces(s@.subrange(0, i as int)).last(),
                forall|j: int| 0 <= j < rows@.len() ==> #[trigger] rows@[j]@ == strip_cr(pieces(s@.subrange(0, i as int))[j]),
            decreases s@.len() - i,
        {
            let c = s[i];
            let ghost pre = s@.subrange(0, i as int);
            assert(s@.subrange(0, i + 1).drop_last() =~= pre);
            if c == '\n' {
                let n = cur.len();
                if n > 0 && cur[n - 1] == '\r' {
                    cur.pop();
                }
                rows.push(Row::from_chars(cur));
                cur = Vec::new();
            } else {
                cur.push(c);
            }
            i += 1;
            assert(cur@ =~= pieces(s@.subrange(0, i as int)).last());
        }
        assert(s@.subrange(0, i as int) =~= content@);
        if cur.len() > 0 {
            rows.push(Row::from_chars(cur));
        }
        let mut doc = Document {
            rows,
            file_name: Some(String::from_str(file_name)),
            dirty: false,
            file_type: FileType::from(file_name),
        };
        assert(doc.text() =~= lines_of(content@));
        doc.highlight_all(None);
        doc
    }

    /// The row at `index`, if there is one.
    pub fn row(&self, index: usize) -> (r: Option<&Row>)
        ensures
            index < self.rows().len() ==> r == Option::Some(&self.rows()[index as int]),
            index >= self.rows().len() ==> r is None,
    {
        if index < self.rows.len() {
            Some(&self.rows[index])
        } else {
            None
        }
    }

    pub fn is_empty(&self) -> (r: bool)
        ensures
            r == (self.rows().len() == 0),
    {
        self.rows.len() == 0
    }

    pub fn len(&self) -> (r: usize)
        ensures
            r == self.rows().len(),
    {
        self.rows.len()
    }

    /// The name of the file that the document is stored in, if any.
    pub fn file_name(&self) -> (r: &Option<String>)
        ensures
            *r == self.name(),
    {
        &self.file_name
    }

    /// Names the file that the document is stored in; the language is
    /// chosen anew when the document is saved.
    pub fn set_file_name(&mut self, name: Option<String>)
        ensures
            final(self).name() == name,
            final(self).rows() == old(self).rows(),
            final(self).dirty() == old(self).dirty(),
            final(self).kind() == old(self).kind(),
    {
        self.file_name = name;
    }

    pub fn is_dirty(&self) -> (r: bool)
        ensures
            r == self.dirty(),
    {
        self.dirty
    }

    /// The name of the language in force.
    pub fn file_type(&self) -> (r: String)
        ensures
            r@ == self.kind().name_view(),
    {
        self.file_type.name()
    }

    /// Breaks row `at.y` at column `at.x`, or adds an empty row when
    /// `at.y` is the row count; a row index past that changes nothing. Any
    /// change marks the document modified.
    pub fn insert_newline(&mut self, at: &Position)
        ensures
            final(self).text() == newline_rows(old(self).text(), at.x as int, at.y as int),
            final(self).name() == old(self).name(),
            final(self).dirty() == (old(self).dirty() || at.y <= old(self).rows().len()),
            final(self).kind() == old(self).kind(),
            at.y > old(self).rows().len() ==> final(self).rows() == old(self).rows(),
            at.y <= old(self).rows().len() ==> final(self).fresh(at.y as int),
            at.y < old(self).rows().len() ==> final(self).fresh(at.y + 1),
            forall|i: int| 0 <= i < at.y && i < old(self).rows().len() ==> #[trigger] final(self).rows()[i] == old(self).rows()[i],
            forall|i: int| at.y < i < old(self).rows().len() ==> #[trigger] final(self).rows()[i + 1] == old(self).rows()[i],
    {
        let n = self.rows.len();
        if at.y > n {
            return;
        }
        self.dirty = true;
        let ghost o = self.opts();
        if at.y == n {
            let mut row = Row::new();
            row.highlight(self.file_type.highlight_options(), None);
            self.rows.push(row);
            assert(self.text() =~= newline_rows(old(self).text(), at.x as int, at.y as int));
            return;
        }
        let ghost prev = self.rows@;
        let row = &mut self.rows[at.y];
        let mut new_row = row.split(at.x);
        new_row.highlight(self.file_type.highlight_options(), None);
        row.highlight(self.file_type.highlight_options(), None);
        assert(self.rows@ == prev.update(at.y as int, self.rows@[at.y as int]));
        self.rows.insert(at.y + 1, new_row);
        assert(o == self.opts());
        assert(self.text() =~= newline_rows(old(self).text(), at.x as int, at.y as int));
    }

    /// Types `c` at `at`: a line feed breaks the row, a row index equal to
    /// the row count adds a row, a larger one changes nothing. Any change
    /// marks the document modified.
    pub fn insert(&mut self, at: &Position, c: char)
        ensures
            final(self).text() == insert_rows(old(self).text(), at.x as int, at.y as int, c),
            final(self).dirty() == (old(self).dirty() || at.y <= old(self).rows().len()),
            final(self).name() == old(self).name(),
            final(self).kind() == old(self).kind(),
            at.y > old(self).rows().len() ==> final(self).rows() == old(self).rows(),
            at.y <= old(self).rows().len() ==> final(self).fresh(at.y as int),
            c == '\n' && at.y < old(self).rows().len() ==> final(self).fresh(at.y + 1),
            forall|i: int| 0 <= i < at.y && i < old(self).rows().len() ==> #[trigger] final(self).rows()[i] == old(self).rows()[i],
            c != '\n' ==> forall|i: int| at.y < i < old(self).rows().len() ==> #[trigger] final(self).rows()[i] == old(self).rows()[i],
            c == '\n' ==> forall|i: int| at.y < i < old(self).rows().len() ==> #[trigger] final(self).rows()[i + 1] == old(self).rows()[i],
    {
        let n = self.rows.len();
        if at.y > n {
            return;
        }
        self.dirty = true;
        if c == '\n' {
            self.insert_newline(at);
            return;
        }
        let ghost o = self.opts();
        if at.y == n {
            let mut row = Row::new();
            row.insert(0, c);
            row.highlight(self.file_type.highlight_options(), None);
            self.rows.push(row);
            assert(row@ =~= seq![c]);
            assert(self.text() =~= insert_rows(old(self).text(), at.x as int, at.y as int, c));
        } else {
            let ghost prev = self.rows@;
            let row = &mut self.rows[at.y];
            row.insert(at.x, c);
            row.highlight(self.file_type.highlight_options(), None);
            assert(self.rows@ == prev.update(at.y as int, self.rows@[at.y as int]));
            assert(o == self.opts());
            assert(self.text() =~= insert_rows(old(self).text(), at.x as int, at.y as int, c));
        }
    }

    /// Deletes at `at`: at the end of a row that has a successor the two
    /// rows are joined, else the character at `at.x` goes. A row index past
    /// the last, or a column past the row's end, changes nothing; a change
    /// marks the document modified.
    pub fn delete(&mut self, at: &Position)
        ensures
            final(self).text() == delete_rows(old(self).text(), at.x as int, at.y as int),
            final(self).dirty() == (old(self).dirty() || final(self).text() != old(self).text()),
            final(self).name() == old(self).name(),
            final(self).kind() == old(self).kind(),
            at.y >= old(self).rows().len() ==> final(self).rows() == old(self).rows(),
            at.y < old(self).rows().len() ==> final(self).fresh(at.y as int),
            forall|i: int| 0 <= i < at.y && i < old(self).rows().len() ==> #[trigger] final(self).rows()[i] == old(self).rows()[i],
            at.y < old(self).rows().len() && at.x == old(self).rows()[at.y as int]@.len() && at.y + 1 < old(self).rows().len()
                ==> forall|i: int| at.y < i < final(self).rows().len() ==> #[trigger] final(self).rows()[i] == old(self).rows()[i + 1],
            !(at.y < old(self).rows().len() && at.x == old(self).rows()[at.y as int]@.len() && at.y + 1 < old(self).rows().len())
                ==> forall|i: int| at.y < i < old(self).rows().len() ==> #[trigger] final(self).rows()[i] == old(self).rows()[i],
    {
        let n = self.rows.len();
        if at.y >= n {
            return;
        }
        let ghost o = self.opts();
        let len = self.rows[at.y].len();
        if at.x == len && at.y + 1 < n {
            self.dirty = true;
            let next_row = self.rows.remove(at.y + 1);
            let ghost prev = self.rows@;
            let row = &mut self.rows[at.y];
            row.append(next_row);
            row.highlight(self.file_type.highlight_options(), None);
            assert(self.rows@ == prev.update(at.y as int, self.rows@[at.y as int]));
            assert(o == self.opts());
            assert(self.text() =~= delete_rows(old(self).text(), at.x as int, at.y as int));
            assert(self.text().len() != old(self).text().len());
        } else {
            if at.x < len {
                self.dirty = true;
            }
            let ghost prev = self.rows@;
            let row = &mut self.rows[at.y];
            row.delete(at.x);
            row.highlight(self.file_type.highlight_options(), None);
            assert(self.rows@ == prev.update(at.y as int, self.rows@[at.y as int]));
            assert(o == self.opts());
            assert(self.text() =~= delete_rows(old(self).text(), at.x as int, at.y as int));
            if at.x < len {
                assert(self.text()[at.y as int].len() != old(self).text()[at.y as int].len());
            }
        }
    }

    /// Searches for `query` from `at` in `direction`, across rows.
    pub fn find(&self, query: &str, at: &Position, direction: SearchDirection) -> (r: Option<Position>)
        ensures
            r matches Option::Some(p) ==> doc_find(self.text(), query@, at.x as int, at.y as int, direction) == Option::Some((p.x as int, p.y as int)),
            r is None ==> doc_find(self.text(), query@, at.x as int, at.y as int, direction) is None,
    {
        let q = chars_of(query);
        let n = self.rows.len();
        if at.y >= n {
            return None;
        }
        let ghost t = self.text();
        let mut x = at.x;
        let mut y = at.y;
        match direction {
            SearchDirection::Forward => {
                while y < n
                    invariant
                        n == self.rows@.len(),
                        t == self.text(),
                        q@ == query@,
                        direction == SearchDirection::Forward,
                        find_down(t, q@, at.x as int, at.y as int) == find_down(t, q@, x as int, y as int),
                    decreases n - y,
                {
                    assert(t[y as int] == self.rows@[y as int]@);
                    if let Some(p) = self.rows[y].find(&q, x, SearchDirection::Forward) {
                        return Some(Position { x: p, y });
                    }
                    y += 1;
                    x = 0;
                }
                None
            },
            SearchDirection::Backward => {
                loop
                    invariant
                        n == self.rows@.len(),
                        y < n,
                        t == self.text(),
                        q@ == query@,
                        direction == SearchDirection::Backward,
                        find_up(t, q@, at.x as int, at.y as int) == find_up(t, q@, x as int, y as int),
                    decreases y,
                {
                    assert(t[y as int] == self.rows@[y as int]@);
                    if let Some(p) = self.rows[y].find(&q, x, SearchDirection::Backward) {
                        return Some(Position { x: p, y });
                    }
                    if y == 0 {
                        return None;
                    }
                    y -= 1;
                    x = self.rows[y].len();
                    assert(t[y as int] == self.rows@[y as int]@);
                }
            },
        }
    }

    /// Re-highlights every row under the language in force, marking the
    /// occurrences of `word` when one is given.
    pub fn highlight(&mut self, word: Option<&str>)
        ensures
            final(self).text() == old(self).text(),
            final(self).name() == old(self).name(),
            final(self).dirty() == old(self).dirty(),
            final(self).kind() == old(self).kind(),
            final(self).all_highlighted(match word {
                Option::Some(w) => Option::Some(w@),
                Option::None => Option::None,
            }),
    {
        match word {
            Some(w) => {
                let v = chars_of(w);
                self.highlight_all(Some(&v));
            },
            None => {
                self.highlight_all(None);
            },
        }
    }

    /// The text to store when the document has a file name: every row
    /// followed by a line feed. Without a name there is nothing to store.
    pub fn pending_save(&self) -> (r: Option<String>)
        ensures
            self.name() is None ==> r is None,
            self.name() is Some ==> (r matches Option::Some(s) && s@ == text_of(self.text())),
    {
        if self.file_name.is_none() {
            return None;
        }
        let mut out = String::new();
        let n = self.rows.len();
        let mut i: usize = 0;
        while i < n
            invariant
                i <= n,
                n == self.rows@.len(),
                out@ == text_of(self.text().subrange(0, i as int)),
            decreases n - i,
        {
            let row = self.rows[i].chars();
            let ghost before = out@;
            let mut j: usize = 0;
            while j < row.len()
                invariant
                    j <= row@.len(),
                    out@ == before + row@.subrange(0, j as int),
                decreases row@.len() - j,
            {
                push_char(&mut out, row[j]);
                j += 1;
                assert(out@ =~= before + row@.subrange(0, j as int));
            }
            push_char(&mut out, '\n');
            assert(self.text().subrange(0, i + 1).drop_last() =~= self.text().subrange(0, i as int));
            assert(row@.subrange(0, j as int) =~= row@);
            i += 1;
        }
        assert(self.text().subrange(0, n as int) =~= self.text());
        Some(out)
    }

    /// Records a completed store: with a file name, the language is chosen
    /// anew from it, every row is re-highlighted and the document is no
    /// longer modified. Without a name nothing changes.
    pub fn mark_saved(&mut self)
        ensures
            final(self).text() == old(self).text(),
            final(self).name() == old(self).name(),
            old(self).name() is None ==> final(self).dirty() == old(self).dirty() && final(self).kind() == old(self).kind()
                && final(self).rows() == old(self).rows(),
            old(self).name() is Some ==> !final(self).dirty() && final(self).all_highlighted(Option::None),
            old(self).name() is Some && is_rust_file(old(self).name()->0@) ==> final(self).kind().is_rust(),
            old(self).name() is Some && !is_rust_file(old(self).name()->0@) ==> final(self).kind().is_plain(),
    {
        let ft = match &self.file_name {
            Some(name) => FileType::from(name.as_str()),
            None => {
                return;
            },
        };
        self.file_type = ft;
        self.dirty = false;
        self.highlight_all(None);
    }
}

} // verus!
