use vstd::prelude::*;

verus! {

/// The classification of one character of a row, which decides its color.
#[derive(PartialEq, Eq, Structural, Clone, Copy, Debug)]
pub enum Type {
    Normal,
    Number,
    Match,
    String,
    Character,
    PrimaryKeywords,
    SecondaryKeywords,
}

impl Type {
    /// The display color of a tag, as red, green and blue components.
    pub fn rgb(self) -> (r: (u8, u8, u8))
        ensures
            r == type_rgb(self),
    {
        match self {
            Type::Number => (220, 163, 163),
            Type::Match => (38, 210, 139),
            Type::String => (211, 54, 130),
            Type::Character => (108, 113, 196),
            Type::PrimaryKeywords => (181, 137, 0),
            Type::SecondaryKeywords => (42, 161, 152),
            Type::Normal => (255, 255, 255),
        }
    }
}

pub open spec fn type_rgb(t: Type) -> (u8, u8, u8) {
    match t {
        Type::Number => (220, 163, 163),
        Type::Match => (38, 210, 139),
        Type::String => (211, 54, 130),
        Type::Character => (108, 113, 196),
        Type::PrimaryKeywords => (181, 137, 0),
        Type::SecondaryKeywords => (42, 161, 152),
        Type::Normal => (255, 255, 255),
    }
}

/// Which categories a language enables, and its keyword lists.
pub struct HighlightingOptions {
    pub numbers: bool,
    pub strings: bool,
    pub characters: bool,
    pub primary_keywords: Vec<Vec<char>>,
    pub secondary_keywords: Vec<Vec<char>>,
}

impl HighlightingOptions {
    /// Options with every category disabled.
    pub fn none() -> (r: HighlightingOptions)
        ensures
            !r.numbers,
            !r.strings,
            !r.characters,
            r.primary_keywords@.len() == 0,
            r.secondary_keywords@.len() == 0,
    {
        HighlightingOptions {
            numbers: false,
            strings: false,
            characters: false,
            primary_keywords: Vec::new(),
            secondary_keywords: Vec::new(),
        }
    }
}

/// The keyword lists as sequences of characters.
pub open spec fn words_view(ks: Vec<Vec<char>>) -> Seq<Seq<char>> {
    ks@.map_values(|k: Vec<char>| k@)
}

/// Word characters are ASCII letters, ASCII digits and `_`; every other
/// character is a boundary.
pub open spec fn is_word(c: char) -> bool {
    ('a' <= c && c <= 'z') || ('A' <= c && c <= 'Z') || ('0' <= c && c <= '9') || c == '_'
}

pub open spec fn is_digit(c: char) -> bool {
    '0' <= c && c <= '9'
}

/// Position `i` starts a word: it is the row start or follows a boundary.
pub open spec fn at_boundary(s: Seq<char>, i: int) -> bool {
    i == 0 || !is_word(s[i - 1])
}

/// Keyword `k` stands at `i` as a whole word.
pub open spec fn word_at(s: Seq<char>, i: int, k: Seq<char>) -> bool {
    &&& k.len() > 0
    &&& i + k.len() <= s.len()
    &&& s.subrange(i, i + k.len() as int) == k
    &&& (i + k.len() == s.len() || !is_word(s[i + k.len()]))
}

/// The length of the first keyword of `ks[j..]` that stands at `i`.
pub open spec fn keyword_len(s: Seq<char>, i: int, ks: Seq<Seq<char>>, j: int) -> Option<nat>
    decreases ks.len() - j,
{
    if j < 0 || j >= ks.len() {
        Option::None
    } else if word_at(s, i, ks[j]) {
        Option::Some(ks[j].len())
    } else {
        keyword_len(s, i, ks, j + 1)
    }
}

/// The index just past the closing quote of a string whose content starts
/// at `j`, or the row's end when the string is not closed.
pub open spec fn string_end(s: Seq<char>, j: int) -> int
    decreases s.len() - j,
{
    if j >= s.len() {
        s.len() as int
    } else if s[j] == '"' {
        j + 1
    } else {
        string_end(s, j + 1)
    }
}

/// The end of the run of digits and dots that starts at `j`.
pub open spec fn number_end(s: Seq<char>, j: int) -> int
    decreases s.len() - j,
{
    if j >= s.len() {
        s.len() as int
    } else if is_digit(s[j]) || s[j] == '.' {
        number_end(s, j + 1)
    } else {
        j
    }
}

/// The index of the closing quote of a character literal opened at `i`.
pub open spec fn char_close(s: Seq<char>, i: int) -> int {
    if s[i + 1] == '\\' {
        i + 3
    } else {
        i + 2
    }
}

pub open spec fn char_token(s: Seq<char>, i: int) -> bool {
    &&& s[i] == '\''
    &&& i + 1 < s.len()
    &&& char_close(s, i) < s.len()
    &&& s[char_close(s, i)] == '\''
}

/// The category and length of the token that starts at `i` (`0 <= i < len`).
pub open spec fn token_at(s: Seq<char>, i: int, o: HighlightingOptions) -> (Type, int) {
    if o.characters && char_token(s, i) {
        (Type::Character, char_close(s, i) - i + 1)
    } else if at_boundary(s, i) && keyword_len(s, i, words_view(o.primary_keywords), 0) is Some {
        (Type::PrimaryKeywords, keyword_len(s, i, words_view(o.primary_keywords), 0)->0 as int)
    } else if at_boundary(s, i) && keyword_len(s, i, words_view(o.secondary_keywords), 0) is Some {
        (Type::SecondaryKeywords, keyword_len(s, i, words_view(o.secondary_keywords), 0)->0 as int)
    } else if o.strings && s[i] == '"' {
        (Type::String, string_end(s, i + 1) - i)
    } else if o.numbers && is_digit(s[i]) && at_boundary(s, i) {
        (Type::Number, number_end(s, i + 1) - i)
    } else {
        (Type::Normal, 1)
    }
}

/// The category tags of `s[i..]`, token by token.
pub open spec fn tags_from(s: Seq<char>, i: int, o: HighlightingOptions) -> Seq<Type>
    decreases s.len() - i,
{
    if i < 0 || i >= s.len() {
        Seq::empty()
    } else {
        let tok = token_at(s, i, o);
        if tok.1 <= 0 || i + tok.1 > s.len() {
            Seq::empty()
        } else {
            Seq::new(tok.1 as nat, |_k: int| tok.0) + tags_from(s, i + tok.1, o)
        }
    }
}

/// `w` occurs in `s` at `p`.
pub open spec fn occurs_at(s: Seq<char>, w: Seq<char>, p: int) -> bool {
    0 <= p && p + w.len() <= s.len() && s.subrange(p, p + w.len() as int) == w
}

/// Character `j` lies inside an occurrence of the non-empty word `w`.
pub open spec fn in_match(s: Seq<char>, w: Seq<char>, j: int) -> bool {
    w.len() > 0 && exists|p: int| #![trigger occurs_at(s, w, p)] occurs_at(s, w, p) && p <= j < p + w.len()
}

/// The tags of a row: category tags, with every occurrence of the search
/// word turned into `Match`.
pub open spec fn highlight_spec(s: Seq<char>, o: HighlightingOptions, word: Option<Seq<char>>) -> Seq<Type> {
    let base = tags_from(s, 0, o);
    match word {
        Option::None => base,
        Option::Some(w) => Seq::new(base.len(), |j: int| if in_match(s, w, j) { Type::Match } else { base[j] }),
    }
}

pub open spec fn opt_view(w: Option<&Vec<char>>) -> Option<Seq<char>> {
    match w {
        Option::Some(v) => Option::Some(v@),
        Option::None => Option::None,
    }
}

fn is_word_char(c: char) -> (r: bool)
    ensures
        r == is_word(c),
{
    ('a' <= c && c <= 'z') || ('A' <= c && c <= 'Z') || ('0' <= c && c <= '9') || c == '_'
}

fn boundary_at(s: &Vec<char>, i: usize) -> (r: bool)
    requires
        i < s@.len(),
    ensures
        r == at_boundary(s@, i as int),
{
    i == 0 || !is_word_char(s[i - 1])
}

/// Whether `k` occurs in `s` at `i`.
pub fn matches_at(s: &Vec<char>, i: usize, k: &Vec<char>) -> (r: bool)
    requires
        i <= s@.len(),
    ensures
        r == occurs_at(s@, k@, i as int),
{
    let n = s.len();
    if k.len() > n - i {
        return false;
    }
    let mut j: usize = 0;
    while j < k.len()
        invariant
            j <= k@.len(),
            i + k@.len() <= s@.len(),
            n == s@.len(),
            forall|m: int| 0 <= m < j ==> s@[i + m] == k@[m],
        decreases k@.len() - j,
    {
        if s[i + j] != k[j] {
            assert(s@.subrange(i as int, i + k@.len() as int)[j as int] != k@[j as int]);
            return false;
        }
        j += 1;
    }
    assert(s@.subrange(i as int, i + k@.len() as int) =~= k@);
    true
}

proof fn lemma_keyword_len(s: Seq<char>, i: int, ks: Seq<Seq<char>>, j: int)
    ensures
        keyword_len(s, i, ks, j) matches Option::Some(n) ==> 0 < n && i + n <= s.len() && at_word_end(s, i + n),
    decreases ks.len() - j,
{
    if 0 <= j < ks.len() && !word_at(s, i, ks[j]) {
        lemma_keyword_len(s, i, ks, j + 1);
    }
}

pub open spec fn at_word_end(s: Seq<char>, e: int) -> bool {
    e == s.len() || !is_word(s[e])
}

fn keyword_len_exec(s: &Vec<char>, i: usize, ks: &Vec<Vec<char>>) -> (r: Option<usize>)
    requires
        i < s@.len(),
    ensures
        r matches Option::Some(n) ==> keyword_len(s@, i as int, words_view(*ks), 0) == Option::Some(n as nat),
        r is None ==> keyword_len(s@, i as int, words_view(*ks), 0) is None,
{
    let ghost kv = words_view(*ks);
    let mut j: usize = 0;
    while j < ks.len()
        invariant
            j <= ks@.len(),
            i < s@.len(),
            kv == words_view(*ks),
            keyword_len(s@, i as int, kv, 0) == keyword_len(s@, i as int, kv, j as int),
        decreases ks@.len() - j,
    {
        let k = &ks[j];
        assert(kv[j as int] == k@);
        if k.len() > 0 && k.len() <= s.len() - i && matches_at(s, i, k) {
            let e = i + k.len();
            if e == s.len() || !is_word_char(s[e]) {
                return Some(k.len());
            }
        }
        j += 1;
    }
    None
}

proof fn lemma_string_end(s: Seq<char>, j: int)
    requires
        0 <= j <= s.len(),
    ensures
        j <= string_end(s, j) <= s.len(),
    decreases s.len() - j,
{
    if j < s.len() && s[j] != '"' {
        lemma_string_end(s, j + 1);
    }
}

proof fn lemma_number_end(s: Seq<char>, j: int)
    requires
        0 <= j <= s.len(),
    ensures
        j <= number_end(s, j) <= s.len(),
    decreases s.len() - j,
{
    if j < s.len() && (is_digit(s[j]) || s[j] == '.') {
        lemma_number_end(s, j + 1);
    }
}

fn string_end_exec(s: &Vec<char>, start: usize) -> (r: usize)
    requires
        start <= s@.len(),
    ensures
        r as int == string_end(s@, start as int),
{
    let mut j = start;
    while j < s.len() && s[j] != '"'
        invariant
            start <= j <= s@.len(),
            string_end(s@, start as int) == string_end(s@, j as int),
        decreases s@.len() - j,
    {
        j += 1;
    }
    if j < s.len() {
        j + 1
    } else {
        j
    }
}

fn number_end_exec(s: &Vec<char>, start: usize) -> (r: usize)
    requires
        start <= s@.len(),
    ensures
        r as int == number_end(s@, start as int),
{
    let mut j = start;
    while j < s.len() && (('0' <= s[j] && s[j] <= '9') || s[j] == '.')
        invariant
            start <= j <= s@.len(),
            number_end(s@, start as int) == number_end(s@, j as int),
        decreases s@.len() - j,
    {
        j += 1;
    }
    j
}

proof fn lemma_token_fits(s: Seq<char>, i: int, o: HighlightingOptions)
    requires
        0 <= i < s.len(),
    ensures
        0 < token_at(s, i, o).1,
        i + token_at(s, i, o).1 <= s.len(),
{
    lemma_keyword_len(s, i, words_view(o.primary_keywords), 0);
    lemma_keyword_len(s, i, words_view(o.secondary_keywords), 0);
    lemma_string_end(s, i + 1);
    lemma_number_end(s, i + 1);
}

/// The category and length of the token that starts at `i`.
fn token_at_exec(s: &Vec<char>, i: usize, o: &HighlightingOptions) -> (r: (Type, usize))
    requires
        i < s@.len(),
    ensures
        r.0 == token_at(s@, i as int, *o).0,
        r.1 as int == token_at(s@, i as int, *o).1,
{
    let c = s[i];
    let n = s.len();
    if o.characters && c == '\'' && s.len() - i > 1 {
        let off: usize = if s[i + 1] == '\\' {
            3
        } else {
            2
        };
        if s.len() - i > off && s[i + off] == '\'' {
            return (Type::Character, off + 1);
        }
    }
    let boundary = boundary_at(s, i);
    if boundary {
        if let Some(n) = keyword_len_exec(s, i, &o.primary_keywords) {
            return (Type::PrimaryKeywords, n);
        }
        if let Some(n) = keyword_len_exec(s, i, &o.secondary_keywords) {
            return (Type::SecondaryKeywords, n);
        }
    }
    if o.strings && c == '"' {
        let e = string_end_exec(s, i + 1);
        proof {
            lemma_string_end(s@, i + 1);
        }
        return (Type::String, e - i);
    }
    if o.numbers && '0' <= c && c <= '9' && boundary {
        let e = number_end_exec(s, i + 1);
        proof {
            lemma_number_end(s@, i + 1);
        }
        return (Type::Number, e - i);
    }
    (Type::Normal, 1)
}

/// The category tags of a row, before any search word is applied.
pub fn classify(s: &Vec<char>, o: &HighlightingOptions) -> (r: Vec<Type>)
    ensures
        r@ == tags_from(s@, 0, *o),
{
    let mut tags: Vec<Type> = Vec::new();
    let mut i: usize = 0;
    while i < s.len()
        invariant
            i <= s@.len(),
            tags@ + tags_from(s@, i as int, *o) == tags_from(s@, 0, *o),
        decreases s@.len() - i,
    {
        proof {
            lemma_token_fits(s@, i as int, *o);
        }
        let (t, n) = token_at_exec(s, i, o);
        let ghost before = tags@;
        let mut k: usize = 0;
        while k < n
            invariant
                k <= n,
                tags@ == before + Seq::new(k as nat, |_m: int| t),
            decreases n - k,
        {
            tags.push(t);
            k += 1;
            assert(tags@ =~= before + Seq::new(k as nat, |_m: int| t));
        }
        assert(tags_from(s@, i as int, *o) == Seq::new(n as nat, |_m: int| t) + tags_from(s@, i + n, *o));
        assert(tags@ + tags_from(s@, i + n, *o) =~= before + tags_from(s@, i as int, *o));
        i = i + n;
    }
    assert(tags@ =~= tags@ + tags_from(s@, i as int, *o));
    tags
}

/// `j` lies inside an occurrence of `w` that starts before `p`.
pub open spec fn covered_before(s: Seq<char>, w: Seq<char>, j: int, p: int) -> bool {
    exists|q: int| #![trigger occurs_at(s, w, q)] q < p && occurs_at(s, w, q) && q <= j < q + w.len()
}

/// The tags of a row: its category tags, with every occurrence of the
/// search word marked `Match`.
pub fn highlight_row(s: &Vec<char>, o: &HighlightingOptions, word: Option<&Vec<char>>) -> (r: Vec<Type>)
    ensures
        r@ == highlight_spec(s@, *o, opt_view(word)),
        r@.len() == s@.len(),
{
    let base = classify(s, o);
    proof {
        lemma_tags_len(s@, 0, *o);
    }
    let w = match word {
        None => {
            return base;
        },
        Some(w) => w,
    };
    let ghost b = base@;
    let mut tags = base;
    if w.len() == 0 || w.len() > s.len() {
        assert forall|m: int| 0 <= m < s@.len() implies !in_match(s@, w@, m) by {
            if in_match(s@, w@, m) {
                let q = choose|q: int| #![trigger occurs_at(s@, w@, q)] occurs_at(s@, w@, q) && q <= m < q + w@.len();
            }
        }
        assert(tags@ =~= highlight_spec(s@, *o, opt_view(word)));
        return tags;
    }
    let n = s.len();
    let last = n - w.len();
    let mut p: usize = 0;
    while p <= last
        invariant
            n == s@.len(),
            last == s@.len() - w@.len(),
            w@.len() > 0,
            tags@.len() == s@.len(),
            b.len() == s@.len(),
            p + w@.len() <= s@.len() + 1,
            forall|j: int| 0 <= j < s@.len() ==> tags@[j] == (if covered_before(s@, w@, j, p as int) { Type::Match } else { b[j] }),
        decreases s@.len() + 1 - p,
    {
        if matches_at(s, p, w) {
            let ghost prev = tags@;
            let end = p + w.len();
            let mut j: usize = p;
            while j < end
                invariant
                    end == p + w@.len(),
                    prev.len() == s@.len(),
                    p <= j <= p + w@.len(),
                    p + w@.len() <= s@.len(),
                    tags@.len() == s@.len(),
                    forall|m: int| 0 <= m < s@.len() ==> tags@[m] == (if p <= m < j { Type::Match } else { prev[m] }),
                decreases p + w@.len() - j,
            {
                tags.set(j, Type::Match);
                j += 1;
            }
            assert forall|m: int| 0 <= m < s@.len() implies tags@[m] == (if covered_before(s@, w@, m, p + 1) { Type::Match } else { b[m] }) by {
                if p <= m < p + w@.len() {
                    assert(occurs_at(s@, w@, p as int));
                } else if covered_before(s@, w@, m, p + 1) {
                    let q = choose|q: int| #![trigger occurs_at(s@, w@, q)] q < p + 1 && occurs_at(s@, w@, q) && q <= m < q + w@.len();
                    assert(q < p);
                }
            }
        } else {
            assert forall|m: int| 0 <= m < s@.len() implies tags@[m] == (if covered_before(s@, w@, m, p + 1) { Type::Match } else { b[m] }) by {
                if covered_before(s@, w@, m, p + 1) {
                    let q = choose|q: int| #![trigger occurs_at(s@, w@, q)] q < p + 1 && occurs_at(s@, w@, q) && q <= m < q + w@.len();
                    assert(q != p);
                }
            }
        }
        p += 1;
    }
    assert forall|m: int| 0 <= m < s@.len() implies covered_before(s@, w@, m, p as int) == in_match(s@, w@, m) by {
        if in_match(s@, w@, m) {
            let q = choose|q: int| #![trigger occurs_at(s@, w@, q)] occurs_at(s@, w@, q) && q <= m < q + w@.len();
            assert(q < p);
        }
    }
    assert(tags@ =~= highlight_spec(s@, *o, opt_view(word)));
    tags
}

/// Under an active search word every character of each of its
/// occurrences is tagged `Match`, whatever category it has otherwise.
pub proof fn lemma_match_wins(s: Seq<char>, o: HighlightingOptions, w: Seq<char>, p: int)
    requires
        w.len() > 0,
        occurs_at(s, w, p),
    ensures
        highlight_spec(s, o, Option::Some(w)).len() == s.len(),
        forall|j: int| p <= j < p + w.len() ==> #[trigger] highlight_spec(s, o, Option::Some(w))[j] == Type::Match,
{
    lemma_tags_len(s, 0, o);
    assert forall|j: int| p <= j < p + w.len() implies #[trigger] highlight_spec(s, o, Option::Some(w))[j] == Type::Match by {
        assert(occurs_at(s, w, p));
        assert(in_match(s, w, j));
    }
}

proof fn lemma_tags_len(s: Seq<char>, i: int, o: HighlightingOptions)
    requires
        0 <= i <= s.len(),
    ensures
        tags_from(s, i, o).len() == s.len() - i,
    decreases s.len() - i,
{
    if i < s.len() {
        lemma_token_fits(s, i, o);
        lemma_tags_len(s, i + token_at(s, i, o).1, o);
    }
}

} // verus!
