use vstd::prelude::*;
use crate::highlighting::{words_view, HighlightingOptions};
use crate::row::chars_of;

verus! {

/// The primary keywords of Rust.
pub open spec fn rust_primary_keywords() -> Seq<Seq<char>> {
    seq![
        "as"@,
        "break"@,
        "const"@,
        "continue"@,
        "crate"@,
        "else"@,
        "enum"@,
        "extern"@,
        "false"@,
        "fn"@,
        "for"@,
        "if"@,
        "impl"@,
        "in"@,
        "let"@,
        "loop"@,
        "match"@,
        "mod"@,
        "move"@,
        "mut"@,
        "pub"@,
        "ref"@,
        "return"@,
        "self"@,
        "Self"@,
        "static"@,
        "struct"@,
        "super"@,
        "trait"@,
        "true"@,
        "type"@,
        "unsafe"@,
        "use"@,
        "where"@,
        "while"@,
        "dyn"@,
        "abstract"@,
        "become"@,
        "box"@,
        "do"@,
        "final"@,
        "macro"@,
        "override"@,
        "priv"@,
        "typeof"@,
        "unsized"@,
        "virtual"@,
        "yield"@,
        "async"@,
        "await"@,
        "try"@,
    ]
}

/// The secondary keywords of Rust: its primitive type names.
pub open spec fn rust_secondary_keywords() -> Seq<Seq<char>> {
    seq![
        "bool"@,
        "char"@,
        "i8"@,
        "i16"@,
        "i32"@,
        "i64"@,
        "isize"@,
        "u8"@,
        "u16"@,
        "u32"@,
        "u64"@,
        "usize"@,
        "f32"@,
        "f64"@,
    ]
}

/// A name ends in `.rs`.
pub open spec fn is_rust_file(name: Seq<char>) -> bool {
    name.len() >= 3 && name.subrange(name.len() - 3, name.len() as int) == seq!['.', 'r', 's']
}

/// A language profile: its name and the highlighting it enables.
pub struct FileType {
    name: String,
    hl_opts: HighlightingOptions,
}

fn rust_primary() -> (v: Vec<Vec<char>>)
    ensures
        words_view(v) == rust_primary_keywords(),
{
    let mut v: Vec<Vec<char>> = Vec::new();
    v.push(chars_of("as"));
    v.push(chars_of("break"));
    v.push(chars_of("const"));
    v.push(chars_of("continue"));
    v.push(chars_of("crate"));
    v.push(chars_of("else"));
    v.push(chars_of("enum"));
    v.push(chars_of("extern"));
    v.push(chars_of("false"));
    v.push(chars_of("fn"));
    v.push(chars_of("for"));
    v.push(chars_of("if"));
    v.push(chars_of("impl"));
    v.push(chars_of("in"));
    v.push(chars_of("let"));
    v.push(chars_of("loop"));
    v.push(chars_of("match"));
    v.push(chars_of("mod"));
    v.push(chars_of("move"));
    v.push(chars_of("mut"));
    v.push(chars_of("pub"));
    v.push(chars_of("ref"));
    v.push(chars_of("return"));
    v.push(chars_of("self"));
    v.push(chars_of("Self"));
    v.push(chars_of("static"));
    v.push(chars_of("struct"));
    v.push(chars_of("super"));
    v.push(chars_of("trait"));
    v.push(chars_of("true"));
    v.push(chars_of("type"));
    v.push(chars_of("unsafe"));
    v.push(chars_of("use"));
    v.push(chars_of("where"));
    v.push(chars_of("while"));
    v.push(chars_of("dyn"));
    v.push(chars_of("abstract"));
    v.push(chars_of("become"));
    v.push(chars_of("box"));
    v.push(chars_of("do"));
    v.push(chars_of("final"));
    v.push(chars_of("macro"));
    v.push(chars_of("override"));
    v.push(chars_of("priv"));
    v.push(chars_of("typeof"));
    v.push(chars_of("unsized"));
    v.push(chars_of("virtual"));
    v.push(chars_of("yield"));
    v.push(chars_of("async"));
    v.push(chars_of("await"));
    v.push(chars_of("try"));
    assert(words_view(v) =~= rust_primary_keywords());
    v
}

fn rust_secondary() -> (v: Vec<Vec<char>>)
    ensures
        words_view(v) == rust_secondary_keywords(),
{
    let mut v: Vec<Vec<char>> = Vec::new();
    v.push(chars_of("bool"));
    v.push(chars_of("char"));
    v.push(chars_of("i8"));
    v.push(chars_of("i16"));
    v.push(chars_of("i32"));
    v.push(chars_of("i64"));
    v.push(chars_of("isize"));
    v.push(chars_of("u8"));
    v.push(chars_of("u16"));
    v.push(chars_of("u32"));
    v.push(chars_of("u64"));
    v.push(chars_of("usize"));
    v.push(chars_of("f32"));
    v.push(chars_of("f64"));
    assert(words_view(v) =~= rust_secondary_keywords());
    v
}

fn ends_with_rs(name: &str) -> (r: bool)
    ensures
        r == is_rust_file(name@),
{
    let n = name.unicode_len();
    if n < 3 {
        return false;
    }
    let r = name.get_char(n - 3) == '.' && name.get_char(n - 2) == 'r' && name.get_char(n - 1) == 's';
    assert(r == (name@.subrange(n - 3, n as int) =~= seq!['.', 'r', 's']));
    r
}

impl FileType {
    /// The language name.
    pub closed spec fn name_view(&self) -> Seq<char> {
        self.name@
    }

    /// The highlighting that the language enables.
    pub closed spec fn options(&self) -> HighlightingOptions {
        self.hl_opts
    }

    /// The profile of a file of no known language: nothing is highlighted.
    pub open spec fn is_plain(&self) -> bool {
        &&& self.name_view() == "No filetype"@
        &&& !self.options().numbers
        &&& !self.options().strings
        &&& !self.options().characters
        &&& words_view(self.options().primary_keywords).len() == 0
        &&& words_view(self.options().secondary_keywords).len() == 0
    }

    /// The profile of Rust source.
    pub open spec fn is_rust(&self) -> bool {
        &&& self.name_view() == "Rust"@
        &&& self.options().numbers
        &&& self.options().strings
        &&& self.options().characters
        &&& words_view(self.options().primary_keywords) == rust_primary_keywords()
        &&& words_view(self.options().secondary_keywords) == rust_secondary_keywords()
    }

    /// The profile for a file of no known language.
    pub fn plain() -> (r: FileType)
        ensures
            r.is_plain(),
    {
        let r = FileType { name: String::from_str("No filetype"), hl_opts: HighlightingOptions::none() };
        assert(words_view(r.hl_opts.primary_keywords) =~= Seq::<Seq<char>>::empty());
        assert(words_view(r.hl_opts.secondary_keywords) =~= Seq::<Seq<char>>::empty());
        r
    }

    /// The profile that a file name selects: Rust for `.rs`, else none.
    pub fn from(file_name: &str) -> (r: FileType)
        ensures
            is_rust_file(file_name@) ==> r.is_rust(),
            !is_rust_file(file_name@) ==> r.is_plain(),
    {
        if ends_with_rs(file_name) {
            FileType {
                name: String::from_str("Rust"),
                hl_opts: HighlightingOptions {
                    numbers: true,
                    strings: true,
                    characters: true,
                    primary_keywords: rust_primary(),
                    secondary_keywords: rust_secondary(),
                },
            }
        } else {
            FileType::plain()
        }
    }

    /// The language name.
    pub fn name(&self) -> (r: String)
        ensures
            r@ == self.name_view(),
    {
        self.name.clone()
    }

    /// The highlighting that the language enables.
    pub fn highlight_options(&self) -> (r: &HighlightingOptions)
        ensures
            *r == self.options(),
    {
        &self.hl_opts
    }
}

} // verus!
