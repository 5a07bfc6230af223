//! Errors of the library.
use vstd::prelude::*;

verus! {

/// Everything that can go wrong while reading tags or compiling a filter.
#[derive(Debug, PartialEq, Eq)]
pub enum XTagError {
    /// The storage layer failed; holds its message.
    File(String),
    /// A stored tag list is not valid UTF-8.
    Charset,
    /// The text does not follow the grammar; holds the offending position,
    /// counted in characters.
    Parser(usize),
    /// The compiler met a syntax node that the grammar should not produce.
    ParserImplementation(String),
    /// A pattern, after anchoring, is not a valid regular expression.
    Regex(String),
    /// A comparison bound is not a base-10 `i32`.
    IntParse(String),
    /// A bookmark could not be resolved to filter text; holds its name.
    Bookmark(String),
}

/// What an error says, in terms of plain values.
pub ghost enum ErrorView {
    File(Seq<char>),
    Charset,
    Parser(nat),
    ParserImplementation(Seq<char>),
    Regex(Seq<char>),
    IntParse(Seq<char>),
    Bookmark(Seq<char>),
}

impl View for XTagError {
    type V = ErrorView;

    open spec fn view(&self) -> ErrorView {
        match self {
            XTagError::File(m) => ErrorView::File(m@),
            XTagError::Charset => ErrorView::Charset,
            XTagError::Parser(p) => ErrorView::Parser(*p as nat),
            XTagError::ParserImplementation(m) => ErrorView::ParserImplementation(m@),
            XTagError::Regex(p) => ErrorView::Regex(p@),
            XTagError::IntParse(t) => ErrorView::IntParse(t@),
            XTagError::Bookmark(n) => ErrorView::Bookmark(n@),
        }
    }
}

} // verus!
