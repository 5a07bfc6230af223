//! Compiling search terms into filter trees, with bookmark expansion.
use vstd::prelude::*;

use crate::error::{ErrorView, XTagError};
use crate::grammar::{parse_search, parse_term, Relation, Syntax, Term};
use crate::searcher::{compare_filter, equal_filter, result_view, tag_filter, Cmp, Filter, Searcher};

verus! {

/// Bookmarks as plain values: a name and the search term it stands for.
pub type BookmarkTable = Seq<(Seq<char>, Seq<char>)>;

pub open spec fn table_view(books: Seq<(String, String)>) -> BookmarkTable {
    books.map_values(|b: (String, String)| (b.0@, b.1@))
}

/// The first entry of `books` at or after `from` named `name`.
pub open spec fn bookmark_index(books: BookmarkTable, name: Seq<char>, from: int) -> Option<int>
    decreases books.len() - from,
{
    if from < 0 || from >= books.len() {
        None
    } else if books[from].0 == name {
        Some(from)
    } else {
        bookmark_index(books, name, from + 1)
    }
}

pub open spec fn not_of(r: Result<Filter, ErrorView>) -> Result<Filter, ErrorView> {
    match r {
        Ok(f) => Ok(Filter::Not(Box::new(f))),
        Err(e) => Err(e),
    }
}

pub open spec fn relation_filter(tag: Seq<char>, rel: Relation, value: Seq<char>) -> Result<
    Filter,
    ErrorView,
> {
    match rel {
        Relation::Equal => equal_filter(tag, value),
        Relation::Inequal => not_of(equal_filter(tag, value)),
        Relation::Less => compare_filter(Cmp::Less, tag, value),
        Relation::LessEqual => compare_filter(Cmp::LessEqual, tag, value),
        Relation::Greater => compare_filter(Cmp::Greater, tag, value),
        Relation::GreaterEqual => compare_filter(Cmp::GreaterEqual, tag, value),
    }
}

/// The filter a syntax tree compiles to, folding bottom-up and stopping at the
/// first error from the left. A bookmark is replaced by its term, compiled as
/// one unit without that bookmark, so that a bookmark cannot expand itself.
pub open spec fn compile_syntax(t: Syntax, books: BookmarkTable) -> Result<Filter, ErrorView>
    decreases books.len(), t,
{
    match t {
        Syntax::Or(l, r) => match compile_syntax(*l, books) {
            Ok(a) => match compile_syntax(*r, books) {
                Ok(b) => Ok(Filter::Or(Box::new(a), Box::new(b))),
                Err(e) => Err(e),
            },
            Err(e) => Err(e),
        },
        Syntax::And(l, r) => match compile_syntax(*l, books) {
            Ok(a) => match compile_syntax(*r, books) {
                Ok(b) => Ok(Filter::And(Box::new(a), Box::new(b))),
                Err(e) => Err(e),
            },
            Err(e) => Err(e),
        },
        Syntax::Not(x) => not_of(compile_syntax(*x, books)),
        Syntax::Exists(p) => tag_filter(p),
        Syntax::Compare(p, rel, v) => relation_filter(p, rel, v),
        Syntax::Bookmark(name) => match bookmark_index(books, name, 0) {
            Some(i) => if 0 <= i < books.len() {
                match parse_search(books[i].1) {
                    Ok(body) => compile_syntax(body, books.remove(i)),
                    Err(p) => Err(ErrorView::Parser(p)),
                }
            } else {
                Err(ErrorView::Bookmark(name))
            },
            None => Err(ErrorView::Bookmark(name)),
        },
    }
}

/// What compiling the text `term` yields.
pub open spec fn compile_text(term: Seq<char>, books: BookmarkTable) -> Result<Filter, ErrorView> {
    match parse_search(term) {
        Ok(t) => compile_syntax(t, books),
        Err(p) => Err(ErrorView::Parser(p)),
    }
}

fn find_bookmark(books: &Vec<(String, String)>, name: &String) -> (r: Option<usize>)
    ensures
        match r {
            Some(i) => bookmark_index(table_view(books@), name@, 0) == Some(i as int) && i
                < books@.len(),
            None => bookmark_index(table_view(books@), name@, 0) is None,
        },
{
    let ghost tv = table_view(books@);
    let mut i: usize = 0;
    while i < books.len()
        invariant
            i <= books@.len(),
            tv == table_view(books@),
            bookmark_index(tv, name@, 0) == bookmark_index(tv, name@, i as int),
        decreases books@.len() - i,
    {
        assert(tv[i as int] == (books@[i as int].0@, books@[i as int].1@));
        if books[i].0 == *name {
            return Some(i);
        }
        i = i + 1;
    }
    None
}

/// A copy of `books` without entry `skip`.
fn without(books: &Vec<(String, String)>, skip: usize) -> (r: Vec<(String, String)>)
    requires
        skip < books@.len(),
    ensures
        table_view(r@) == table_view(books@).remove(skip as int),
{
    let ghost tv = table_view(books@);
    let mut r: Vec<(String, String)> = Vec::new();
    let mut i: usize = 0;
    assert(table_view(r@) =~= tv.take(0));
    while i < books.len()
        invariant
            i <= books@.len(),
            skip < books@.len(),
            tv == table_view(books@),
            table_view(r@) == if i <= skip {
                tv.take(i as int)
            } else {
                tv.take(i as int).remove(skip as int)
            },
        decreases books@.len() - i,
    {
        let ghost before = table_view(r@);
        assert(tv[i as int] == (books@[i as int].0@, books@[i as int].1@));
        if i != skip {
            let name = books[i].0.clone();
            let body = books[i].1.clone();
            r.push((name, body));
            assert(table_view(r@) =~= before.push(tv[i as int]));
        }
        if i < skip {
            assert(tv.take(i + 1) =~= tv.take(i as int).push(tv[i as int]));
        } else if i == skip {
            assert(tv.take(i + 1).remove(skip as int) =~= tv.take(i as int));
        } else {
            assert(tv.take(i + 1).remove(skip as int) =~= tv.take(i as int).remove(
                skip as int,
            ).push(tv[i as int]));
        }
        i = i + 1;
    }
    assert(table_view(books@).take(i as int) =~= table_view(books@));
    r
}

fn compile_relation(tag: &String, rel: Relation, value: &String) -> (r: Result<
    Searcher,
    XTagError,
>)
    ensures
        result_view(r) == relation_filter(tag@, rel, value@),
{
    match rel {
        Relation::Equal => Searcher::new_equal(tag.as_str(), value.as_str()),
        Relation::Inequal => Searcher::new_inequal(tag.as_str(), value.as_str()),
        Relation::Less => Searcher::new_less(tag.as_str(), value.as_str()),
        Relation::LessEqual => Searcher::new_less_equal(tag.as_str(), value.as_str()),
        Relation::Greater => Searcher::new_greater(tag.as_str(), value.as_str()),
        Relation::GreaterEqual => Searcher::new_greater_equal(tag.as_str(), value.as_str()),
    }
}

/// Compiles a syntax tree into a Searcher.
pub fn compile_term(t: &Term, books: &Vec<(String, String)>) -> (r: Result<Searcher, XTagError>)
    ensures
        result_view(r) == compile_syntax(t@, table_view(books@)),
    decreases books@.len(), t,
{
    match t {
        Term::Or(l, r) => {
            let a = compile_term(l, books)?;
            let b = compile_term(r, books)?;
            Ok(Searcher::new_or(a, b))
        },
        Term::And(l, r) => {
            let a = compile_term(l, books)?;
            let b = compile_term(r, books)?;
            Ok(Searcher::new_and(a, b))
        },
        Term::Not(x) => {
            let a = compile_term(x, books)?;
            Ok(Searcher::new_not(a))
        },
        Term::Exists(p) => Searcher::new_tag(p.as_str()),
        Term::Compare(p, rel, v) => compile_relation(p, *rel, v),
        Term::Bookmark(name) => match find_bookmark(books, name) {
            Some(i) => {
                let body = parse_term(books[i].1.as_str())?;
                let rest = without(books, i);
                assert(rest@.len() == table_view(rest@).len());
                assert(table_view(books@)[i as int].1 == books@[i as int].1@);
                compile_term(&body, &rest)
            },
            None => Err(XTagError::Bookmark(name.clone())),
        },
    }
}

/// Compiles a search term into a Searcher; a bookmark `{name}` is looked up
/// in `bookmarks` and its term compiled in its place, as one unit.
pub fn compile_search_with(term: &str, bookmarks: &Vec<(String, String)>) -> (r: Result<
    Searcher,
    XTagError,
>)
    ensures
        result_view(r) == compile_text(term@, table_view(bookmarks@)),
{
    let t = parse_term(term)?;
    compile_term(&t, bookmarks)
}

/// Compiles a search term into a Searcher; a bookmark in it is reported as
/// `XTagError::Bookmark` with its name.
pub fn compile_search(term: &str) -> (r: Result<Searcher, XTagError>)
    ensures
        result_view(r) == compile_text(term@, Seq::empty()),
{
    let books: Vec<(String, String)> = Vec::new();
    assert(table_view(books@) =~= Seq::<(Seq<char>, Seq<char>)>::empty());
    compile_search_with(term, &books)
}

} // verus!

verus! {

/// Decides, after a failed compilation, which bookmark the caller should
/// resolve next: the one the error names, unless `bookmarks` already holds it
/// (then the bookmark refers back to itself and the error stands).
pub fn bookmark_to_resolve(err: &XTagError, bookmarks: &Vec<(String, String)>) -> (r: Option<
    String,
>)
    ensures
        match err {
            XTagError::Bookmark(name) => match r {
                Some(n) => n@ == name@ && bookmark_index(table_view(bookmarks@), name@, 0) is None,
                None => bookmark_index(table_view(bookmarks@), name@, 0) is Some,
            },
            _ => r is None,
        },
{
    match err {
        XTagError::Bookmark(name) => match find_bookmark(bookmarks, name) {
            Some(_) => None,
            None => Some(name.clone()),
        },
        _ => None,
    }
}

} // verus!
