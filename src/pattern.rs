//! Anchored regular expressions, compiled by the regex engine.
use vstd::prelude::*;

use regex::Regex;

use crate::error::XTagError;

verus! {

#[verifier::external_type_specification]
#[verifier::external_body]
pub struct ExRegex(Regex);

#[verifier::external_type_specification]
#[verifier::external_body]
pub struct ExRegexError(regex::Error);

/// Whether `pattern` is accepted by the regex engine.
pub uninterp spec fn regex_valid(pattern: Seq<char>) -> bool;

/// Whether the compiled `pattern` finds a match anywhere in `haystack`.
pub uninterp spec fn regex_is_match(pattern: Seq<char>, haystack: Seq<char>) -> bool;

/// What replacing every non-overlapping match of `pattern` in `haystack`
/// by `replacement` (with `$1` and `$name` expanded) yields.
pub uninterp spec fn regex_replace_all(
    pattern: Seq<char>,
    haystack: Seq<char>,
    replacement: Seq<char>,
) -> Seq<char>;

/// Relies on `regex::Regex::new`: it succeeds exactly on valid patterns.
#[verifier::external_body]
fn compile_regex(pattern: &str) -> (r: Result<Regex, regex::Error>)
    ensures
        r is Ok <==> regex_valid(pattern@),
{
    Regex::new(pattern)
}

/// `p` anchored at both ends, unless it already starts with `^` and ends with `$`.
pub open spec fn anchored(p: Seq<char>) -> Seq<char> {
    if p.len() > 0 && p[0] == '^' && p.last() == '$' {
        p
    } else {
        seq!['^'] + p + seq!['$']
    }
}

/// Expands a pattern with anchors so that it matches whole strings only.
pub fn expand_regex(regex: &str) -> (r: String)
    ensures
        r@ == anchored(regex@),
{
    let n = regex.unicode_len();
    if n > 0 && regex.get_char(0) == '^' && regex.get_char(n - 1) == '$' {
        regex.to_owned()
    } else {
        let mut r = "^".to_owned();
        r.append(regex);
        r.append("$");
        proof {
            reveal_strlit("^");
            reveal_strlit("$");
        }
        r
    }
}

/// A compiled regular expression together with the text it was compiled from.
pub struct Pattern {
    source: String,
    re: Regex,
}

impl View for Pattern {
    type V = Seq<char>;

    closed spec fn view(&self) -> Seq<char> {
        self.source@
    }
}

impl Pattern {
    /// Compiles `text` anchored at both ends.
    pub fn new(text: &str) -> (r: Result<Pattern, XTagError>)
        ensures
            r is Ok <==> regex_valid(anchored(text@)),
            r is Ok ==> r->Ok_0@ == anchored(text@),
            r is Err ==> r->Err_0@ == crate::error::ErrorView::Regex(anchored(text@)),
    {
        let source = expand_regex(text);
        match compile_regex(source.as_str()) {
            Ok(re) => Ok(Pattern { source, re }),
            Err(_) => Err(XTagError::Regex(source)),
        }
    }

    /// The anchored text the pattern was compiled from.
    pub fn as_str(&self) -> (r: &str)
        ensures
            r@ == self@,
    {
        self.source.as_str()
    }

    /// Relies on `regex::Regex::is_match`, on the regex compiled from `self@`.
    #[verifier::external_body]
    pub(crate) fn is_match(&self, haystack: &str) -> (r: bool)
        ensures
            r == regex_is_match(self@, haystack@),
    {
        self.re.is_match(haystack)
    }

    /// Relies on `regex::Regex::replace_all`, on the regex compiled from
    /// `self@`; where nothing matches, the haystack comes back unchanged.
    #[verifier::external_body]
    pub(crate) fn replace_all(&self, haystack: &str, replacement: &str) -> (r: String)
        ensures
            r@ == regex_replace_all(self@, haystack@, replacement@),
            !regex_is_match(self@, haystack@) ==> r@ == haystack@,
    {
        self.re.replace_all(haystack, replacement).into_owned()
    }
}

} // verus!
