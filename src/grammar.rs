//! The search-term grammar, as a parsing expression grammar:
//!
//! ```text
//! search     = ws or_expr ws END
//! or_expr    = and_expr (ws ("||" | "OR" | "or") ws and_expr)*
//! and_expr   = not_expr (ws ("&&" | "AND" | "and") ws not_expr)*
//! not_expr   = ("!" | "NOT" | "not") ws not_expr | primary
//! primary    = "{" name "}" | pattern ws cmp_op ws pattern
//!            | "(" ws or_expr ws ")" | pattern
//! cmp_op     = "==" | "!=" | "<=" | ">=" | "<" | ">"
//! pattern    = (plain | "(" group ")" | "[" class "]")+
//! ```
//!
//! Alternatives are tried in order and the first that succeeds is kept.
//! Operator keywords need no surrounding whitespace; a pattern is read as far
//! as it goes, so `aANDb` is one pattern. Inside a regex group any character
//! but whitespace may stand, and groups nest.
use vstd::prelude::*;

use crate::error::{ErrorView, XTagError};
use crate::text::{chars_of, is_space, slice_text};

verus! {

/// The relation of a comparison atom.
#[derive(PartialEq, Eq, Structural, Clone, Copy, Debug)]
pub enum Relation {
    Equal,
    Inequal,
    Less,
    LessEqual,
    Greater,
    GreaterEqual,
}

/// A search term as the grammar reads it, with its texts as plain values.
pub ghost enum Syntax {
    Or(Box<Syntax>, Box<Syntax>),
    And(Box<Syntax>, Box<Syntax>),
    Not(Box<Syntax>),
    Exists(Seq<char>),
    Compare(Seq<char>, Relation, Seq<char>),
    Bookmark(Seq<char>),
}

/// The first position at or after `i` that is not whitespace.
pub open spec fn skip_ws(s: Seq<char>, i: int) -> int
    decreases s.len() - i,
{
    if 0 <= i < s.len() && is_space(s[i]) {
        skip_ws(s, i + 1)
    } else {
        i
    }
}

pub open spec fn two_at(s: Seq<char>, i: int, a: char, b: char) -> bool {
    0 <= i && i + 2 <= s.len() && s[i] == a && s[i + 1] == b
}

pub open spec fn three_at(s: Seq<char>, i: int, a: char, b: char, c: char) -> bool {
    0 <= i && i + 3 <= s.len() && s[i] == a && s[i + 1] == b && s[i + 2] == c
}

/// The length of the OR operator (`||`, `OR`, `or`) at `i`, or 0.
pub open spec fn or_op(s: Seq<char>, i: int) -> int {
    if two_at(s, i, '|', '|') || two_at(s, i, 'O', 'R') || two_at(s, i, 'o', 'r') {
        2
    } else {
        0
    }
}

/// The length of the AND operator (`&&`, `AND`, `and`) at `i`, or 0.
pub open spec fn and_op(s: Seq<char>, i: int) -> int {
    if two_at(s, i, '&', '&') {
        2
    } else if three_at(s, i, 'A', 'N', 'D') || three_at(s, i, 'a', 'n', 'd') {
        3
    } else {
        0
    }
}

/// The length of the NOT operator (`!`, `NOT`, `not`) at `i`, or 0.
pub open spec fn not_op(s: Seq<char>, i: int) -> int {
    if 0 <= i < s.len() && s[i] == '!' {
        1
    } else if three_at(s, i, 'N', 'O', 'T') || three_at(s, i, 'n', 'o', 't') {
        3
    } else {
        0
    }
}

/// The comparison operator at `i` and its length.
pub open spec fn cmp_op(s: Seq<char>, i: int) -> Option<(Relation, int)> {
    if two_at(s, i, '=', '=') {
        Some((Relation::Equal, 2))
    } else if two_at(s, i, '!', '=') {
        Some((Relation::Inequal, 2))
    } else if two_at(s, i, '<', '=') {
        Some((Relation::LessEqual, 2))
    } else if two_at(s, i, '>', '=') {
        Some((Relation::GreaterEqual, 2))
    } else if 0 <= i < s.len() && s[i] == '<' {
        Some((Relation::Less, 1))
    } else if 0 <= i < s.len() && s[i] == '>' {
        Some((Relation::Greater, 1))
    } else {
        None
    }
}

/// A character that may stand in a pattern outside brackets and parentheses.
pub open spec fn is_plain(c: char) -> bool {
    &&& !is_space(c)
    &&& c != '(' && c != ')' && c != '[' && c != ']' && c != '{' && c != '}'
    &&& c != '=' && c != '!' && c != '<' && c != '>' && c != '&' && c != '|'
}

/// The end of a run of characters closed by `close`, read from `j`: the
/// position after `close`.
pub open spec fn closed_by(s: Seq<char>, j: int, close: char) -> Option<int>
    decreases s.len() - j,
{
    if j < 0 || j >= s.len() {
        None
    } else if s[j] == close {
        Some(j + 1)
    } else {
        closed_by(s, j + 1, close)
    }
}

/// The end of a regex group whose `(` stands before `j`: the position after its
/// `)`. Groups nest; brackets inside are read as character classes; no
/// whitespace is allowed.
pub open spec fn group_end(s: Seq<char>, j: int) -> Option<int>
    decreases s.len() - j,
{
    if j < 0 || j >= s.len() {
        None
    } else if s[j] == ')' {
        Some(j + 1)
    } else if s[j] == '(' || s[j] == '[' {
        let inner = if s[j] == '(' {
            group_end(s, j + 1)
        } else {
            closed_by(s, j + 1, ']')
        };
        match inner {
            Some(k) => if j < k <= s.len() {
                group_end(s, k)
            } else {
                None
            },
            None => None,
        }
    } else if is_space(s[j]) {
        None
    } else {
        group_end(s, j + 1)
    }
}

/// The end of one pattern unit at `i`: a plain character, a character class
/// or a regex group.
pub open spec fn unit_end(s: Seq<char>, i: int) -> Option<int> {
    if i < 0 || i >= s.len() {
        None
    } else if s[i] == '(' {
        group_end(s, i + 1)
    } else if s[i] == '[' {
        closed_by(s, i + 1, ']')
    } else if is_plain(s[i]) {
        Some(i + 1)
    } else {
        None
    }
}

/// The end of the longest run of pattern units from `i`.
pub open spec fn pattern_end(s: Seq<char>, i: int) -> int
    decreases s.len() - i,
{
    match unit_end(s, i) {
        Some(k) => if i < k <= s.len() {
            pattern_end(s, k)
        } else {
            i
        },
        None => i,
    }
}

/// A comparison atom whose tag pattern is `i..e`.
pub open spec fn p_comparison(s: Seq<char>, i: int, e: int) -> Option<(Syntax, int)> {
    let j = skip_ws(s, e);
    match cmp_op(s, j) {
        Some((rel, n)) => {
            let k = skip_ws(s, j + n);
            let e2 = pattern_end(s, k);
            if e2 > k {
                Some((Syntax::Compare(s.subrange(i, e), rel, s.subrange(k, e2)), e2))
            } else {
                None
            }
        },
        None => None,
    }
}

/// A primary at `i`: a bookmark `{name}`, a comparison, a parenthesized
/// expression, or a bare tag pattern, tried in this order.
pub open spec fn p_primary(s: Seq<char>, i: int) -> Option<(Syntax, int)>
    decreases s.len() - i, 0nat,
{
    if i < 0 || i >= s.len() {
        None
    } else if s[i] == '{' {
        match closed_by(s, i + 1, '}') {
            Some(k) => if k > i + 2 {
                Some((Syntax::Bookmark(s.subrange(i + 1, k - 1)), k))
            } else {
                None
            },
            None => None,
        }
    } else {
        let e = pattern_end(s, i);
        let bare = if e > i {
            Some((Syntax::Exists(s.subrange(i, e)), e))
        } else {
            None
        };
        let cmp = if e > i {
            p_comparison(s, i, e)
        } else {
            None
        };
        if cmp is Some {
            cmp
        } else if s[i] == '(' {
            let j = skip_ws(s, i + 1);
            if i < j <= s.len() {
                match p_or(s, j) {
                    Some((t, k)) => {
                        let k2 = skip_ws(s, k);
                        if 0 <= k2 < s.len() && s[k2] == ')' {
                            Some((t, k2 + 1))
                        } else {
                            bare
                        }
                    },
                    None => bare,
                }
            } else {
                bare
            }
        } else {
            bare
        }
    }
}

/// `NOT`-expression at `i`: an operator and a `NOT`-expression, else a primary.
pub open spec fn p_not(s: Seq<char>, i: int) -> Option<(Syntax, int)>
    decreases s.len() - i, 1nat,
{
    if i < 0 || i > s.len() {
        None
    } else {
        let n = not_op(s, i);
        let j = skip_ws(s, i + n);
        if n > 0 && i < j <= s.len() {
            match p_not(s, j) {
                Some((t, k)) => Some((Syntax::Not(Box::new(t)), k)),
                None => p_primary(s, i),
            }
        } else {
            p_primary(s, i)
        }
    }
}

/// The `AND`-chain that continues `acc` from `j`, folded to the left.
pub open spec fn p_and_rest(s: Seq<char>, acc: Syntax, j: int) -> Option<(Syntax, int)>
    decreases s.len() - j, 2nat,
{
    if j < 0 || j > s.len() {
        None
    } else {
        let j1 = skip_ws(s, j);
        let n = and_op(s, j1);
        let k = skip_ws(s, j1 + n);
        if n > 0 && j < k <= s.len() {
            match p_not(s, k) {
                Some((t, m)) => if k < m <= s.len() {
                    p_and_rest(s, Syntax::And(Box::new(acc), Box::new(t)), m)
                } else {
                    None
                },
                None => Some((acc, j)),
            }
        } else {
            Some((acc, j))
        }
    }
}

/// `AND`-expression at `i`.
pub open spec fn p_and(s: Seq<char>, i: int) -> Option<(Syntax, int)>
    decreases s.len() - i, 3nat,
{
    if i < 0 || i > s.len() {
        None
    } else {
        match p_not(s, i) {
            Some((t, j)) => if i < j <= s.len() {
                p_and_rest(s, t, j)
            } else {
                None
            },
            None => None,
        }
    }
}

/// The `OR`-chain that continues `acc` from `j`, folded to the left.
pub open spec fn p_or_rest(s: Seq<char>, acc: Syntax, j: int) -> Option<(Syntax, int)>
    decreases s.len() - j, 4nat,
{
    if j < 0 || j > s.len() {
        None
    } else {
        let j1 = skip_ws(s, j);
        let n = or_op(s, j1);
        let k = skip_ws(s, j1 + n);
        if n > 0 && j < k <= s.len() {
            match p_and(s, k) {
                Some((t, m)) => if k < m <= s.len() {
                    p_or_rest(s, Syntax::Or(Box::new(acc), Box::new(t)), m)
                } else {
                    None
                },
                None => Some((acc, j)),
            }
        } else {
            Some((acc, j))
        }
    }
}

/// `OR`-expression at `i`.
pub open spec fn p_or(s: Seq<char>, i: int) -> Option<(Syntax, int)>
    decreases s.len() - i, 5nat,
{
    if i < 0 || i > s.len() {
        None
    } else {
        match p_and(s, i) {
            Some((t, j)) => if i < j <= s.len() {
                p_or_rest(s, t, j)
            } else {
                None
            },
            None => None,
        }
    }
}

/// A whole search term: the syntax it stands for, or the position where
/// reading it failed.
pub open spec fn parse_search(s: Seq<char>) -> Result<Syntax, nat> {
    let i = skip_ws(s, 0);
    match p_or(s, i) {
        Some((t, j)) => {
            let k = skip_ws(s, j);
            if k == s.len() {
                Ok(t)
            } else {
                Err(k as nat)
            }
        },
        None => Err(i as nat),
    }
}

} // verus!

verus! {

/// A search term as read by the parser.
pub enum Term {
    Or(Box<Term>, Box<Term>),
    And(Box<Term>, Box<Term>),
    Not(Box<Term>),
    Exists(String),
    Compare(String, Relation, String),
    Bookmark(String),
}

impl Term {
    pub open spec fn syntax(&self) -> Syntax
        decreases self,
    {
        match self {
            Term::Or(l, r) => Syntax::Or(Box::new(l.syntax()), Box::new(r.syntax())),
            Term::And(l, r) => Syntax::And(Box::new(l.syntax()), Box::new(r.syntax())),
            Term::Not(t) => Syntax::Not(Box::new(t.syntax())),
            Term::Exists(p) => Syntax::Exists(p@),
            Term::Compare(p, rel, v) => Syntax::Compare(p@, *rel, v@),
            Term::Bookmark(n) => Syntax::Bookmark(n@),
        }
    }
}

impl View for Term {
    type V = Syntax;

    open spec fn view(&self) -> Syntax {
        self.syntax()
    }
}

/// The parse result as plain values.
pub open spec fn parsed(r: Option<(Term, usize)>) -> Option<(Syntax, int)> {
    match r {
        Some((t, k)) => Some((t@, k as int)),
        None => None,
    }
}

pub open spec fn position(r: Option<usize>) -> Option<int> {
    match r {
        Some(k) => Some(k as int),
        None => None,
    }
}

fn skip_ws_at(cs: &Vec<char>, i: usize) -> (r: usize)
    requires
        i <= cs@.len(),
    ensures
        r as int == skip_ws(cs@, i as int),
        i <= r <= cs@.len(),
{
    let mut j = i;
    while j < cs.len() && crate::text::is_space_char(cs[j])
        invariant
            i <= j <= cs@.len(),
            skip_ws(cs@, i as int) == skip_ws(cs@, j as int),
        decreases cs@.len() - j,
    {
        j = j + 1;
    }
    j
}

fn two_at_exec(cs: &Vec<char>, i: usize, a: char, b: char) -> (r: bool)
    ensures
        r == two_at(cs@, i as int, a, b),
{
    i < cs.len() && i + 1 < cs.len() && cs[i] == a && cs[i + 1] == b
}

fn three_at_exec(cs: &Vec<char>, i: usize, a: char, b: char, c: char) -> (r: bool)
    ensures
        r == three_at(cs@, i as int, a, b, c),
{
    i < cs.len() && i + 1 < cs.len() && i + 2 < cs.len() && cs[i] == a && cs[i + 1] == b && cs[i + 2] == c
}

/// The position after the OR operator at `i`, or `i`.
fn or_op_end(cs: &Vec<char>, i: usize) -> (r: usize)
    requires
        i <= cs@.len(),
    ensures
        r == i + or_op(cs@, i as int),
        r <= cs@.len(),
{
    if i == cs.len() {
        return i;
    }
    if two_at_exec(cs, i, '|', '|') || two_at_exec(cs, i, 'O', 'R') || two_at_exec(
        cs,
        i,
        'o',
        'r',
    ) {
        i + 2
    } else {
        i
    }
}

/// The position after the AND operator at `i`, or `i`.
fn and_op_end(cs: &Vec<char>, i: usize) -> (r: usize)
    requires
        i <= cs@.len(),
    ensures
        r == i + and_op(cs@, i as int),
        r <= cs@.len(),
{
    if i == cs.len() {
        return i;
    }
    if two_at_exec(cs, i, '&', '&') {
        i + 2
    } else if three_at_exec(cs, i, 'A', 'N', 'D') || three_at_exec(cs, i, 'a', 'n', 'd') {
        i + 3
    } else {
        i
    }
}

/// The position after the NOT operator at `i`, or `i`.
fn not_op_end(cs: &Vec<char>, i: usize) -> (r: usize)
    requires
        i <= cs@.len(),
    ensures
        r == i + not_op(cs@, i as int),
        r <= cs@.len(),
{
    if i == cs.len() {
        return i;
    }
    if i < cs.len() && cs[i] == '!' {
        i + 1
    } else if three_at_exec(cs, i, 'N', 'O', 'T') || three_at_exec(cs, i, 'n', 'o', 't') {
        i + 3
    } else {
        i
    }
}

/// The comparison operator at `i` and the position after it.
fn cmp_op_end(cs: &Vec<char>, i: usize) -> (r: Option<(Relation, usize)>)
    requires
        i <= cs@.len(),
    ensures
        match r {
            Some((rel, e)) => cmp_op(cs@, i as int) matches Some((rel2, n)) && rel == rel2 && e
                == i + n && e <= cs@.len(),
            None => cmp_op(cs@, i as int) is None,
        },
{
    if i == cs.len() {
        return None;
    }
    if two_at_exec(cs, i, '=', '=') {
        Some((Relation::Equal, i + 2))
    } else if two_at_exec(cs, i, '!', '=') {
        Some((Relation::Inequal, i + 2))
    } else if two_at_exec(cs, i, '<', '=') {
        Some((Relation::LessEqual, i + 2))
    } else if two_at_exec(cs, i, '>', '=') {
        Some((Relation::GreaterEqual, i + 2))
    } else if i < cs.len() && cs[i] == '<' {
        Some((Relation::Less, i + 1))
    } else if i < cs.len() && cs[i] == '>' {
        Some((Relation::Greater, i + 1))
    } else {
        None
    }
}

fn is_plain_char(c: char) -> (r: bool)
    ensures
        r == is_plain(c),
{
    !crate::text::is_space_char(c) && c != '(' && c != ')' && c != '[' && c != ']' && c != '{'
        && c != '}' && c != '=' && c != '!' && c != '<' && c != '>' && c != '&' && c != '|'
}

fn closed_by_at(cs: &Vec<char>, j: usize, close: char) -> (r: Option<usize>)
    ensures
        position(r) == closed_by(cs@, j as int, close),
        r matches Some(k) ==> j < k <= cs@.len(),
{
    let mut m = j;
    while m < cs.len() && cs[m] != close
        invariant
            j <= m,
            closed_by(cs@, j as int, close) == closed_by(cs@, m as int, close),
        decreases cs@.len() - m,
    {
        m = m + 1;
    }
    if m < cs.len() {
        Some(m + 1)
    } else {
        None
    }
}

fn group_end_at(cs: &Vec<char>, j: usize) -> (r: Option<usize>)
    ensures
        position(r) == group_end(cs@, j as int),
        r matches Some(k) ==> j < k <= cs@.len(),
    decreases cs@.len() - j,
{
    let mut m = j;
    while m < cs.len()
        invariant
            j <= m,
            group_end(cs@, j as int) == group_end(cs@, m as int),
        decreases cs@.len() - m,
    {
        let c = cs[m];
        if c == ')' {
            return Some(m + 1);
        } else if c == '(' || c == '[' {
            let inner = if c == '(' {
                group_end_at(cs, m + 1)
            } else {
                closed_by_at(cs, m + 1, ']')
            };
            match inner {
                Some(k) => {
                    m = k;
                },
                None => {
                    return None;
                },
            }
        } else if crate::text::is_space_char(c) {
            return None;
        } else {
            m = m + 1;
        }
    }
    None
}

fn unit_end_at(cs: &Vec<char>, i: usize) -> (r: Option<usize>)
    ensures
        position(r) == unit_end(cs@, i as int),
        r matches Some(k) ==> i < k <= cs@.len(),
{
    if i >= cs.len() {
        None
    } else if cs[i] == '(' {
        group_end_at(cs, i + 1)
    } else if cs[i] == '[' {
        closed_by_at(cs, i + 1, ']')
    } else if is_plain_char(cs[i]) {
        Some(i + 1)
    } else {
        None
    }
}

fn pattern_end_at(cs: &Vec<char>, i: usize) -> (r: usize)
    requires
        i <= cs@.len(),
    ensures
        r as int == pattern_end(cs@, i as int),
        i <= r <= cs@.len(),
{
    let mut m = i;
    loop
        invariant
            i <= m <= cs@.len(),
            pattern_end(cs@, i as int) == pattern_end(cs@, m as int),
        decreases cs@.len() - m,
    {
        match unit_end_at(cs, m) {
            Some(k) => {
                m = k;
            },
            None => {
                return m;
            },
        }
    }
}

} // verus!

verus! {

fn parse_comparison(s: &str, cs: &Vec<char>, i: usize, e: usize) -> (r: Option<(Term, usize)>)
    requires
        cs@ == s@,
        i < e <= cs@.len(),
    ensures
        parsed(r) == p_comparison(cs@, i as int, e as int),
        r matches Some((_, k)) ==> e < k <= cs@.len(),
{
    let j = skip_ws_at(cs, e);
    match cmp_op_end(cs, j) {
        Some((rel, op_end)) => {
            let k = skip_ws_at(cs, op_end);
            let e2 = pattern_end_at(cs, k);
            if e2 > k {
                let tag = slice_text(s, i, e);
                let value = slice_text(s, k, e2);
                Some((Term::Compare(tag, rel, value), e2))
            } else {
                None
            }
        },
        None => None,
    }
}

fn parse_primary(s: &str, cs: &Vec<char>, i: usize) -> (r: Option<(Term, usize)>)
    requires
        cs@ == s@,
        i <= cs@.len(),
    ensures
        parsed(r) == p_primary(cs@, i as int),
        r matches Some((_, k)) ==> i < k <= cs@.len(),
    decreases cs@.len() - i, 0nat,
{
    if i >= cs.len() {
        return None;
    }
    if cs[i] == '{' {
        return match closed_by_at(cs, i + 1, '}') {
            Some(k) => if k > i + 2 {
                Some((Term::Bookmark(slice_text(s, i + 1, k - 1)), k))
            } else {
                None
            },
            None => None,
        };
    }
    let e = pattern_end_at(cs, i);
    if e > i {
        let cmp = parse_comparison(s, cs, i, e);
        if cmp.is_some() {
            return cmp;
        }
    }
    if cs[i] == '(' {
        let j = skip_ws_at(cs, i + 1);
        match parse_or(s, cs, j) {
            Some((t, k)) => {
                let k2 = skip_ws_at(cs, k);
                if k2 < cs.len() && cs[k2] == ')' {
                    return Some((t, k2 + 1));
                }
            },
            None => {},
        }
    }
    if e > i {
        Some((Term::Exists(slice_text(s, i, e)), e))
    } else {
        None
    }
}

fn parse_not(s: &str, cs: &Vec<char>, i: usize) -> (r: Option<(Term, usize)>)
    requires
        cs@ == s@,
        i <= cs@.len(),
    ensures
        parsed(r) == p_not(cs@, i as int),
        r matches Some((_, k)) ==> i < k <= cs@.len(),
    decreases cs@.len() - i, 1nat,
{
    let op_end = not_op_end(cs, i);
    if op_end > i {
        let j = skip_ws_at(cs, op_end);
        match parse_not(s, cs, j) {
            Some((t, k)) => {
                return Some((Term::Not(Box::new(t)), k));
            },
            None => {},
        }
    }
    parse_primary(s, cs, i)
}

fn parse_and(s: &str, cs: &Vec<char>, i: usize) -> (r: Option<(Term, usize)>)
    requires
        cs@ == s@,
        i <= cs@.len(),
    ensures
        parsed(r) == p_and(cs@, i as int),
        r matches Some((_, k)) ==> i < k <= cs@.len(),
    decreases cs@.len() - i, 3nat,
{
    let (first, j0) = match parse_not(s, cs, i) {
        Some(p) => p,
        None => {
            return None;
        },
    };
    let ghost goal = p_and_rest(cs@, first@, j0 as int);
    let mut acc = first;
    let mut j = j0;
    loop
        invariant
            cs@ == s@,
            i < j <= cs@.len(),
            p_and_rest(cs@, acc@, j as int) == goal,
            goal == p_and(cs@, i as int),
        decreases cs@.len() - j,
    {
        let j1 = skip_ws_at(cs, j);
        let op_end = and_op_end(cs, j1);
        if op_end == j1 {
            return Some((acc, j));
        }
        let k = skip_ws_at(cs, op_end);
        match parse_not(s, cs, k) {
            Some((t, m)) => {
                acc = Term::And(Box::new(acc), Box::new(t));
                j = m;
            },
            None => {
                return Some((acc, j));
            },
        }
    }
}

fn parse_or(s: &str, cs: &Vec<char>, i: usize) -> (r: Option<(Term, usize)>)
    requires
        cs@ == s@,
        i <= cs@.len(),
    ensures
        parsed(r) == p_or(cs@, i as int),
        r matches Some((_, k)) ==> i < k <= cs@.len(),
    decreases cs@.len() - i, 5nat,
{
    let (first, j0) = match parse_and(s, cs, i) {
        Some(p) => p,
        None => {
            return None;
        },
    };
    let ghost goal = p_or_rest(cs@, first@, j0 as int);
    let mut acc = first;
    let mut j = j0;
    loop
        invariant
            cs@ == s@,
            i < j <= cs@.len(),
            p_or_rest(cs@, acc@, j as int) == goal,
            goal == p_or(cs@, i as int),
        decreases cs@.len() - j,
    {
        let j1 = skip_ws_at(cs, j);
        let op_end = or_op_end(cs, j1);
        if op_end == j1 {
            return Some((acc, j));
        }
        let k = skip_ws_at(cs, op_end);
        match parse_and(s, cs, k) {
            Some((t, m)) => {
                acc = Term::Or(Box::new(acc), Box::new(t));
                j = m;
            },
            None => {
                return Some((acc, j));
            },
        }
    }
}

/// Reads a whole search term, or reports the position where it stops
/// following the grammar.
pub fn parse_term(term: &str) -> (r: Result<Term, XTagError>)
    ensures
        match parse_search(term@) {
            Ok(t) => r matches Ok(x) && x@ == t,
            Err(p) => r matches Err(e) && e@ == ErrorView::Parser(p),
        },
{
    let cs = chars_of(term);
    let i = skip_ws_at(&cs, 0);
    match parse_or(term, &cs, i) {
        Some((t, j)) => {
            let k = skip_ws_at(&cs, j);
            if k == cs.len() {
                Ok(t)
            } else {
                Err(XTagError::Parser(k))
            }
        },
        None => Err(XTagError::Parser(i)),
    }
}

} // verus!
