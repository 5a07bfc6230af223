//! The canonical text of a compiled filter reads back as the same filter.
use vstd::prelude::*;

use crate::grammar::{
    and_op, closed_by, cmp_op, group_end, is_plain, not_op, or_op, p_and, p_and_rest,
    p_comparison, p_not, p_or, p_or_rest, p_primary, parse_search, pattern_end, skip_ws, unit_end,
    Relation, Syntax,
};
use crate::compile::{bookmark_index, compile_syntax, compile_text, BookmarkTable};
use crate::searcher::cmp_text;
use crate::pattern::{anchored, regex_valid};
use crate::searcher::{Cmp, Filter};
use crate::text::{
    all_digits, digit_char, digits_value, i32_of_text, int_text, is_space, nat_text,
};

verus! {

/// `p` stands in `s` at `i`.
pub open spec fn placed(p: Seq<char>, s: Seq<char>, i: int) -> bool {
    0 <= i && i + p.len() <= s.len() && s.subrange(i, i + p.len()) == p
}

/// `p` is one whole pattern.
pub open spec fn is_pattern(p: Seq<char>) -> bool {
    p.len() > 0 && pattern_end(p, 0) == p.len()
}

proof fn lemma_placed_at(p: Seq<char>, s: Seq<char>, i: int, m: int)
    requires
        placed(p, s, i),
        0 <= m < p.len(),
    ensures
        s[i + m] == p[m],
{
    assert(s.subrange(i, i + p.len())[m] == s[i + m]);
}

proof fn lemma_closed_by_placed(p: Seq<char>, s: Seq<char>, i: int, m: int, c: char)
    requires
        placed(p, s, i),
        0 <= m,
        closed_by(p, m, c) is Some,
    ensures
        closed_by(s, i + m, c) == Some(i + closed_by(p, m, c)->Some_0),
    decreases p.len() - m,
{
    lemma_placed_at(p, s, i, m);
    if p[m] != c {
        lemma_closed_by_placed(p, s, i, m + 1, c);
    }
}

proof fn lemma_group_end_placed(p: Seq<char>, s: Seq<char>, i: int, m: int)
    requires
        placed(p, s, i),
        0 <= m,
        group_end(p, m) is Some,
    ensures
        group_end(s, i + m) == Some(i + group_end(p, m)->Some_0),
    decreases p.len() - m,
{
    lemma_placed_at(p, s, i, m);
    if p[m] == ')' {
    } else if p[m] == '(' || p[m] == '[' {
        let inner = if p[m] == '(' {
            group_end(p, m + 1)
        } else {
            closed_by(p, m + 1, ']')
        };
        let k = inner->Some_0;
        if p[m] == '(' {
            lemma_group_end_placed(p, s, i, m + 1);
        } else {
            lemma_closed_by_placed(p, s, i, m + 1, ']');
        }
        lemma_group_end_placed(p, s, i, k);
    } else {
        lemma_group_end_placed(p, s, i, m + 1);
    }
}

proof fn lemma_unit_end_placed(p: Seq<char>, s: Seq<char>, i: int, m: int)
    requires
        placed(p, s, i),
        0 <= m,
        unit_end(p, m) is Some,
    ensures
        unit_end(s, i + m) == Some(i + unit_end(p, m)->Some_0),
{
    lemma_placed_at(p, s, i, m);
    if p[m] == '(' {
        lemma_group_end_placed(p, s, i, m + 1);
    } else if p[m] == '[' {
        lemma_closed_by_placed(p, s, i, m + 1, ']');
    }
}

/// Reading a pattern in `s` goes through a whole pattern placed in it.
pub proof fn lemma_pattern_end_placed(p: Seq<char>, s: Seq<char>, i: int, m: int)
    requires
        placed(p, s, i),
        0 <= m <= p.len(),
        pattern_end(p, m) == p.len(),
    ensures
        pattern_end(s, i + m) == pattern_end(s, i + p.len()),
    decreases p.len() - m,
{
    if m < p.len() {
        let k = unit_end(p, m)->Some_0;
        lemma_unit_end_placed(p, s, i, m);
        lemma_pattern_end_placed(p, s, i, k);
    }
}

/// Reading a regex group in `s` goes through a whole pattern placed in it.
pub proof fn lemma_group_end_over_pattern(p: Seq<char>, s: Seq<char>, i: int, m: int)
    requires
        placed(p, s, i),
        0 <= m <= p.len(),
        pattern_end(p, m) == p.len(),
    ensures
        group_end(s, i + m) == group_end(s, i + p.len()),
    decreases p.len() - m,
{
    if m < p.len() {
        let k = unit_end(p, m)->Some_0;
        lemma_placed_at(p, s, i, m);
        if p[m] == '(' {
            lemma_group_end_placed(p, s, i, m + 1);
        } else if p[m] == '[' {
            lemma_closed_by_placed(p, s, i, m + 1, ']');
        }
        lemma_group_end_over_pattern(p, s, i, k);
    }
}

/// A pattern as compilation leaves it: whole, anchored and valid.
pub open spec fn compiled_pattern(p: Seq<char>) -> bool {
    is_pattern(p) && anchored(p) == p && regex_valid(p)
}

/// A filter whose patterns are all as compilation leaves them.
pub open spec fn well_formed(f: Filter) -> bool
    decreases f,
{
    match f {
        Filter::And(l, r) => well_formed(*l) && well_formed(*r),
        Filter::Or(l, r) => well_formed(*l) && well_formed(*r),
        Filter::Not(x) => well_formed(*x),
        Filter::Tag(p) => compiled_pattern(p),
        Filter::Equal(p, v) => compiled_pattern(p) && compiled_pattern(v),
        Filter::Compare(_, p, _) => compiled_pattern(p),
    }
}

pub open spec fn relation_of(cmp: Cmp) -> Relation {
    match cmp {
        Cmp::Less => Relation::Less,
        Cmp::LessEqual => Relation::LessEqual,
        Cmp::Greater => Relation::Greater,
        Cmp::GreaterEqual => Relation::GreaterEqual,
    }
}

/// The syntax that the canonical text of `f` reads as.
pub open spec fn syntax_of(f: Filter) -> Syntax
    decreases f,
{
    match f {
        Filter::And(l, r) => Syntax::And(Box::new(syntax_of(*l)), Box::new(syntax_of(*r))),
        Filter::Or(l, r) => Syntax::Or(Box::new(syntax_of(*l)), Box::new(syntax_of(*r))),
        Filter::Not(x) => Syntax::Not(Box::new(syntax_of(*x))),
        Filter::Tag(p) => Syntax::Exists(p),
        Filter::Equal(p, v) => Syntax::Compare(p, Relation::Equal, v),
        Filter::Compare(cmp, p, b) => Syntax::Compare(p, relation_of(cmp), int_text(b as int)),
    }
}

proof fn lemma_anchored_start(p: Seq<char>)
    requires
        anchored(p) == p,
    ensures
        p.len() > 0,
        p[0] == '^',
{
    if !(p.len() > 0 && p[0] == '^' && p.last() == '$') {
        assert((seq!['^'] + p + seq!['$']).len() == p.len() + 2);
    }
}

proof fn lemma_digit_char(d: nat)
    requires
        d < 10,
    ensures
        '0' <= digit_char(d) <= '9',
        digit_char(d) as int - '0' as int == d,
        is_plain(digit_char(d)),
{
    let t = seq!['0', '1', '2', '3', '4', '5', '6', '7', '8', '9'];
    assert(digit_char(d) == t[d as int]);
    if d == 0 {
    } else if d == 1 {
    } else if d == 2 {
    } else if d == 3 {
    } else if d == 4 {
    } else if d == 5 {
    } else if d == 6 {
    } else if d == 7 {
    } else if d == 8 {
    } else {
        assert(d == 9);
    }
}

proof fn lemma_nat_text(n: nat)
    ensures
        nat_text(n).len() > 0,
        all_digits(nat_text(n)),
        digits_value(nat_text(n)) == n,
        forall|i: int| 0 <= i < nat_text(n).len() ==> is_plain(#[trigger] nat_text(n)[i]),
    decreases n,
{
    if n < 10 {
        lemma_digit_char(n);
        assert(seq![digit_char(n)].drop_last() =~= Seq::<char>::empty());
        assert(digits_value(Seq::<char>::empty()) == 0);
    } else {
        let init = nat_text(n / 10);
        let c = digit_char(n % 10);
        lemma_nat_text(n / 10);
        lemma_digit_char(n % 10);
        assert((init + seq![c]).drop_last() =~= init);
        assert((init + seq![c]).last() == c);
        assert(digits_value(init + seq![c]) == digits_value(init) * 10 + (c as int - '0' as int));
        assert((n / 10) * 10 + n % 10 == n);
        assert forall|i: int| 0 <= i < nat_text(n).len() implies is_plain(#[trigger] nat_text(n)[i])
            && '0' <= nat_text(n)[i] <= '9' by {
            if i < init.len() {
                assert(nat_text(n)[i] == init[i]);
            } else {
                assert(nat_text(n)[i] == c);
            }
        }
    }
}

proof fn lemma_plain_pattern(p: Seq<char>, m: int)
    requires
        0 <= m <= p.len(),
        forall|i: int| 0 <= i < p.len() ==> is_plain(#[trigger] p[i]),
    ensures
        pattern_end(p, m) == p.len(),
    decreases p.len() - m,
{
    if m < p.len() {
        assert(is_plain(p[m]));
        lemma_plain_pattern(p, m + 1);
    }
}

/// The text of a bound is one pattern and reads back as the bound.
proof fn lemma_int_text(b: i32)
    ensures
        i32_of_text(int_text(b as int)) == Some(b),
        is_pattern(int_text(b as int)),
        int_text(b as int)[0] == '-' || '0' <= int_text(b as int)[0] <= '9',
{
    let t = int_text(b as int);
    if b < 0 {
        let n = (-b) as nat;
        lemma_nat_text(n);
        assert(t.skip(1) =~= nat_text(n));
        assert forall|i: int| 0 <= i < t.len() implies is_plain(#[trigger] t[i]) by {
            if i > 0 {
                assert(t[i] == nat_text(n)[i - 1]);
            }
        }
        lemma_plain_pattern(t, 0);
    } else {
        lemma_nat_text(b as nat);
        assert('0' <= t[0] <= '9');
        lemma_plain_pattern(t, 0);
    }
}

proof fn lemma_literals()
    ensures
        "("@ == seq!['('],
        ")"@ == seq![')'],
        ") AND ("@ == seq![')', ' ', 'A', 'N', 'D', ' ', '('],
        ") OR ("@ == seq![')', ' ', 'O', 'R', ' ', '('],
        "NOT ("@ == seq!['N', 'O', 'T', ' ', '('],
        " == "@ == seq![' ', '=', '=', ' '],
        " < "@ == seq![' ', '<', ' '],
        " <= "@ == seq![' ', '<', '=', ' '],
        " > "@ == seq![' ', '>', ' '],
        " >= "@ == seq![' ', '>', '=', ' '],
{
    reveal_strlit("(");
    reveal_strlit(")");
    reveal_strlit(") AND (");
    reveal_strlit(") OR (");
    reveal_strlit("NOT (");
    reveal_strlit(" == ");
    reveal_strlit(" < ");
    reveal_strlit(" <= ");
    reveal_strlit(" > ");
    reveal_strlit(" >= ");
}

proof fn lemma_placed_concat(a: Seq<char>, b: Seq<char>, s: Seq<char>, i: int)
    requires
        placed(a + b, s, i),
    ensures
        placed(a, s, i),
        placed(b, s, i + a.len()),
{
    let ab = a + b;
    assert forall|k: int| 0 <= k < a.len() implies #[trigger] s.subrange(i, i + a.len())[k]
        == a[k] by {
        assert(s[i + k] == s.subrange(i, i + ab.len())[k]);
        assert(ab[k] == a[k]);
    }
    assert(s.subrange(i, i + a.len()) =~= a);
    assert forall|k: int| 0 <= k < b.len() implies #[trigger] s.subrange(
        i + a.len(),
        i + a.len() + b.len(),
    )[k] == b[k] by {
        assert(s[i + a.len() + k] == s.subrange(i, i + ab.len())[a.len() + k]);
        assert(ab[a.len() + k] == b[k]);
    }
    assert(s.subrange(i + a.len(), i + a.len() + b.len()) =~= b);
}

/// The pieces of the text of a binary filter, placed in `s` at `i`.
proof fn lemma_placed_binary(l: Seq<char>, op: Seq<char>, r: Seq<char>, s: Seq<char>, i: int)
    requires
        placed(seq!['('] + l + op + r + seq![')'], s, i),
    ensures
        s[i] == '(',
        placed(l, s, i + 1),
        placed(op, s, i + 1 + l.len()),
        placed(r, s, i + 1 + l.len() + op.len()),
        s[i + 1 + l.len() + op.len() + r.len()] == ')',
{
    let a = seq!['('];
    lemma_placed_concat(a + l + op + r, seq![')'], s, i);
    lemma_placed_concat(a + l + op, r, s, i);
    lemma_placed_concat(a + l, op, s, i);
    lemma_placed_concat(a, l, s, i);
    lemma_placed_at(a, s, i, 0);
    lemma_placed_at(seq![')'], s, i + 1 + l.len() + op.len() + r.len(), 0);
}

proof fn lemma_text_start(f: Filter)
    requires
        well_formed(f),
    ensures
        f.text().len() > 0,
        f.text()[0] == '(' || f.text()[0] == 'N' || f.text()[0] == '^',
{
    lemma_literals();
    match f {
        Filter::Tag(p) => lemma_anchored_start(p),
        Filter::Equal(p, v) => lemma_anchored_start(p),
        Filter::Compare(c, p, b) => lemma_anchored_start(p),
        _ => {},
    }
}

/// Reading a regex group through the text of a filter that a `)` follows:
/// the group closes there after a bare tag pattern, and fails for every
/// other filter, whose text holds whitespace outside brackets.
proof fn lemma_group_end_text(f: Filter, s: Seq<char>, j: int)
    requires
        well_formed(f),
        placed(f.text(), s, j),
        j + f.text().len() < s.len(),
        s[j + f.text().len()] == ')',
    ensures
        f is Tag ==> group_end(s, j) == Some(j + f.text().len() + 1),
        !(f is Tag) ==> group_end(s, j) is None,
    decreases f,
{
    lemma_literals();
    match f {
        Filter::And(l, r) => {
            lemma_placed_binary(l.text(), ") AND ("@, r.text(), s, j);
            lemma_placed_at(") AND ("@, s, j + 1 + l.text().len(), 1);
            lemma_group_end_text(*l, s, j + 1);
            assert(s[j + 2 + l.text().len()] == ' ');
            assert(group_end(s, j + 2 + l.text().len()) is None);
        },
        Filter::Or(l, r) => {
            lemma_placed_binary(l.text(), ") OR ("@, r.text(), s, j);
            lemma_placed_at(") OR ("@, s, j + 1 + l.text().len(), 1);
            lemma_group_end_text(*l, s, j + 1);
            assert(s[j + 2 + l.text().len()] == ' ');
            assert(group_end(s, j + 2 + l.text().len()) is None);
        },
        Filter::Not(x) => {
            lemma_placed_concat("NOT ("@ + x.text(), ")"@, s, j);
            lemma_placed_concat("NOT ("@, x.text(), s, j);
            lemma_placed_at("NOT ("@, s, j, 0);
            lemma_placed_at("NOT ("@, s, j, 1);
            lemma_placed_at("NOT ("@, s, j, 2);
            lemma_placed_at("NOT ("@, s, j, 3);
            assert(group_end(s, j + 3) is None);
            assert(group_end(s, j + 2) is None);
            assert(group_end(s, j + 1) is None);
        },
        Filter::Equal(p, v) => {
            lemma_placed_concat(p + " == "@, v, s, j);
            lemma_placed_concat(p, " == "@, s, j);
            lemma_placed_at(" == "@, s, j + p.len(), 0);
            lemma_group_end_over_pattern(p, s, j, 0);
        },
        Filter::Compare(c, p, b) => {
            lemma_placed_concat(p + crate::searcher::cmp_text(c), int_text(b as int), s, j);
            lemma_placed_concat(p, crate::searcher::cmp_text(c), s, j);
            lemma_placed_at(crate::searcher::cmp_text(c), s, j + p.len(), 0);
            lemma_group_end_over_pattern(p, s, j, 0);
        },
        Filter::Tag(p) => {
            lemma_group_end_over_pattern(p, s, j, 0);
        },
    }
}

/// Position `j` of `s` is its end or a `)`.
pub open spec fn closes(s: Seq<char>, j: int) -> bool {
    j == s.len() || (0 <= j < s.len() && s[j] == ')')
}

/// What may follow a parenthesized operand in canonical text.
pub open spec fn after_group(s: Seq<char>, j: int) -> bool {
    closes(s, j) || (0 <= j && j + 1 < s.len() && s[j] == ' ' && (s[j + 1] == 'A' || s[j + 1]
        == 'O'))
}

proof fn lemma_rest_stops(s: Seq<char>, t: Syntax, j: int)
    requires
        closes(s, j),
    ensures
        p_and_rest(s, t, j) == Some((t, j)),
        p_or_rest(s, t, j) == Some((t, j)),
{
    assert(skip_ws(s, j) == j);
}

proof fn lemma_pattern_then_stop(p: Seq<char>, s: Seq<char>, i: int)
    requires
        is_pattern(p),
        placed(p, s, i),
        i + p.len() == s.len() || (i + p.len() < s.len() && (s[i + p.len()] == ')' || is_space(
            s[i + p.len()],
        ))),
    ensures
        pattern_end(s, i) == i + p.len(),
{
    lemma_pattern_end_placed(p, s, i, 0);
}

/// A bare tag pattern, an equality or a comparison in canonical text reads
/// back as its syntax.
proof fn lemma_leaf(f: Filter, s: Seq<char>, i: int)
    requires
        well_formed(f),
        f is Tag || f is Equal || f is Compare,
        placed(f.text(), s, i),
        closes(s, i + f.text().len()),
    ensures
        p_not(s, i) == Some((syntax_of(f), i + f.text().len())),
{
    lemma_literals();
    match f {
        Filter::Tag(p) => {
            lemma_anchored_start(p);
            lemma_placed_at(p, s, i, 0);
            lemma_pattern_then_stop(p, s, i);
            assert(skip_ws(s, i + p.len()) == i + p.len());
            assert(s.subrange(i, i + p.len()) == p);
            assert(cmp_op(s, i + p.len()) is None);
            assert(p_comparison(s, i, i + p.len()) is None);
            assert(p_primary(s, i) == Some((Syntax::Exists(p), i + p.len())));
        },
        Filter::Equal(p, v) => {
            let op = " == "@;
            lemma_placed_concat(p + op, v, s, i);
            lemma_placed_concat(p, op, s, i);
            lemma_anchored_start(p);
            lemma_anchored_start(v);
            lemma_placed_at(p, s, i, 0);
            let e = i + p.len();
            lemma_placed_at(op, s, e, 0);
            lemma_placed_at(op, s, e, 1);
            lemma_placed_at(op, s, e, 2);
            lemma_placed_at(op, s, e, 3);
            lemma_placed_at(v, s, e + 4, 0);
            lemma_pattern_then_stop(p, s, i);
            lemma_pattern_then_stop(v, s, e + 4);
            assert(skip_ws(s, e + 1) == e + 1);
            assert(skip_ws(s, e) == e + 1);
            assert(skip_ws(s, e + 4) == e + 4);
            assert(skip_ws(s, e + 3) == e + 4);
            assert(cmp_op(s, e + 1) == Some((Relation::Equal, 2int)));
            assert(p_comparison(s, i, e) == Some((syntax_of(f), e + 4 + v.len())));
        },
        Filter::Compare(c, p, b) => {
            let op = cmp_text(c);
            let t = int_text(b as int);
            lemma_int_text(b);
            lemma_placed_concat(p + op, t, s, i);
            lemma_placed_concat(p, op, s, i);
            lemma_anchored_start(p);
            lemma_placed_at(p, s, i, 0);
            let e = i + p.len();
            let w = op.len() - 2;
            lemma_placed_at(op, s, e, 0);
            lemma_placed_at(op, s, e, 1);
            lemma_placed_at(op, s, e, 2);
            if op.len() == 4 {
                lemma_placed_at(op, s, e, 3);
            }
            lemma_placed_at(t, s, e + op.len(), 0);
            lemma_pattern_then_stop(p, s, i);
            lemma_pattern_then_stop(t, s, e + op.len());
            assert(skip_ws(s, e + 1) == e + 1);
            assert(skip_ws(s, e) == e + 1);
            assert(skip_ws(s, e + op.len()) == e + op.len());
            assert(skip_ws(s, e + 1 + w) == e + op.len());
            assert(cmp_op(s, e + 1) == Some((relation_of(c), w)));
            assert(p_comparison(s, i, e) == Some((syntax_of(f), e + op.len() + t.len())));
        },
        _ => {},
    }
}

/// A parenthesized filter in canonical text reads back as its syntax.
proof fn lemma_paren(f: Filter, s: Seq<char>, i: int)
    requires
        well_formed(f),
        0 <= i < s.len(),
        s[i] == '(',
        placed(f.text(), s, i + 1),
        i + 1 + f.text().len() < s.len(),
        s[i + 1 + f.text().len()] == ')',
        after_group(s, i + f.text().len() + 2),
    ensures
        p_primary(s, i) == Some((syntax_of(f), i + f.text().len() + 2)),
        p_not(s, i) == Some((syntax_of(f), i + f.text().len() + 2)),
    decreases f, 2nat,
{
    let n = f.text().len();
    let j = i + n + 2;
    lemma_text_start(f);
    lemma_placed_at(f.text(), s, i + 1, 0);
    assert(skip_ws(s, i + 1) == i + 1);
    lemma_p_or(f, s, i + 1);
    assert(skip_ws(s, i + 1 + n) == i + 1 + n);
    lemma_group_end_text(f, s, i + 1);
    if f is Tag {
        assert(unit_end(s, j) is None);
        assert(pattern_end(s, j) == j);
        assert(pattern_end(s, i) == j);
        if closes(s, j) {
            assert(skip_ws(s, j) == j);
        } else {
            assert(skip_ws(s, j + 1) == j + 1);
            assert(skip_ws(s, j) == j + 1);
        }
        assert(p_comparison(s, i, j) is None);
    } else {
        assert(unit_end(s, i) is None);
        assert(pattern_end(s, i) == i);
    }
    assert(not_op(s, i) == 0);
}

/// The canonical text of a filter, followed by a `)` or the end, reads back
/// as its syntax.
proof fn lemma_p_or(f: Filter, s: Seq<char>, i: int)
    requires
        well_formed(f),
        placed(f.text(), s, i),
        closes(s, i + f.text().len()),
    ensures
        p_or(s, i) == Some((syntax_of(f), i + f.text().len())),
    decreases f, 1nat,
{
    match f {
        Filter::And(_, _) => lemma_p_or_and(f, s, i),
        Filter::Or(_, _) => lemma_p_or_or(f, s, i),
        Filter::Not(_) => lemma_p_or_not(f, s, i),
        _ => {
            lemma_leaf(f, s, i);
            lemma_rest_stops(s, syntax_of(f), i + f.text().len());
        },
    }
}

proof fn lemma_p_or_and(f: Filter, s: Seq<char>, i: int)
    requires
        f is And,
        well_formed(f),
        placed(f.text(), s, i),
        closes(s, i + f.text().len()),
    ensures
        p_or(s, i) == Some((syntax_of(f), i + f.text().len())),
    decreases f, 0nat,
{
    let n = f.text().len();
    lemma_literals();
    let (l, r) = match f {
        Filter::And(l, r) => (l, r),
        _ => arbitrary(),
    };
        let op = ") AND ("@;
        lemma_placed_binary(l.text(), op, r.text(), s, i);
        let a = i + 1 + l.text().len();
        lemma_placed_at(op, s, a, 1);
        lemma_placed_at(op, s, a, 2);
        lemma_placed_at(op, s, a, 3);
        lemma_placed_at(op, s, a, 4);
        lemma_placed_at(op, s, a, 5);
        lemma_paren(*l, s, i);
        let ja = a + 1;
        assert(skip_ws(s, ja + 1) == ja + 1);
        assert(skip_ws(s, ja) == ja + 1);
        assert(and_op(s, ja + 1) == 3);
        let k = ja + 5;
        assert(skip_ws(s, k) == k);
        assert(skip_ws(s, ja + 4) == k);
        lemma_paren(*r, s, k);
        let m = i + n;
        lemma_rest_stops(s, syntax_of(f), m);
        assert(p_and_rest(s, syntax_of(*l), ja) == Some((syntax_of(f), m)));
        assert(p_and(s, i) == Some((syntax_of(f), m)));
}

#[verifier::rlimit(80)]
proof fn lemma_p_or_or(f: Filter, s: Seq<char>, i: int)
    requires
        f is Or,
        well_formed(f),
        placed(f.text(), s, i),
        closes(s, i + f.text().len()),
    ensures
        p_or(s, i) == Some((syntax_of(f), i + f.text().len())),
    decreases f, 0nat,
{
    let n = f.text().len();
    lemma_literals();
    let (l, r) = match f {
        Filter::Or(l, r) => (l, r),
        _ => arbitrary(),
    };
        let op = ") OR ("@;
        lemma_placed_binary(l.text(), op, r.text(), s, i);
        let a = i + 1 + l.text().len();
        lemma_placed_at(op, s, a, 1);
        lemma_placed_at(op, s, a, 2);
        lemma_placed_at(op, s, a, 3);
        lemma_placed_at(op, s, a, 4);
        lemma_paren(*l, s, i);
        let ja = a + 1;
        assert(skip_ws(s, ja + 1) == ja + 1);
        assert(skip_ws(s, ja) == ja + 1);
        assert(and_op(s, ja + 1) == 0);
        assert(p_and_rest(s, syntax_of(*l), ja) == Some((syntax_of(*l), ja)));
    assert(p_and(s, i) == Some((syntax_of(*l), ja)));
        assert(or_op(s, ja + 1) == 2);
        let k = ja + 4;
        assert(skip_ws(s, k) == k);
        assert(skip_ws(s, ja + 3) == k);
        lemma_paren(*r, s, k);
        let m = i + n;
        lemma_rest_stops(s, syntax_of(*r), m);
        lemma_rest_stops(s, syntax_of(f), m);
        assert(p_and(s, k) == Some((syntax_of(*r), m)));
        assert(p_or_rest(s, syntax_of(*l), ja) == Some((syntax_of(f), m)));
}

proof fn lemma_p_or_not(f: Filter, s: Seq<char>, i: int)
    requires
        f is Not,
        well_formed(f),
        placed(f.text(), s, i),
        closes(s, i + f.text().len()),
    ensures
        p_or(s, i) == Some((syntax_of(f), i + f.text().len())),
    decreases f, 0nat,
{
    let n = f.text().len();
    lemma_literals();
    let x = match f {
        Filter::Not(x) => x,
        _ => arbitrary(),
    };
        let op = "NOT ("@;
        lemma_placed_concat(op + x.text(), ")"@, s, i);
        lemma_placed_concat(op, x.text(), s, i);
        lemma_placed_at(op, s, i, 0);
        lemma_placed_at(op, s, i, 1);
        lemma_placed_at(op, s, i, 2);
        lemma_placed_at(op, s, i, 3);
        lemma_placed_at(op, s, i, 4);
        lemma_placed_at(")"@, s, i + 5 + x.text().len(), 0);
        assert(not_op(s, i) == 3);
        assert(skip_ws(s, i + 4) == i + 4);
        assert(skip_ws(s, i + 3) == i + 4);
        lemma_paren(*x, s, i + 4);
        let m = i + n;
        lemma_rest_stops(s, syntax_of(f), m);
        assert(p_not(s, i) == Some((syntax_of(f), m)));
}

/// The canonical text of a well-formed filter parses as its syntax.
pub proof fn lemma_parse_text(f: Filter)
    requires
        well_formed(f),
    ensures
        parse_search(f.text()) == Ok::<Syntax, nat>(syntax_of(f)),
{
    let s = f.text();
    assert(s.subrange(0, s.len() as int) =~= s);
    lemma_text_start(f);
    assert(skip_ws(s, 0) == 0);
    lemma_p_or(f, s, 0);
    assert(skip_ws(s, s.len() as int) == s.len());
}

/// The syntax of a well-formed filter compiles back to the filter.
pub proof fn lemma_compile_syntax_of(f: Filter, books: BookmarkTable)
    requires
        well_formed(f),
    ensures
        compile_syntax(syntax_of(f), books) == Ok::<Filter, crate::error::ErrorView>(f),
    decreases f,
{
    match f {
        Filter::And(l, r) => {
            lemma_compile_syntax_of(*l, books);
            lemma_compile_syntax_of(*r, books);
        },
        Filter::Or(l, r) => {
            lemma_compile_syntax_of(*l, books);
            lemma_compile_syntax_of(*r, books);
        },
        Filter::Not(x) => {
            lemma_compile_syntax_of(*x, books);
        },
        Filter::Compare(c, p, b) => {
            lemma_int_text(b);
        },
        _ => {},
    }
}

/// Every pattern in a syntax tree is one whole pattern.
pub open spec fn syntax_ok(t: Syntax) -> bool
    decreases t,
{
    match t {
        Syntax::Or(l, r) => syntax_ok(*l) && syntax_ok(*r),
        Syntax::And(l, r) => syntax_ok(*l) && syntax_ok(*r),
        Syntax::Not(x) => syntax_ok(*x),
        Syntax::Exists(p) => is_pattern(p),
        Syntax::Compare(p, _, v) => is_pattern(p) && is_pattern(v),
        Syntax::Bookmark(_) => true,
    }
}

proof fn lemma_pattern_end_grows(s: Seq<char>, m: int)
    ensures
        pattern_end(s, m) >= m,
    decreases s.len() - m,
{
    match unit_end(s, m) {
        Some(k) => if m < k <= s.len() {
            lemma_pattern_end_grows(s, k);
        },
        None => {},
    }
}

proof fn lemma_closed_by_grows(s: Seq<char>, m: int, c: char)
    ensures
        closed_by(s, m, c) matches Some(k) ==> m < k <= s.len(),
    decreases s.len() - m,
{
    if 0 <= m < s.len() && s[m] != c {
        lemma_closed_by_grows(s, m + 1, c);
    }
}

proof fn lemma_group_end_grows(s: Seq<char>, m: int)
    ensures
        group_end(s, m) matches Some(k) ==> m < k <= s.len(),
    decreases s.len() - m,
{
    if 0 <= m < s.len() && s[m] != ')' {
        if s[m] == '(' || s[m] == '[' {
            if s[m] == '(' {
                lemma_group_end_grows(s, m + 1);
            }
            let inner = if s[m] == '(' {
                group_end(s, m + 1)
            } else {
                closed_by(s, m + 1, ']')
            };
            if let Some(k) = inner {
                if m < k <= s.len() {
                    lemma_group_end_grows(s, k);
                }
            }
        } else if !is_space(s[m]) {
            lemma_group_end_grows(s, m + 1);
        }
    }
}

proof fn lemma_closed_by_within(s: Seq<char>, i: int, e: int, m: int, c: char)
    requires
        0 <= i <= m,
        e <= s.len(),
        closed_by(s, m, c) matches Some(k) && k <= e,
    ensures
        closed_by(s.subrange(i, e), m - i, c) == Some(closed_by(s, m, c)->Some_0 - i),
    decreases s.len() - m,
{
    lemma_closed_by_grows(s, m, c);
    assert(s.subrange(i, e)[m - i] == s[m]);
    if s[m] != c {
        lemma_closed_by_within(s, i, e, m + 1, c);
    }
}

proof fn lemma_group_end_within(s: Seq<char>, i: int, e: int, m: int)
    requires
        0 <= i <= m,
        e <= s.len(),
        group_end(s, m) matches Some(k) && k <= e,
    ensures
        group_end(s.subrange(i, e), m - i) == Some(group_end(s, m)->Some_0 - i),
    decreases s.len() - m,
{
    lemma_group_end_grows(s, m);
    assert(s.subrange(i, e)[m - i] == s[m]);
    if s[m] == ')' {
    } else if s[m] == '(' || s[m] == '[' {
        let inner = if s[m] == '(' {
            group_end(s, m + 1)
        } else {
            closed_by(s, m + 1, ']')
        };
        let k = inner->Some_0;
        lemma_group_end_grows(s, m + 1);
        lemma_closed_by_grows(s, m + 1, ']');
        lemma_group_end_grows(s, k);
        if s[m] == '(' {
            lemma_group_end_within(s, i, e, m + 1);
        } else {
            lemma_closed_by_within(s, i, e, m + 1, ']');
        }
        lemma_group_end_within(s, i, e, k);
    } else {
        lemma_group_end_within(s, i, e, m + 1);
    }
}

proof fn lemma_pattern_within(s: Seq<char>, i: int, e: int, m: int)
    requires
        0 <= i <= m <= e,
        e <= s.len(),
        pattern_end(s, m) == e,
    ensures
        pattern_end(s.subrange(i, e), m - i) == e - i,
    decreases s.len() - m,
{
    let sub = s.subrange(i, e);
    match unit_end(s, m) {
        Some(k) => if m < k <= s.len() {
            lemma_pattern_end_grows(s, k);
            assert(sub[m - i] == s[m]);
            if s[m] == '(' {
                lemma_group_end_within(s, i, e, m + 1);
            } else if s[m] == '[' {
                lemma_closed_by_within(s, i, e, m + 1, ']');
            }
            assert(unit_end(sub, m - i) == Some(k - i));
            lemma_pattern_within(s, i, e, k);
        } else {
            assert(m == e);
        },
        None => {
            assert(m == e);
        },
    }
}

/// The text that the pattern reader takes from `i` is one whole pattern.
proof fn lemma_pattern_taken(s: Seq<char>, i: int)
    requires
        0 <= i,
        pattern_end(s, i) > i,
    ensures
        is_pattern(s.subrange(i, pattern_end(s, i))),
{
    let e = pattern_end(s, i);
    lemma_pattern_end_bounded(s, i);
    lemma_pattern_within(s, i, e, i);
}

proof fn lemma_pattern_end_bounded(s: Seq<char>, m: int)
    requires
        0 <= m,
        pattern_end(s, m) > m,
    ensures
        pattern_end(s, m) <= s.len(),
    decreases s.len() - m,
{
    match unit_end(s, m) {
        Some(k) => if m < k <= s.len() {
            if pattern_end(s, k) > k {
                lemma_pattern_end_bounded(s, k);
            }
        },
        None => {},
    }
}

proof fn lemma_skip_ws_grows(s: Seq<char>, i: int)
    ensures
        skip_ws(s, i) >= i,
    decreases s.len() - i,
{
    if 0 <= i < s.len() && is_space(s[i]) {
        lemma_skip_ws_grows(s, i + 1);
    }
}

proof fn lemma_primary_ok(s: Seq<char>, i: int)
    ensures
        p_primary(s, i) matches Some((t, _)) ==> syntax_ok(t),
    decreases s.len() - i, 0nat,
{
    if 0 <= i < s.len() && s[i] != '{' {
        let e = pattern_end(s, i);
        if e > i {
            lemma_pattern_taken(s, i);
            let j = skip_ws(s, e);
            lemma_skip_ws_grows(s, e);
            match cmp_op(s, j) {
                Some((rel, n)) => {
                    let k = skip_ws(s, j + n);
                    lemma_skip_ws_grows(s, j + n);
                    if pattern_end(s, k) > k && n >= 0 {
                        lemma_pattern_taken(s, k);
                    }
                },
                None => {},
            }
        }
        if s[i] == '(' {
            let j = skip_ws(s, i + 1);
            if i < j <= s.len() {
                lemma_or_ok(s, j);
            }
        }
    }
}

proof fn lemma_not_ok(s: Seq<char>, i: int)
    ensures
        p_not(s, i) matches Some((t, _)) ==> syntax_ok(t),
    decreases s.len() - i, 1nat,
{
    if 0 <= i <= s.len() {
        let n = not_op(s, i);
        let j = skip_ws(s, i + n);
        if n > 0 && i < j <= s.len() {
            lemma_not_ok(s, j);
        }
        lemma_primary_ok(s, i);
    }
}

proof fn lemma_and_rest_ok(s: Seq<char>, acc: Syntax, j: int)
    requires
        syntax_ok(acc),
    ensures
        p_and_rest(s, acc, j) matches Some((t, _)) ==> syntax_ok(t),
    decreases s.len() - j, 2nat,
{
    if 0 <= j <= s.len() {
        let j1 = skip_ws(s, j);
        let n = and_op(s, j1);
        let k = skip_ws(s, j1 + n);
        if n > 0 && j < k <= s.len() {
            lemma_not_ok(s, k);
            match p_not(s, k) {
                Some((t, m)) => if k < m <= s.len() {
                    lemma_and_rest_ok(s, Syntax::And(Box::new(acc), Box::new(t)), m);
                },
                None => {},
            }
        }
    }
}

proof fn lemma_and_ok(s: Seq<char>, i: int)
    ensures
        p_and(s, i) matches Some((t, _)) ==> syntax_ok(t),
    decreases s.len() - i, 3nat,
{
    if 0 <= i <= s.len() {
        lemma_not_ok(s, i);
        match p_not(s, i) {
            Some((t, j)) => if i < j <= s.len() {
                lemma_and_rest_ok(s, t, j);
            },
            None => {},
        }
    }
}

proof fn lemma_or_rest_ok(s: Seq<char>, acc: Syntax, j: int)
    requires
        syntax_ok(acc),
    ensures
        p_or_rest(s, acc, j) matches Some((t, _)) ==> syntax_ok(t),
    decreases s.len() - j, 4nat,
{
    if 0 <= j <= s.len() {
        let j1 = skip_ws(s, j);
        let n = or_op(s, j1);
        let k = skip_ws(s, j1 + n);
        if n > 0 && j < k <= s.len() {
            lemma_and_ok(s, k);
            match p_and(s, k) {
                Some((t, m)) => if k < m <= s.len() {
                    lemma_or_rest_ok(s, Syntax::Or(Box::new(acc), Box::new(t)), m);
                },
                None => {},
            }
        }
    }
}

proof fn lemma_or_ok(s: Seq<char>, i: int)
    ensures
        p_or(s, i) matches Some((t, _)) ==> syntax_ok(t),
    decreases s.len() - i, 5nat,
{
    if 0 <= i <= s.len() {
        lemma_and_ok(s, i);
        match p_and(s, i) {
            Some((t, j)) => if i < j <= s.len() {
                lemma_or_rest_ok(s, t, j);
            },
            None => {},
        }
    }
}

proof fn lemma_parse_ok(s: Seq<char>)
    ensures
        parse_search(s) matches Ok(t) ==> syntax_ok(t),
{
    lemma_or_ok(s, skip_ws(s, 0));
}

proof fn lemma_anchored_pattern(p: Seq<char>)
    requires
        is_pattern(p),
    ensures
        is_pattern(anchored(p)),
        anchored(anchored(p)) == anchored(p),
{
    if !(p.len() > 0 && p[0] == '^' && p.last() == '$') {
        let q = seq!['^'] + p + seq!['$'];
        assert(q[0] == '^');
        assert(q.last() == '$');
        assert(q.subrange(1, 1 + p.len() as int) =~= p);
        lemma_pattern_end_placed(p, q, 1, 0);
        assert(is_plain(q[1 + p.len() as int]));
        assert(pattern_end(q, q.len() as int) == q.len());
        assert(pattern_end(q, 1 + p.len() as int) == q.len());
        assert(pattern_end(q, 0) == pattern_end(q, 1));
    }
}

/// A filter that compilation yields is well formed.
proof fn lemma_compile_well_formed(t: Syntax, books: BookmarkTable)
    requires
        syntax_ok(t),
    ensures
        compile_syntax(t, books) matches Ok(f) ==> well_formed(f),
    decreases books.len(), t,
{
    match t {
        Syntax::Or(l, r) => {
            lemma_compile_well_formed(*l, books);
            lemma_compile_well_formed(*r, books);
        },
        Syntax::And(l, r) => {
            lemma_compile_well_formed(*l, books);
            lemma_compile_well_formed(*r, books);
        },
        Syntax::Not(x) => {
            lemma_compile_well_formed(*x, books);
        },
        Syntax::Exists(p) => {
            lemma_anchored_pattern(p);
        },
        Syntax::Compare(p, rel, v) => {
            lemma_anchored_pattern(p);
            lemma_anchored_pattern(v);
            if rel == Relation::Inequal && regex_valid(anchored(p)) && regex_valid(anchored(v)) {
                let e = Filter::Equal(anchored(p), anchored(v));
                assert(well_formed(e));
                assert(well_formed(Filter::Not(Box::new(e))));
            }
        },
        Syntax::Bookmark(name) => {
            match bookmark_index(books, name, 0) {
                Some(i) => if 0 <= i < books.len() {
                    lemma_parse_ok(books[i].1);
                    match parse_search(books[i].1) {
                        Ok(body) => lemma_compile_well_formed(body, books.remove(i)),
                        Err(_) => {},
                    }
                },
                None => {},
            }
        },
    }
}

/// Compiling the canonical text of a compiled filter yields that filter
/// again, whatever bookmarks are at hand; so printing, compiling and printing
/// once more gives the text of the first printing.
pub proof fn lemma_print_compile_fixed_point(
    term: Seq<char>,
    books: BookmarkTable,
    again: BookmarkTable,
)
    requires
        compile_text(term, books) is Ok,
    ensures
        compile_text(compile_text(term, books)->Ok_0.text(), again) == compile_text(term, books),
{
    let t = parse_search(term)->Ok_0;
    lemma_parse_ok(term);
    lemma_compile_well_formed(t, books);
    let f = compile_text(term, books)->Ok_0;
    lemma_parse_text(f);
    lemma_compile_syntax_of(f, again);
}

} // verus!
