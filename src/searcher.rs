//! The compiled filter tree: its meaning over tag maps, evaluation and
//! canonical text.
use vstd::prelude::*;

use crate::error::{ErrorView, XTagError};
use crate::pattern::{anchored, regex_is_match, regex_valid, Pattern};
use crate::tags::{pair_view, TagMap, XTags};
use crate::text::{i32_of_text, i32_to_text, int_text, parse_i32};

verus! {

/// The four numeric comparisons.
#[derive(PartialEq, Eq, Structural, Clone, Copy, Debug)]
pub enum Cmp {
    Less,
    LessEqual,
    Greater,
    GreaterEqual,
}

pub open spec fn cmp_holds(cmp: Cmp, x: int, bound: int) -> bool {
    match cmp {
        Cmp::Less => x < bound,
        Cmp::LessEqual => x <= bound,
        Cmp::Greater => x > bound,
        Cmp::GreaterEqual => x >= bound,
    }
}

pub open spec fn cmp_text(cmp: Cmp) -> Seq<char> {
    match cmp {
        Cmp::Less => " < "@,
        Cmp::LessEqual => " <= "@,
        Cmp::Greater => " > "@,
        Cmp::GreaterEqual => " >= "@,
    }
}

/// A predicate over tag maps, with its patterns as anchored regex text.
pub ghost enum Filter {
    And(Box<Filter>, Box<Filter>),
    Or(Box<Filter>, Box<Filter>),
    Not(Box<Filter>),
    Tag(Seq<char>),
    Equal(Seq<char>, Seq<char>),
    Compare(Cmp, Seq<char>, i32),
}

/// Some tag of `tags` matches `pattern`.
pub open spec fn some_tag_matches(tags: TagMap, pattern: Seq<char>) -> bool {
    exists|k: Seq<char>| tags.contains_key(k) && #[trigger] regex_is_match(pattern, k)
}

/// What is asked of the value of a matching tag.
pub ghost enum ValueCheck {
    Matches(Seq<char>),
    Compare(Cmp, i32),
}

/// A value passes a check: it matches the value pattern, or it is a base-10
/// `i32` that compares as asked. Any other value fails, without error.
pub open spec fn value_passes(check: ValueCheck, value: Seq<char>) -> bool {
    match check {
        ValueCheck::Matches(p) => regex_is_match(p, value),
        ValueCheck::Compare(cmp, bound) => match i32_of_text(value) {
            Some(x) => cmp_holds(cmp, x as int, bound as int),
            None => false,
        },
    }
}

/// Some tag of `tags` matches `pattern` and has a value that passes `check`;
/// tags without a value are passed over.
pub open spec fn some_value_passes(tags: TagMap, pattern: Seq<char>, check: ValueCheck) -> bool {
    exists|k: Seq<char>|
        #![trigger regex_is_match(pattern, k)]
        tags.contains_key(k) && regex_is_match(pattern, k) && tags[k] is Some
            && value_passes(check, tags[k]->Some_0)
}

impl Filter {
    /// Whether the filter holds of a tag map.
    pub open spec fn holds(self, tags: TagMap) -> bool
        decreases self,
    {
        match self {
            Filter::And(l, r) => l.holds(tags) && r.holds(tags),
            Filter::Or(l, r) => l.holds(tags) || r.holds(tags),
            Filter::Not(f) => !f.holds(tags),
            Filter::Tag(p) => some_tag_matches(tags, p),
            Filter::Equal(p, v) => some_value_passes(tags, p, ValueCheck::Matches(v)),
            Filter::Compare(cmp, p, b) => some_value_passes(tags, p, ValueCheck::Compare(cmp, b)),
        }
    }

    /// The canonical text of the filter.
    pub open spec fn text(self) -> Seq<char>
        decreases self,
    {
        match self {
            Filter::And(l, r) => "("@ + l.text() + ") AND ("@ + r.text() + ")"@,
            Filter::Or(l, r) => "("@ + l.text() + ") OR ("@ + r.text() + ")"@,
            Filter::Not(f) => "NOT ("@ + f.text() + ")"@,
            Filter::Tag(p) => p,
            Filter::Equal(p, v) => p + " == "@ + v,
            Filter::Compare(cmp, p, b) => p + cmp_text(cmp) + int_text(b as int),
        }
    }
}

/// Searcher variants.
pub enum Searcher {
    /// Logical and.
    And { lhs: Box<Searcher>, rhs: Box<Searcher> },
    /// Logical or.
    Or { lhs: Box<Searcher>, rhs: Box<Searcher> },
    /// Logical not.
    Not { lhs: Box<Searcher> },
    /// Matches tag.
    Tag { regex: Pattern },
    /// Matches value.
    Equal { tag_regex: Pattern, value_regex: Pattern },
    /// Matches if integer value is less than value.
    Less { tag_regex: Pattern, value: i32 },
    /// Matches if integer value is less or equal than value.
    LessEqual { tag_regex: Pattern, value: i32 },
    /// Matches if integer value is greater than value.
    Greater { tag_regex: Pattern, value: i32 },
    /// Matches if integer value is greater or equal than value.
    GreaterEqual { tag_regex: Pattern, value: i32 },
}

impl View for Searcher {
    type V = Filter;

    open spec fn view(&self) -> Filter {
        self.filter()
    }
}

impl Searcher {
    /// The filter this tree stands for.
    pub open spec fn filter(&self) -> Filter
        decreases self,
    {
        match self {
            Searcher::And { lhs, rhs } => Filter::And(Box::new(lhs.filter()), Box::new(rhs.filter())),
            Searcher::Or { lhs, rhs } => Filter::Or(Box::new(lhs.filter()), Box::new(rhs.filter())),
            Searcher::Not { lhs } => Filter::Not(Box::new(lhs.filter())),
            Searcher::Tag { regex } => Filter::Tag(regex@),
            Searcher::Equal { tag_regex, value_regex } => Filter::Equal(tag_regex@, value_regex@),
            Searcher::Less { tag_regex, value } => Filter::Compare(Cmp::Less, tag_regex@, *value),
            Searcher::LessEqual { tag_regex, value } => Filter::Compare(
                Cmp::LessEqual,
                tag_regex@,
                *value,
            ),
            Searcher::Greater { tag_regex, value } => Filter::Compare(
                Cmp::Greater,
                tag_regex@,
                *value,
            ),
            Searcher::GreaterEqual { tag_regex, value } => Filter::Compare(
                Cmp::GreaterEqual,
                tag_regex@,
                *value,
            ),
        }
    }
}

/// A built filter or the error, as plain values.
pub open spec fn result_view(r: Result<Searcher, XTagError>) -> Result<Filter, ErrorView> {
    match r {
        Ok(s) => Ok(s@),
        Err(e) => Err(e@),
    }
}

/// The filter that a tag pattern builds.
pub open spec fn tag_filter(tag: Seq<char>) -> Result<Filter, ErrorView> {
    if regex_valid(anchored(tag)) {
        Ok(Filter::Tag(anchored(tag)))
    } else {
        Err(ErrorView::Regex(anchored(tag)))
    }
}

/// The filter that an equality of a tag pattern and a value pattern builds.
pub open spec fn equal_filter(tag: Seq<char>, value: Seq<char>) -> Result<Filter, ErrorView> {
    if !regex_valid(anchored(tag)) {
        Err(ErrorView::Regex(anchored(tag)))
    } else if !regex_valid(anchored(value)) {
        Err(ErrorView::Regex(anchored(value)))
    } else {
        Ok(Filter::Equal(anchored(tag), anchored(value)))
    }
}

/// The filter that a numeric comparison of a tag pattern with bound text builds.
pub open spec fn compare_filter(cmp: Cmp, tag: Seq<char>, bound: Seq<char>) -> Result<
    Filter,
    ErrorView,
> {
    if !regex_valid(anchored(tag)) {
        Err(ErrorView::Regex(anchored(tag)))
    } else {
        match i32_of_text(bound) {
            Some(b) => Ok(Filter::Compare(cmp, anchored(tag), b)),
            None => Err(ErrorView::IntParse(bound)),
        }
    }
}

} // verus!

verus! {

/// What is asked of the value of a matching tag, for evaluation.
pub enum ValueTest<'a> {
    Matches(&'a Pattern),
    Compare(Cmp, i32),
}

impl<'a> ValueTest<'a> {
    pub open spec fn check(&self) -> ValueCheck {
        match self {
            ValueTest::Matches(p) => ValueCheck::Matches(p@),
            ValueTest::Compare(cmp, b) => ValueCheck::Compare(*cmp, *b),
        }
    }

    /// Whether one value passes the test; a value that is not an integer
    /// fails a comparison.
    pub fn passes(&self, value: &str) -> (r: bool)
        ensures
            r == value_passes(self.check(), value@),
    {
        match self {
            ValueTest::Matches(p) => p.is_match(value),
            ValueTest::Compare(cmp, bound) => match parse_i32(value) {
                Ok(x) => match cmp {
                    Cmp::Less => x < *bound,
                    Cmp::LessEqual => x <= *bound,
                    Cmp::Greater => x > *bound,
                    Cmp::GreaterEqual => x >= *bound,
                },
                Err(_) => false,
            },
        }
    }
}

/// Whether some tag of `tags` matches `tag_regex`.
fn has_tag_matching(tags: &XTags, tag_regex: &Pattern) -> (r: bool)
    ensures
        r == some_tag_matches(tags@, tag_regex@),
{
    proof {
        use_type_invariant(tags);
        crate::tags::lemma_unique_pairs_to_map(tags.pairs());
    }
    let entries = tags.entries();
    let ghost ps = tags.pairs();
    let mut i: usize = 0;
    while i < entries.len()
        invariant
            i <= entries.len(),
            entries@.map_values(|e: (String, Option<String>)| pair_view(e)) == ps,
            ps == tags.pairs(),
            tags@ == crate::tags::pairs_to_map(ps),
            forall|j: int| 0 <= j < i ==> !regex_is_match(tag_regex@, #[trigger] ps[j].0),
        decreases entries.len() - i,
    {
        assert(ps[i as int] == pair_view(entries@[i as int]));
        if tag_regex.is_match(entries[i].0.as_str()) {
            proof {
                use_type_invariant(tags);
                crate::tags::lemma_unique_pairs_to_map(ps);
                assert(tags@.contains_key(ps[i as int].0));
            }
            return true;
        }
        i = i + 1;
    }
    proof {
        use_type_invariant(tags);
        crate::tags::lemma_unique_pairs_to_map(ps);
        assert forall|k: Seq<char>| tags@.contains_key(k) implies !#[trigger] regex_is_match(
            tag_regex@,
            k,
        ) by {
            let j = choose|j: int| 0 <= j < ps.len() && ps[j].0 == k;
            assert(!regex_is_match(tag_regex@, ps[j].0));
        }
    }
    false
}

/// Whether some tag of `tags` matches `tag_regex` and has a value that passes
/// `test`; tags without a value are passed over.
fn check_values_by_tag_regex(tags: &XTags, tag_regex: &Pattern, test: &ValueTest) -> (r: bool)
    ensures
        r == some_value_passes(tags@, tag_regex@, test.check()),
{
    let entries = tags.entries();
    let ghost ps = tags.pairs();
    let mut i: usize = 0;
    while i < entries.len()
        invariant
            i <= entries.len(),
            entries@.map_values(|e: (String, Option<String>)| pair_view(e)) == ps,
            ps == tags.pairs(),
            forall|j: int|
                0 <= j < i ==> !(regex_is_match(tag_regex@, #[trigger] ps[j].0) && ps[j].1 is Some
                    && value_passes(test.check(), ps[j].1->Some_0)),
        decreases entries.len() - i,
    {
        assert(ps[i as int] == pair_view(entries@[i as int]));
        if tag_regex.is_match(entries[i].0.as_str()) {
            match &entries[i].1 {
                Some(v) => {
                    if test.passes(v.as_str()) {
                        proof {
                            use_type_invariant(tags);
                            crate::tags::lemma_unique_pairs_to_map(ps);
                            assert(tags@.contains_key(ps[i as int].0));
                        }
                        return true;
                    }
                },
                None => {},
            }
        }
        i = i + 1;
    }
    proof {
        use_type_invariant(tags);
        crate::tags::lemma_unique_pairs_to_map(ps);
        assert forall|k: Seq<char>|
            tags@.contains_key(k) && #[trigger] regex_is_match(tag_regex@, k) && tags@[k] is Some
                implies !value_passes(test.check(), tags@[k]->Some_0) by {
            let j = choose|j: int| 0 <= j < ps.len() && ps[j].0 == k;
            assert(tags@.contains_key(ps[j].0));
        }
    }
    false
}

} // verus!

verus! {

impl Searcher {
    /// Returns new and Searcher: matches when both elements match; the right
    /// arm is not evaluated when the left one fails.
    pub fn new_and(lhs: Searcher, rhs: Searcher) -> (r: Self)
        ensures
            r@ == Filter::And(Box::new(lhs@), Box::new(rhs@)),
    {
        Searcher::And { lhs: Box::new(lhs), rhs: Box::new(rhs) }
    }

    /// Returns new or Searcher: matches when at least one element matches; the
    /// right arm is not evaluated when the left one matches.
    pub fn new_or(lhs: Searcher, rhs: Searcher) -> (r: Self)
        ensures
            r@ == Filter::Or(Box::new(lhs@), Box::new(rhs@)),
    {
        Searcher::Or { lhs: Box::new(lhs), rhs: Box::new(rhs) }
    }

    /// Returns new not Searcher: matches when the contained element does not.
    pub fn new_not(lhs: Searcher) -> (r: Self)
        ensures
            r@ == Filter::Not(Box::new(lhs@)),
    {
        Searcher::Not { lhs: Box::new(lhs) }
    }

    /// Returns new tag Searcher: matches when some tag matches the pattern,
    /// anchored to the whole tag.
    pub fn new_tag(regex: &str) -> (r: Result<Self, XTagError>)
        ensures
            result_view(r) == tag_filter(regex@),
    {
        let regex = Pattern::new(regex)?;
        Ok(Searcher::Tag { regex })
    }

    /// Returns new equal Searcher: matches when some tag matching `tag_regex`
    /// has a value matching `value_regex`, both anchored.
    pub fn new_equal(tag_regex: &str, value_regex: &str) -> (r: Result<Self, XTagError>)
        ensures
            result_view(r) == equal_filter(tag_regex@, value_regex@),
    {
        let tag_regex = Pattern::new(tag_regex)?;
        let value_regex = Pattern::new(value_regex)?;
        Ok(Searcher::Equal { tag_regex, value_regex })
    }

    /// Returns the Searcher for inequality: the negation of the equal Searcher,
    /// so it also matches when no tag matches `tag_regex`.
    pub fn new_inequal(tag_regex: &str, value_regex: &str) -> (r: Result<Self, XTagError>)
        ensures
            result_view(r) == match equal_filter(tag_regex@, value_regex@) {
                Ok(f) => Ok(Filter::Not(Box::new(f))),
                Err(e) => Err(e),
            },
    {
        let equal = Searcher::new_equal(tag_regex, value_regex)?;
        Ok(Searcher::new_not(equal))
    }

    /// Builds one of the numeric comparisons.
    fn new_compare(cmp: Cmp, tag_regex: &str, value: &str) -> (r: Result<Self, XTagError>)
        ensures
            result_view(r) == compare_filter(cmp, tag_regex@, value@),
    {
        let tag_regex = Pattern::new(tag_regex)?;
        let value = match parse_i32(value) {
            Ok(v) => v,
            Err(_) => {
                return Err(XTagError::IntParse(value.to_owned()));
            },
        };
        match cmp {
            Cmp::Less => Ok(Searcher::Less { tag_regex, value }),
            Cmp::LessEqual => Ok(Searcher::LessEqual { tag_regex, value }),
            Cmp::Greater => Ok(Searcher::Greater { tag_regex, value }),
            Cmp::GreaterEqual => Ok(Searcher::GreaterEqual { tag_regex, value }),
        }
    }

    /// Returns new less Searcher: matches when some tag matching `tag_regex`
    /// has an integer value below `value`.
    pub fn new_less(tag_regex: &str, value: &str) -> (r: Result<Self, XTagError>)
        ensures
            result_view(r) == compare_filter(Cmp::Less, tag_regex@, value@),
    {
        Searcher::new_compare(Cmp::Less, tag_regex, value)
    }

    /// Returns new less or equal Searcher.
    pub fn new_less_equal(tag_regex: &str, value: &str) -> (r: Result<Self, XTagError>)
        ensures
            result_view(r) == compare_filter(Cmp::LessEqual, tag_regex@, value@),
    {
        Searcher::new_compare(Cmp::LessEqual, tag_regex, value)
    }

    /// Returns new greater Searcher.
    pub fn new_greater(tag_regex: &str, value: &str) -> (r: Result<Self, XTagError>)
        ensures
            result_view(r) == compare_filter(Cmp::Greater, tag_regex@, value@),
    {
        Searcher::new_compare(Cmp::Greater, tag_regex, value)
    }

    /// Returns new greater or equal Searcher.
    pub fn new_greater_equal(tag_regex: &str, value: &str) -> (r: Result<Self, XTagError>)
        ensures
            result_view(r) == compare_filter(Cmp::GreaterEqual, tag_regex@, value@),
    {
        Searcher::new_compare(Cmp::GreaterEqual, tag_regex, value)
    }

    /// Evaluates Searcher against tags.
    pub fn is_match(&self, tags: &XTags) -> (r: bool)
        ensures
            r == self@.holds(tags@),
        decreases self,
    {
        match self {
            Searcher::And { lhs, rhs } => {
                let l = lhs.is_match(tags);
                if l {
                    rhs.is_match(tags)
                } else {
                    false
                }
            },
            Searcher::Or { lhs, rhs } => {
                let l = lhs.is_match(tags);
                if l {
                    true
                } else {
                    rhs.is_match(tags)
                }
            },
            Searcher::Not { lhs } => !lhs.is_match(tags),
            Searcher::Tag { regex } => has_tag_matching(tags, regex),
            Searcher::Equal { tag_regex, value_regex } => {
                check_values_by_tag_regex(tags, tag_regex, &ValueTest::Matches(value_regex))
            },
            Searcher::Less { tag_regex, value } => {
                check_values_by_tag_regex(tags, tag_regex, &ValueTest::Compare(Cmp::Less, *value))
            },
            Searcher::LessEqual { tag_regex, value } => {
                check_values_by_tag_regex(
                    tags,
                    tag_regex,
                    &ValueTest::Compare(Cmp::LessEqual, *value),
                )
            },
            Searcher::Greater { tag_regex, value } => {
                check_values_by_tag_regex(
                    tags,
                    tag_regex,
                    &ValueTest::Compare(Cmp::Greater, *value),
                )
            },
            Searcher::GreaterEqual { tag_regex, value } => {
                check_values_by_tag_regex(
                    tags,
                    tag_regex,
                    &ValueTest::Compare(Cmp::GreaterEqual, *value),
                )
            },
        }
    }

    /// The canonical text of the Searcher; it need not reproduce the term it
    /// was compiled from.
    pub fn to_string(&self) -> (r: String)
        ensures
            r@ == self@.text(),
        decreases self,
    {
        match self {
            Searcher::And { lhs, rhs } => {
                let mut r = "(".to_owned();
                r.append(lhs.to_string().as_str());
                r.append(") AND (");
                r.append(rhs.to_string().as_str());
                r.append(")");
                r
            },
            Searcher::Or { lhs, rhs } => {
                let mut r = "(".to_owned();
                r.append(lhs.to_string().as_str());
                r.append(") OR (");
                r.append(rhs.to_string().as_str());
                r.append(")");
                r
            },
            Searcher::Not { lhs } => {
                let mut r = "NOT (".to_owned();
                r.append(lhs.to_string().as_str());
                r.append(")");
                r
            },
            Searcher::Tag { regex } => regex.as_str().to_owned(),
            Searcher::Equal { tag_regex, value_regex } => {
                let mut r = tag_regex.as_str().to_owned();
                r.append(" == ");
                r.append(value_regex.as_str());
                r
            },
            Searcher::Less { tag_regex, value } => compare_text(tag_regex, " < ", *value),
            Searcher::LessEqual { tag_regex, value } => compare_text(tag_regex, " <= ", *value),
            Searcher::Greater { tag_regex, value } => compare_text(tag_regex, " > ", *value),
            Searcher::GreaterEqual { tag_regex, value } => compare_text(tag_regex, " >= ", *value),
        }
    }
}

fn compare_text(tag_regex: &Pattern, op: &str, value: i32) -> (r: String)
    ensures
        r@ == tag_regex@ + op@ + int_text(value as int),
{
    let mut r = tag_regex.as_str().to_owned();
    r.append(op);
    r.append(i32_to_text(value).as_str());
    r
}

} // verus!
