//! The tag-list text format: `tag1=value1,tag2,tag3=value3`, with optional
//! whitespace around tags, values, `=` and `,`.
use vstd::prelude::*;

use core::str::Utf8Error;

use crate::error::XTagError;
use crate::tags::{pair_view, pairs_to_map, TagMap, TagPair, XTags};
use crate::text::{chars_of, is_space, is_space_char, slice_text};

verus! {

/// Where the tag-list scanner stands.
#[derive(PartialEq, Eq, Structural, Clone, Copy)]
pub enum Phase {
    BeforeKey,
    InKey,
    AfterKey,
    BeforeValue,
    InValue,
    AfterValue,
    Failed,
}

/// The scanner's state: the tag and value being read, and the pairs finished.
pub ghost struct ScanState {
    pub phase: Phase,
    pub key: Seq<char>,
    pub value: Seq<char>,
    pub done: Seq<TagPair>,
}

pub open spec fn scan_start() -> ScanState {
    ScanState { phase: Phase::BeforeKey, key: seq![], value: seq![], done: seq![] }
}

/// The state after a separator: one more pair finished.
pub open spec fn scan_emit(st: ScanState, pair: TagPair) -> ScanState {
    ScanState { phase: Phase::BeforeKey, key: seq![], value: seq![], done: st.done.push(pair) }
}

pub open spec fn scan_phase(st: ScanState, phase: Phase) -> ScanState {
    ScanState { phase, ..st }
}

/// One step of the tag-list grammar: tags and values are runs of characters
/// other than whitespace, `,` and `=`; whitespace may surround each of them.
pub open spec fn scan_step(st: ScanState, c: char) -> ScanState {
    match st.phase {
        Phase::Failed => st,
        Phase::BeforeKey => if c == ',' || c == '=' {
            scan_phase(st, Phase::Failed)
        } else if is_space(c) {
            st
        } else {
            ScanState { phase: Phase::InKey, key: seq![c], ..st }
        },
        Phase::InKey => if c == ',' {
            scan_emit(st, (st.key, None))
        } else if c == '=' {
            scan_phase(st, Phase::BeforeValue)
        } else if is_space(c) {
            scan_phase(st, Phase::AfterKey)
        } else {
            ScanState { key: st.key.push(c), ..st }
        },
        Phase::AfterKey => if c == ',' {
            scan_emit(st, (st.key, None))
        } else if c == '=' {
            scan_phase(st, Phase::BeforeValue)
        } else if is_space(c) {
            st
        } else {
            scan_phase(st, Phase::Failed)
        },
        Phase::BeforeValue => if c == ',' || c == '=' {
            scan_phase(st, Phase::Failed)
        } else if is_space(c) {
            st
        } else {
            ScanState { phase: Phase::InValue, value: seq![c], ..st }
        },
        Phase::InValue => if c == ',' {
            scan_emit(st, (st.key, Some(st.value)))
        } else if c == '=' {
            scan_phase(st, Phase::Failed)
        } else if is_space(c) {
            scan_phase(st, Phase::AfterValue)
        } else {
            ScanState { value: st.value.push(c), ..st }
        },
        Phase::AfterValue => if c == ',' {
            scan_emit(st, (st.key, Some(st.value)))
        } else if is_space(c) {
            st
        } else {
            scan_phase(st, Phase::Failed)
        },
    }
}

pub open spec fn scan(st: ScanState, s: Seq<char>) -> ScanState
    decreases s.len(),
{
    if s.len() == 0 {
        st
    } else {
        scan_step(scan(st, s.drop_last()), s.last())
    }
}

/// The pairs that a finished scan yields; blank text is the empty list, and a
/// trailing separator is an error.
pub open spec fn scan_finish(st: ScanState) -> Option<Seq<TagPair>> {
    match st.phase {
        Phase::BeforeKey => if st.done.len() == 0 {
            Some(st.done)
        } else {
            None
        },
        Phase::InKey | Phase::AfterKey => Some(st.done.push((st.key, None))),
        Phase::InValue | Phase::AfterValue => Some(st.done.push((st.key, Some(st.value)))),
        _ => None,
    }
}

/// Where scanning `s` first fails: the position of the character that the
/// scanner rejects, or the length of `s` if it rejects none.
pub open spec fn failure_position(s: Seq<char>) -> int
    decreases s.len(),
{
    if s.len() == 0 {
        0
    } else if scan(scan_start(), s.drop_last()).phase == Phase::Failed {
        failure_position(s.drop_last())
    } else if scan(scan_start(), s).phase == Phase::Failed {
        s.len() - 1
    } else {
        s.len() as int
    }
}

/// The pairs written in a comma-separated tag list, in order, or `None` when
/// the text is malformed.
pub open spec fn decode_pairs(s: Seq<char>) -> Option<Seq<TagPair>> {
    scan_finish(scan(scan_start(), s))
}

} // verus!

verus! {

proof fn lemma_take_step(s: Seq<char>, k: int)
    requires
        0 <= k < s.len(),
    ensures
        s.take(k + 1).drop_last() == s.take(k),
        s.take(k + 1).last() == s[k],
{
    assert(s.take(k + 1).drop_last() =~= s.take(k));
}

proof fn lemma_emit_map(done: Seq<TagPair>, pair: TagPair)
    ensures
        pairs_to_map(done.push(pair)) == pairs_to_map(done).insert(pair.0, pair.1),
{
    assert(done.push(pair).drop_last() =~= done);
}

/// Reads a comma-separated list of `tag` and `tag=value` items into a tag map;
/// a later item overrides an earlier one with the same tag.
pub fn csl_to_map(string: &str) -> (r: Result<XTags, XTagError>)
    ensures
        decode_pairs(string@) is Some <==> r is Ok,
        r is Ok ==> r->Ok_0@ == pairs_to_map(decode_pairs(string@)->Some_0),
        r matches Err(e) ==> e == XTagError::Parser(failure_position(string@) as usize),
{
    let cs = chars_of(string);
    let n = cs.len();
    let mut result = XTags::new();
    let mut phase = Phase::BeforeKey;
    let mut emitted = false;
    let mut ks: usize = 0;
    let mut ke: usize = 0;
    let mut vs: usize = 0;
    let mut ve: usize = 0;
    let mut fail_at: usize = 0;
    let ghost mut st = scan_start();
    let mut k: usize = 0;
    assert(cs@.take(0) =~= Seq::<char>::empty());
    while k < n
        invariant
            n == cs@.len(),
            cs@ == string@,
            k <= n,
            st == scan(scan_start(), cs@.take(k as int)),
            phase == st.phase,
            emitted == (st.done.len() > 0),
            result@ == pairs_to_map(st.done),
            fail_at <= n,
            st.phase == Phase::Failed ==> fail_at == failure_position(cs@.take(k as int)),
            st.phase != Phase::Failed ==> failure_position(cs@.take(k as int)) == k,
            st.phase != Phase::BeforeKey && st.phase != Phase::Failed ==> ks <= ke <= k && st.key
                == cs@.subrange(ks as int, ke as int),
            st.phase == Phase::InKey ==> ke == k,
            st.phase == Phase::InValue || st.phase == Phase::AfterValue ==> vs <= ve <= k
                && st.value == cs@.subrange(vs as int, ve as int),
            st.phase == Phase::InValue ==> ve == k,
        decreases n - k,
    {
        let c = cs[k];
        proof {
            lemma_take_step(cs@, k as int);
        }
        let ghost next = scan_step(st, c);
        let sp = is_space_char(c);
        match phase {
            Phase::Failed => {},
            Phase::BeforeKey => {
                if c == ',' || c == '=' {
                    phase = Phase::Failed;
                    fail_at = k;
                } else if !sp {
                    phase = Phase::InKey;
                    ks = k;
                    ke = k + 1;
                    assert(cs@.subrange(k as int, k + 1) =~= seq![c]);
                }
            },
            Phase::InKey | Phase::AfterKey => {
                if c == ',' {
                    let key = slice_text(string, ks, ke);
                    proof {
                        lemma_emit_map(st.done, (st.key, None));
                    }
                    result.insert(key, None);
                    emitted = true;
                    phase = Phase::BeforeKey;
                } else if c == '=' {
                    phase = Phase::BeforeValue;
                } else if sp {
                    phase = Phase::AfterKey;
                } else if phase == Phase::InKey {
                    ke = k + 1;
                    assert(cs@.subrange(ks as int, k + 1) =~= st.key.push(c));
                } else {
                    phase = Phase::Failed;
                    fail_at = k;
                }
            },
            Phase::BeforeValue => {
                if c == ',' || c == '=' {
                    phase = Phase::Failed;
                    fail_at = k;
                } else if !sp {
                    phase = Phase::InValue;
                    vs = k;
                    ve = k + 1;
                    assert(cs@.subrange(k as int, k + 1) =~= seq![c]);
                }
            },
            Phase::InValue | Phase::AfterValue => {
                if c == ',' {
                    let key = slice_text(string, ks, ke);
                    let value = slice_text(string, vs, ve);
                    proof {
                        lemma_emit_map(st.done, (st.key, Some(st.value)));
                    }
                    result.insert(key, Some(value));
                    emitted = true;
                    phase = Phase::BeforeKey;
                } else if sp {
                    phase = Phase::AfterValue;
                } else if c != '=' && phase == Phase::InValue {
                    ve = k + 1;
                    assert(cs@.subrange(vs as int, k + 1) =~= st.value.push(c));
                } else {
                    phase = Phase::Failed;
                    fail_at = k;
                }
            },
        }
        proof {
            st = next;
        }
        k = k + 1;
    }
    assert(cs@.take(n as int) =~= cs@);
    match phase {
        Phase::BeforeKey => {
            if emitted {
                Err(XTagError::Parser(n))
            } else {
                Ok(result)
            }
        },
        Phase::InKey | Phase::AfterKey => {
            let key = slice_text(string, ks, ke);
            proof {
                lemma_emit_map(st.done, (st.key, None));
            }
            result.insert(key, None);
            Ok(result)
        },
        Phase::InValue | Phase::AfterValue => {
            let key = slice_text(string, ks, ke);
            let value = slice_text(string, vs, ve);
            proof {
                lemma_emit_map(st.done, (st.key, Some(st.value)));
            }
            result.insert(key, Some(value));
            Ok(result)
        },
        Phase::BeforeValue => Err(XTagError::Parser(n)),
        Phase::Failed => Err(XTagError::Parser(fail_at)),
    }
}

} // verus!

verus! {

/// `tag` or `tag=value`.
pub open spec fn render_pair(p: TagPair) -> Seq<char> {
    match p.1 {
        Some(v) => p.0 + seq!['='] + v,
        None => p.0,
    }
}

/// The rendered pairs joined by `,`.
pub open spec fn encode_pairs(ps: Seq<TagPair>) -> Seq<char>
    decreases ps.len(),
{
    if ps.len() == 0 {
        seq![]
    } else if ps.len() == 1 {
        render_pair(ps[0])
    } else {
        encode_pairs(ps.drop_last()) + seq![','] + render_pair(ps.last())
    }
}

/// Writes a tag map as a comma-separated list of `tag` and `tag=value` items,
/// in the map's stored order.
pub fn map_to_csl(set: &XTags) -> (r: String)
    ensures
        r@ == encode_pairs(set.pairs()),
{
    let entries = set.entries();
    let ghost ps = set.pairs();
    let mut r = String::new();
    let mut i: usize = 0;
    proof {
        reveal_strlit(",");
        reveal_strlit("=");
    }
    assert(ps.take(0) =~= Seq::<TagPair>::empty());
    while i < entries.len()
        invariant
            i <= entries.len(),
            entries@.map_values(|e: (String, Option<String>)| pair_view(e)) == ps,
            r@ == encode_pairs(ps.take(i as int)),
            ",".view() == seq![','],
            "=".view() == seq!['='],
        decreases entries.len() - i,
    {
        let ghost before = r@;
        assert(ps[i as int] == pair_view(entries@[i as int]));
        if i > 0 {
            r.append(",");
        }
        r.append(entries[i].0.as_str());
        match &entries[i].1 {
            Some(v) => {
                r.append("=");
                r.append(v.as_str());
            },
            None => {},
        }
        assert(r@ =~= if i > 0 {
            before + seq![','] + render_pair(ps[i as int])
        } else {
            render_pair(ps[i as int])
        });
        assert(ps.take(i + 1).drop_last() =~= ps.take(i as int));
        i = i + 1;
    }
    assert(ps.take(i as int) =~= ps);
    r
}

} // verus!

verus! {

/// A tag or value that reads back as itself: not empty, and free of
/// whitespace, `,` and `=`.
pub open spec fn is_token(t: Seq<char>) -> bool {
    &&& t.len() > 0
    &&& forall|i: int|
        0 <= i < t.len() ==> !is_space(#[trigger] t[i]) && t[i] != ',' && t[i] != '='
}

pub open spec fn pair_is_plain(p: TagPair) -> bool {
    is_token(p.0) && (p.1 matches Some(v) ==> is_token(v))
}

/// The state right after the scanner has read the pair `p` from `st`.
pub open spec fn scan_after_pair(st: ScanState, p: TagPair) -> ScanState {
    match p.1 {
        Some(v) => ScanState { phase: Phase::InValue, key: p.0, value: v, ..st },
        None => ScanState { phase: Phase::InKey, key: p.0, ..st },
    }
}

proof fn lemma_scan_append(st: ScanState, a: Seq<char>, b: Seq<char>)
    ensures
        scan(st, a + b) == scan(scan(st, a), b),
    decreases b.len(),
{
    if b.len() == 0 {
        assert(a + b =~= a);
    } else {
        lemma_scan_append(st, a, b.drop_last());
        assert((a + b).drop_last() =~= a + b.drop_last());
        assert((a + b).last() == b.last());
    }
}

proof fn lemma_scan_key(st: ScanState, t: Seq<char>)
    requires
        st.phase == Phase::BeforeKey,
        is_token(t),
    ensures
        scan(st, t) == (ScanState { phase: Phase::InKey, key: t, ..st }),
    decreases t.len(),
{
    if t.len() == 1 {
        assert(t.drop_last() =~= Seq::<char>::empty());
        assert(seq![t[0]] =~= t);
    } else {
        let init = t.drop_last();
        assert(is_token(init)) by {
            assert forall|i: int| 0 <= i < init.len() implies !is_space(#[trigger] init[i])
                && init[i] != ',' && init[i] != '=' by {
                assert(init[i] == t[i]);
            }
        }
        lemma_scan_key(st, init);
        assert(t[t.len() - 1] == t.last());
        assert(init.push(t.last()) =~= t);
    }
}

proof fn lemma_scan_value(st: ScanState, t: Seq<char>)
    requires
        st.phase == Phase::BeforeValue,
        is_token(t),
    ensures
        scan(st, t) == (ScanState { phase: Phase::InValue, value: t, ..st }),
    decreases t.len(),
{
    if t.len() == 1 {
        assert(t.drop_last() =~= Seq::<char>::empty());
        assert(seq![t[0]] =~= t);
    } else {
        let init = t.drop_last();
        assert(is_token(init)) by {
            assert forall|i: int| 0 <= i < init.len() implies !is_space(#[trigger] init[i])
                && init[i] != ',' && init[i] != '=' by {
                assert(init[i] == t[i]);
            }
        }
        lemma_scan_value(st, init);
        assert(t[t.len() - 1] == t.last());
        assert(init.push(t.last()) =~= t);
    }
}

proof fn lemma_scan_pair(st: ScanState, p: TagPair)
    requires
        st.phase == Phase::BeforeKey,
        st.value == Seq::<char>::empty(),
        pair_is_plain(p),
    ensures
        scan(st, render_pair(p)) == scan_after_pair(st, p),
{
    lemma_scan_key(st, p.0);
    match p.1 {
        Some(v) => {
            let k_st = ScanState { phase: Phase::InKey, key: p.0, ..st };
            lemma_scan_append(st, p.0, seq!['=']);
            assert(seq!['='].drop_last() =~= Seq::<char>::empty());
            assert(scan(k_st, seq!['='].drop_last()) == k_st);
            assert(scan(k_st, seq!['=']) == scan_step(k_st, '='));
            let b_st = scan(st, p.0 + seq!['=']);
            assert(b_st == ScanState { phase: Phase::BeforeValue, ..k_st });
            lemma_scan_append(st, p.0 + seq!['='], v);
            lemma_scan_value(b_st, v);
        },
        None => {},
    }
}

proof fn lemma_scan_encode(ps: Seq<TagPair>)
    requires
        ps.len() > 0,
        forall|i: int| 0 <= i < ps.len() ==> pair_is_plain(#[trigger] ps[i]),
    ensures
        scan(scan_start(), encode_pairs(ps)) == scan_after_pair(
            ScanState { done: ps.drop_last(), ..scan_start() },
            ps.last(),
        ),
    decreases ps.len(),
{
    if ps.len() == 1 {
        assert(ps.drop_last() =~= Seq::<TagPair>::empty());
        assert(pair_is_plain(ps[0]));
        lemma_scan_pair(scan_start(), ps[0]);
    } else {
        let init = ps.drop_last();
        assert forall|i: int| 0 <= i < init.len() implies pair_is_plain(#[trigger] init[i]) by {
            assert(init[i] == ps[i]);
        }
        lemma_scan_encode(init);
        let x = encode_pairs(init);
        lemma_scan_append(scan_start(), x + seq![','], render_pair(ps.last()));
        lemma_scan_append(scan_start(), x, seq![',']);
        assert(seq![','].drop_last() =~= Seq::<char>::empty());
        let end = scan(scan_start(), x);
        assert(scan(end, seq![','].drop_last()) == end);
        assert(scan(end, seq![',']) == scan_step(end, ','));
        let mid = scan(scan_start(), x + seq![',']);
        assert(init.drop_last().push(init.last()) =~= init);
        assert(mid == ScanState { done: init, ..scan_start() });
        assert(pair_is_plain(ps[ps.len() - 1]));
        lemma_scan_pair(mid, ps.last());
    }
}

/// Reading back what the encoder wrote gives the same pairs, when every tag
/// and value is a plain token.
pub proof fn lemma_decode_encode_pairs(ps: Seq<TagPair>)
    requires
        forall|i: int| 0 <= i < ps.len() ==> pair_is_plain(#[trigger] ps[i]),
    ensures
        decode_pairs(encode_pairs(ps)) == Some(ps),
{
    if ps.len() > 0 {
        lemma_scan_encode(ps);
        assert(ps.drop_last().push(ps.last()) =~= ps);
    } else {
        assert(ps =~= Seq::<TagPair>::empty());
    }
}

/// Writing a tag map and reading the text back yields the same map, provided
/// that no tag or value is empty or holds whitespace, `,` or `=`.
pub proof fn lemma_round_trip(tags: XTags)
    requires
        tags.inv(),
        forall|k: Seq<char>| #[trigger]
            tags@.contains_key(k) ==> is_token(k) && (tags@[k] matches Some(v) ==> is_token(v)),
    ensures
        decode_pairs(encode_pairs(tags.pairs())) is Some,
        pairs_to_map(decode_pairs(encode_pairs(tags.pairs()))->Some_0) == tags@,
{
    let ps = tags.pairs();
    crate::tags::lemma_unique_pairs_to_map(ps);
    assert forall|i: int| 0 <= i < ps.len() implies pair_is_plain(#[trigger] ps[i]) by {
        assert(tags@.contains_key(ps[i].0));
    }
    lemma_decode_encode_pairs(ps);
}

} // verus!

verus! {

#[verifier::external_type_specification]
#[verifier::external_body]
pub struct ExUtf8Error(Utf8Error);

/// The text that `bytes` encode in UTF-8, if they are valid UTF-8.
pub uninterp spec fn utf8_text(bytes: Seq<u8>) -> Option<Seq<char>>;

/// Relies on `std::str::from_utf8`: it succeeds exactly on valid UTF-8.
#[verifier::external_body]
fn decode_utf8(bytes: &[u8]) -> (r: Result<&str, Utf8Error>)
    ensures
        r is Ok <==> utf8_text(bytes@) is Some,
        r matches Ok(t) ==> utf8_text(bytes@) == Some(t@),
{
    core::str::from_utf8(bytes)
}

/// Reads the tags stored as a blob; no blob means no tags.
pub fn tags_from_blob(blob: Option<&[u8]>) -> (r: Result<XTags, XTagError>)
    ensures
        match blob {
            None => r matches Ok(m) && m@ == TagMap::empty(),
            Some(bytes) => match utf8_text(bytes@) {
                None => r matches Err(e) && e == XTagError::Charset,
                Some(text) => match decode_pairs(text) {
                    Some(ps) => r matches Ok(m) && m@ == pairs_to_map(ps),
                    None => r matches Err(e) && e == XTagError::Parser(
                        failure_position(text) as usize,
                    ),
                },
            },
        },
{
    match blob {
        None => Ok(XTags::new()),
        Some(bytes) => match decode_utf8(bytes) {
            Ok(text) => csl_to_map(text),
            Err(_) => Err(XTagError::Charset),
        },
    }
}

} // verus!
