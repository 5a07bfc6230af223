//! The tag map of one file.
use vstd::prelude::*;

verus! {

/// A tag with its optional value, as plain character sequences.
pub type TagPair = (Seq<char>, Option<Seq<char>>);

/// A tag map as plain values: tag name to optional value.
pub type TagMap = Map<Seq<char>, Option<Seq<char>>>;

pub open spec fn opt_view(v: Option<String>) -> Option<Seq<char>> {
    match v {
        Some(s) => Some(s@),
        None => None,
    }
}

pub open spec fn pair_view(e: (String, Option<String>)) -> TagPair {
    (e.0@, opt_view(e.1))
}

/// The map that inserting `ps` in order builds: a later pair overrides an
/// earlier one with the same tag.
pub open spec fn pairs_to_map(ps: Seq<TagPair>) -> TagMap
    decreases ps.len(),
{
    if ps.len() == 0 {
        Map::empty()
    } else {
        pairs_to_map(ps.drop_last()).insert(ps.last().0, ps.last().1)
    }
}

pub open spec fn keys_unique(ps: Seq<TagPair>) -> bool {
    forall|i: int, j: int| 0 <= i < j < ps.len() ==> ps[i].0 != ps[j].0
}

/// Every tag of `pairs_to_map(ps)` comes from some pair, and the value of the
/// last pair with a tag is the value of that tag.
pub proof fn lemma_pairs_to_map_domain(ps: Seq<TagPair>)
    ensures
        pairs_to_map(ps).dom().finite(),
        forall|k: Seq<char>|
            pairs_to_map(ps).contains_key(k) <==> exists|i: int| 0 <= i < ps.len() && ps[i].0 == k,
    decreases ps.len(),
{
    if ps.len() > 0 {
        lemma_pairs_to_map_domain(ps.drop_last());
        assert forall|k: Seq<char>|
            pairs_to_map(ps).contains_key(k) implies exists|i: int|
                0 <= i < ps.len() && ps[i].0 == k by {
            if k == ps.last().0 {
                assert(ps[ps.len() - 1].0 == k);
            } else {
                let i = choose|i: int| 0 <= i < ps.drop_last().len() && ps.drop_last()[i].0 == k;
                assert(ps[i].0 == k);
            }
        }
        assert forall|k: Seq<char>|
            (exists|i: int| 0 <= i < ps.len() && ps[i].0 == k) implies pairs_to_map(
                ps,
            ).contains_key(k) by {
            let i = choose|i: int| 0 <= i < ps.len() && ps[i].0 == k;
            if i < ps.len() - 1 {
                assert(ps.drop_last()[i].0 == k);
            }
        }
    }
}

/// With unique tags, each pair is an entry of the map, and the map has one
/// entry per pair.
pub proof fn lemma_unique_pairs_to_map(ps: Seq<TagPair>)
    requires
        keys_unique(ps),
    ensures
        pairs_to_map(ps).dom().finite(),
        pairs_to_map(ps).dom().len() == ps.len(),
        forall|i: int|
            0 <= i < ps.len() ==> #[trigger] pairs_to_map(ps).contains_key(ps[i].0)
                && pairs_to_map(ps)[ps[i].0] == ps[i].1,
        forall|k: Seq<char>|
            pairs_to_map(ps).contains_key(k) ==> exists|i: int| 0 <= i < ps.len() && ps[i].0 == k,
    decreases ps.len(),
{
    lemma_pairs_to_map_domain(ps);
    if ps.len() > 0 {
        let init = ps.drop_last();
        assert(keys_unique(init));
        lemma_unique_pairs_to_map(init);
        lemma_pairs_to_map_domain(init);
        assert(!pairs_to_map(init).contains_key(ps.last().0)) by {
            if pairs_to_map(init).contains_key(ps.last().0) {
                let i = choose|i: int| 0 <= i < init.len() && init[i].0 == ps.last().0;
                assert(ps[i].0 == ps[ps.len() - 1].0);
            }
        }
        assert forall|i: int| 0 <= i < ps.len() implies #[trigger] pairs_to_map(ps).contains_key(
            ps[i].0,
        ) && pairs_to_map(ps)[ps[i].0] == ps[i].1 by {
            if i < ps.len() - 1 {
                assert(init[i] == ps[i]);
                assert(ps[i].0 != ps[ps.len() - 1].0);
            }
        }
    }
}

/// Each entry of `pairs_to_map(ps)` comes from a pair with its tag and value.
pub proof fn lemma_pairs_to_map_value(ps: Seq<TagPair>, k: Seq<char>)
    requires
        pairs_to_map(ps).contains_key(k),
    ensures
        exists|j: int| 0 <= j < ps.len() && ps[j].0 == k && ps[j].1 == pairs_to_map(ps)[k],
    decreases ps.len(),
{
    if ps.len() > 0 {
        if ps.last().0 == k {
            assert(ps[ps.len() - 1].0 == k);
        } else {
            lemma_pairs_to_map_value(ps.drop_last(), k);
            let j = choose|j: int|
                0 <= j < ps.drop_last().len() && ps.drop_last()[j].0 == k && ps.drop_last()[j].1
                    == pairs_to_map(ps.drop_last())[k];
            assert(ps[j] == ps.drop_last()[j]);
        }
    }
}

/// The tags of one file: each tag name at most once, with an optional value.
pub struct XTags {
    entries: Vec<(String, Option<String>)>,
}

impl XTags {
    /// The entries in their stored order, as plain values.
    pub closed spec fn pairs(&self) -> Seq<TagPair> {
        self.entries@.map_values(|e: (String, Option<String>)| pair_view(e))
    }

    /// Each tag is stored once.
    #[verifier::type_invariant]
    pub open spec fn inv(&self) -> bool {
        keys_unique(self.pairs())
    }
}

impl View for XTags {
    type V = TagMap;

    open spec fn view(&self) -> TagMap {
        pairs_to_map(self.pairs())
    }
}

impl XTags {
    /// An empty tag map.
    pub fn new() -> (r: XTags)
        ensures
            r@ == TagMap::empty(),
            r.pairs() == Seq::<TagPair>::empty(),
    {
        let r = XTags { entries: Vec::new() };
        assert(r.pairs() =~= Seq::<TagPair>::empty());
        r
    }

    /// The entries in their stored order.
    pub fn entries(&self) -> (r: &Vec<(String, Option<String>)>)
        ensures
            r@.map_values(|e: (String, Option<String>)| pair_view(e)) == self.pairs(),
    {
        &self.entries
    }

    /// The value stored for `tag`, if the tag is present.
    pub fn get(&self, tag: &str) -> (r: Option<&Option<String>>)
        ensures
            r is Some <==> self@.contains_key(tag@),
            r is Some ==> self@[tag@] == opt_view(*r->Some_0),
    {
        proof {
            use_type_invariant(self);
            lemma_unique_pairs_to_map(self.pairs());
        }
        let key = tag.to_owned();
        let mut i: usize = 0;
        while i < self.entries.len()
            invariant
                i <= self.entries.len(),
                key@ == tag@,
                forall|j: int| 0 <= j < i ==> self.pairs()[j].0 != tag@,
            decreases self.entries.len() - i,
        {
            if self.entries[i].0 == key {
                assert(self.pairs()[i as int] == pair_view(self.entries@[i as int]));
                assert(self.pairs()[i as int].0 == tag@);
                proof {
                    use_type_invariant(self);
                    lemma_unique_pairs_to_map(self.pairs());
                }
                assert(pairs_to_map(self.pairs()).contains_key(self.pairs()[i as int].0));
                return Some(&self.entries[i].1);
            }
            assert(self.pairs()[i as int] == pair_view(self.entries@[i as int]));
            i = i + 1;
        }
        None
    }

    /// Sets the value of `tag`, replacing any earlier value.
    pub fn insert(&mut self, tag: String, value: Option<String>)
        ensures
            final(self)@ == old(self)@.insert(tag@, opt_view(value)),
    {
        let mut taken = XTags::new();
        core::mem::swap(self, &mut taken);
        proof {
            use_type_invariant(&taken);
            lemma_unique_pairs_to_map(taken.pairs());
        }
        let ghost old_pairs = taken.pairs();
        let XTags { mut entries } = taken;
        assert(entries@.map_values(|e: (String, Option<String>)| pair_view(e)) == old_pairs);
        let mut i: usize = 0;
        while i < entries.len()
            invariant
                i <= entries.len(),
                entries@.map_values(|e: (String, Option<String>)| pair_view(e)) == old_pairs,
                old(self)@ == pairs_to_map(old_pairs),
                keys_unique(old_pairs),
                forall|j: int| 0 <= j < i ==> old_pairs[j].0 != tag@,
            decreases entries.len() - i,
        {
            assert(old_pairs[i as int] == pair_view(entries@[i as int]));
            if entries[i].0 == tag {
                assert(old_pairs[i as int].0 == tag@);
                let ghost new_pairs = old_pairs.update(i as int, (tag@, opt_view(value)));
                entries.set(i, (tag, value));
                assert(entries@.map_values(|e: (String, Option<String>)| pair_view(e))
                    =~= new_pairs);
                assert(keys_unique(new_pairs));
                proof {
                    lemma_unique_pairs_to_map(old_pairs);
                    lemma_unique_pairs_to_map(new_pairs);
                    lemma_pairs_to_map_domain(new_pairs);
                    lemma_pairs_to_map_domain(old_pairs);
                    assert(pairs_to_map(new_pairs) =~= pairs_to_map(old_pairs).insert(
                        tag@,
                        opt_view(value),
                    )) by {
                        assert forall|k: Seq<char>| pairs_to_map(new_pairs).contains_key(k)
                            implies pairs_to_map(old_pairs).insert(tag@, opt_view(value))[k]
                            == pairs_to_map(new_pairs)[k] by {
                            let j = choose|j: int| 0 <= j < new_pairs.len() && new_pairs[j].0 == k;
                            assert(pairs_to_map(new_pairs).contains_key(new_pairs[j].0));
                            assert(pairs_to_map(old_pairs).contains_key(old_pairs[j].0));
                            if j != i {
                                assert(old_pairs[j] == new_pairs[j]);
                                assert(old_pairs[j].0 != old_pairs[i as int].0);
                            }
                        }
                        assert forall|k: Seq<char>| #![auto]
                            pairs_to_map(old_pairs).insert(tag@, opt_view(value)).contains_key(k)
                            implies pairs_to_map(new_pairs).contains_key(k) by {
                            if k != tag@ {
                                let j = choose|j: int|
                                    0 <= j < old_pairs.len() && old_pairs[j].0 == k;
                                assert(new_pairs[j].0 == k);
                            } else {
                                assert(new_pairs[i as int].0 == k);
                            }
                        }
                    }
                }
                *self = XTags { entries };
                return;
            }
            i = i + 1;
        }
        let ghost new_pairs = old_pairs.push((tag@, opt_view(value)));
        entries.push((tag, value));
        assert(entries@.map_values(|e: (String, Option<String>)| pair_view(e)) =~= new_pairs);
        assert(new_pairs.drop_last() =~= old_pairs);
        assert(keys_unique(new_pairs));
        *self = XTags { entries };
    }

    /// The number of tags.
    pub fn len(&self) -> (r: usize)
        ensures
            r == self@.dom().len(),
            r == self.pairs().len(),
    {
        proof {
            use_type_invariant(self);
            lemma_unique_pairs_to_map(self.pairs());
        }
        self.entries.len()
    }
}

} // verus!
