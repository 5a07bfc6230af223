//! Renaming tags with a regular expression and a replacement template.
use vstd::prelude::*;

use crate::error::{ErrorView, XTagError};
use crate::pattern::{anchored, regex_replace_all, regex_valid, Pattern};
use crate::tags::{
    lemma_pairs_to_map_domain, lemma_pairs_to_map_value, lemma_unique_pairs_to_map, pair_view,
    pairs_to_map, TagPair, XTags,
};

verus! {

/// The pairs with every tag rewritten by the anchored `find` and `replace`.
pub open spec fn renamed_pairs(ps: Seq<TagPair>, find: Seq<char>, replace: Seq<char>) -> Seq<
    TagPair,
> {
    ps.map_values(|p: TagPair| (regex_replace_all(anchored(find), p.0, replace), p.1))
}

/// Rewrites every tag of `tags` with the pattern `find` (anchored) and the
/// template `replace`, which may name capture groups as `$1` or `$name`.
/// Values are kept; when two tags end up equal, the later one in the stored
/// order wins.
pub fn rename(find: &str, replace: &str, tags: XTags) -> (r: Result<XTags, XTagError>)
    ensures
        r is Ok <==> regex_valid(anchored(find@)),
        r matches Err(e) ==> e@ == ErrorView::Regex(anchored(find@)),
        r matches Ok(m) ==> m@ == pairs_to_map(renamed_pairs(tags.pairs(), find@, replace@)),
        r matches Ok(m) ==> forall|k: Seq<char>| #[trigger]
            tags@.contains_key(k) ==> m@.contains_key(
                regex_replace_all(anchored(find@), k, replace@),
            ),
        r matches Ok(m) ==> forall|k: Seq<char>| #[trigger]
            m@.contains_key(k) ==> exists|old_key: Seq<char>|
                tags@.contains_key(old_key) && regex_replace_all(anchored(find@), old_key, replace@)
                    == k && m@[k] == tags@[old_key],
{
    let re = Pattern::new(find)?;
    proof {
        use_type_invariant(&tags);
        lemma_unique_pairs_to_map(tags.pairs());
    }
    let entries = tags.entries();
    let ghost ps = tags.pairs();
    let ghost goal = renamed_pairs(ps, find@, replace@);
    let mut result = XTags::new();
    let mut i: usize = 0;
    assert(goal.take(0) =~= Seq::<TagPair>::empty());
    while i < entries.len()
        invariant
            i <= entries.len(),
            entries@.map_values(|e: (String, Option<String>)| pair_view(e)) == ps,
            goal == renamed_pairs(ps, find@, replace@),
            re@ == anchored(find@),
            result@ == pairs_to_map(goal.take(i as int)),
        decreases entries.len() - i,
    {
        assert(ps[i as int] == pair_view(entries@[i as int]));
        let key = re.replace_all(entries[i].0.as_str(), replace);
        let value = match &entries[i].1 {
            Some(v) => Some(v.clone()),
            None => None,
        };
        assert(goal.take(i + 1).drop_last() =~= goal.take(i as int));
        result.insert(key, value);
        i = i + 1;
    }
    assert(goal.take(i as int) =~= goal);
    proof {
        let m = result@;
        assert forall|k: Seq<char>| #[trigger] tags@.contains_key(k) implies m.contains_key(
            regex_replace_all(anchored(find@), k, replace@),
        ) by {
            let j = choose|j: int| 0 <= j < ps.len() && ps[j].0 == k;
            lemma_pairs_to_map_domain(goal);
            assert(goal[j].0 == regex_replace_all(anchored(find@), k, replace@));
        }
        assert forall|k: Seq<char>| #[trigger] m.contains_key(k) implies exists|old_key: Seq<char>|
            tags@.contains_key(old_key) && regex_replace_all(anchored(find@), old_key, replace@)
                == k && m[k] == tags@[old_key] by {
            lemma_pairs_to_map_value(goal, k);
            let j = choose|j: int| 0 <= j < goal.len() && goal[j].0 == k && goal[j].1 == m[k];
            assert(tags@.contains_key(ps[j].0));
        }
    }
    Ok(result)
}

} // verus!
