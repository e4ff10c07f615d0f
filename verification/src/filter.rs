//! The allow-list: which keys of a mapping may be rendered.

use crate::map::{distinct_keys, has_key, lemma_has_key, Entries, MetadataMap};
use vstd::prelude::*;

verus! {

/// The keys that a list of tags names.
pub open spec fn key_set(tags: Seq<String>) -> Set<Seq<char>> {
    Set::new(|k: Seq<char>| exists|i: int| 0 <= i < tags.len() && (#[trigger] tags[i])@ == k)
}

/// The entries of `es` whose key is in `keys`, in their order.
pub open spec fn kept(es: Entries, keys: Set<Seq<char>>) -> Entries
    decreases es.len(),
{
    if es.len() == 0 {
        Entries::empty()
    } else if keys.contains(es.last().0) {
        kept(es.drop_last(), keys).push(es.last())
    } else {
        kept(es.drop_last(), keys)
    }
}

/// The entries of `es` that the allow-list lets through: all of them where
/// there is no list.
pub open spec fn permitted(es: Entries, allow: Option<Set<Seq<char>>>) -> Entries {
    match allow {
        Some(keys) => kept(es, keys),
        None => es,
    }
}

/// Every entry of `kept(es, keys)` is an entry of `es` with its key in
/// `keys`, and every such entry of `es` is kept.
pub proof fn lemma_kept_entries(es: Entries, keys: Set<Seq<char>>)
    ensures
        kept(es, keys).len() <= es.len(),
        forall|e: (Seq<char>, Seq<char>)| #[trigger]
            kept(es, keys).contains(e) <==> es.contains(e) && keys.contains(e.0),
    decreases es.len(),
{
    if es.len() > 0 {
        let front = es.drop_last();
        lemma_kept_entries(front, keys);
        assert forall|e: (Seq<char>, Seq<char>)| #[trigger]
            kept(es, keys).contains(e) <==> es.contains(e) && keys.contains(e.0) by {
            if kept(es, keys).contains(e) {
                let i = choose|i: int| 0 <= i < kept(es, keys).len() && kept(es, keys)[i] == e;
                if i < kept(front, keys).len() {
                    assert(kept(front, keys).contains(e));
                    let j = choose|j: int| 0 <= j < front.len() && front[j] == e;
                    assert(es[j] == e);
                } else {
                    assert(es[es.len() - 1] == e);
                }
            }
            if es.contains(e) && keys.contains(e.0) {
                let j = choose|j: int| 0 <= j < es.len() && es[j] == e;
                if j < front.len() {
                    assert(front[j] == e);
                    assert(kept(front, keys).contains(e));
                    let i = choose|i: int| 0 <= i < kept(front, keys).len() && kept(front, keys)[i]
                        == e;
                    assert(kept(es, keys)[i] == e);
                } else {
                    assert(kept(es, keys)[kept(es, keys).len() - 1] == e);
                }
            }
        }
    }
}

/// Filtering keeps keys distinct.
pub proof fn lemma_kept_distinct(es: Entries, keys: Set<Seq<char>>)
    requires
        distinct_keys(es),
    ensures
        distinct_keys(kept(es, keys)),
    decreases es.len(),
{
    if es.len() > 0 {
        let front = es.drop_last();
        assert(distinct_keys(front)) by {
            assert forall|i: int, j: int| 0 <= i < j < front.len() implies (#[trigger] front[i]).0
                != (#[trigger] front[j]).0 by {
                assert(es[i].0 != es[j].0);
            }
        }
        lemma_kept_distinct(front, keys);
        lemma_kept_entries(front, keys);
        if keys.contains(es.last().0) {
            let r = kept(es, keys);
            assert forall|i: int, j: int| 0 <= i < j < r.len() implies (#[trigger] r[i]).0 != (
            #[trigger] r[j]).0 by {
                if j == r.len() - 1 {
                    assert(kept(front, keys).contains(r[i]));
                    let m = choose|m: int| 0 <= m < front.len() && front[m] == r[i];
                    assert(es[m].0 != es[es.len() - 1].0);
                } else {
                    assert(kept(front, keys)[i].0 != kept(front, keys)[j].0);
                }
            }
        }
    }
}

/// Whether `key` is one of `tags`.
pub fn is_listed(tags: &Vec<String>, key: &String) -> (b: bool)
    ensures
        b == key_set(tags@).contains(key@),
{
    let mut i: usize = 0;
    while i < tags.len()
        invariant
            i <= tags.len(),
            forall|j: int| 0 <= j < i ==> (#[trigger] tags@[j])@ != key@,
        decreases tags.len() - i,
    {
        if tags[i] == *key {
            return true;
        }
        i += 1;
    }
    false
}

/// Restricts a mapping to the keys of the allow-list. Without a list the
/// mapping comes back as it is; values are never changed.
pub fn filter_tags(metadata: MetadataMap, valid_tags: &Option<Vec<String>>) -> (r: MetadataMap)
    ensures
        r.entries() == permitted(
            metadata.entries(),
            match valid_tags {
                Some(tags) => Some(key_set(tags@)),
                None => None,
            },
        ),
{
    match valid_tags {
        None => metadata,
        Some(tags) => {
            let ghost es = metadata.entries();
            let ghost keys = key_set(tags@);
            let n = metadata.len();
            let mut r = MetadataMap::new();
            let mut i: usize = 0;
            while i < n
                invariant
                    i <= n,
                    n == es.len(),
                    es == metadata.entries(),
                    keys == key_set(tags@),
                    distinct_keys(es),
                    r.entries() == kept(es.take(i as int), keys),
                decreases n - i,
            {
                let key = metadata.key_at(i);
                proof {
                    let front = es.take(i as int);
                    assert(es.take(i + 1).drop_last() == front);
                    assert(es.take(i + 1).last() == es[i as int]);
                    lemma_kept_entries(front, keys);
                    lemma_has_key(kept(front, keys), key@);
                    if has_key(kept(front, keys), key@) {
                        let m = choose|m: int|
                            0 <= m < kept(front, keys).len() && (#[trigger] kept(front, keys)[m]).0
                                == key@;
                        assert(kept(front, keys).contains(kept(front, keys)[m]));
                        let j = choose|j: int| 0 <= j < front.len() && front[j] == kept(
                            front,
                            keys,
                        )[m];
                        assert(es[j].0 != es[i as int].0);
                    }
                }
                if is_listed(tags, key) {
                    r.insert(key.clone(), metadata.value_at(i).clone());
                }
                i += 1;
            }
            assert(es.take(n as int) == es);
            r
        },
    }
}

} // verus!
