//! The metadata mapping: keys with their values, each key once, kept in the
//! order in which the keys first came.

use vstd::prelude::*;

verus! {

/// The entries of a mapping as mathematical values: key and value, in order.
pub type Entries = Seq<(Seq<char>, Seq<char>)>;

/// The index of the first entry of `es` with key `k`, or the length of `es`
/// where no entry has that key.
pub open spec fn key_index(es: Entries, k: Seq<char>) -> int
    decreases es.len(),
{
    if es.len() == 0 || es[0].0 == k {
        0
    } else {
        1 + key_index(es.drop_first(), k)
    }
}

/// Whether some entry of `es` has key `k`.
pub open spec fn has_key(es: Entries, k: Seq<char>) -> bool {
    key_index(es, k) < es.len()
}

/// The value that `es` holds for `k`.
pub open spec fn lookup(es: Entries, k: Seq<char>) -> Option<Seq<char>> {
    if has_key(es, k) {
        Some(es[key_index(es, k)].1)
    } else {
        None
    }
}

/// Whether no two entries of `es` share a key.
pub open spec fn distinct_keys(es: Entries) -> bool {
    forall|i: int, j: int| 0 <= i < j < es.len() ==> (#[trigger] es[i]).0 != (#[trigger] es[j]).0
}

/// `es` with `v` as the value of `k`: the entry of `k` is overwritten where
/// it stands, and a new key goes to the end.
pub open spec fn put(es: Entries, k: Seq<char>, v: Seq<char>) -> Entries {
    if has_key(es, k) {
        es.update(key_index(es, k), (k, v))
    } else {
        es.push((k, v))
    }
}

/// The mapping that `es` stands for.
pub open spec fn as_map(es: Entries) -> Map<Seq<char>, Seq<char>> {
    Map::new(|k: Seq<char>| has_key(es, k), |k: Seq<char>| es[key_index(es, k)].1)
}

/// `key_index` gives an index within `0..=es.len()`; no earlier entry has the
/// key, and the entry there has it unless the index is the length.
pub proof fn lemma_key_index(es: Entries, k: Seq<char>)
    ensures
        0 <= key_index(es, k) <= es.len(),
        has_key(es, k) ==> es[key_index(es, k)].0 == k,
        forall|j: int| 0 <= j < key_index(es, k) ==> (#[trigger] es[j]).0 != k,
    decreases es.len(),
{
    if es.len() != 0 && es[0].0 != k {
        let t = es.drop_first();
        lemma_key_index(t, k);
        assert forall|j: int| 0 <= j < key_index(es, k) implies (#[trigger] es[j]).0 != k by {
            if j > 0 {
                assert(es[j] == t[j - 1]);
            }
        }
    }
}

/// An index whose entry has key `k`, with no such entry before it, is
/// `key_index(es, k)`; so is the length where no entry has the key.
pub proof fn lemma_key_index_unique(es: Entries, k: Seq<char>, i: int)
    requires
        0 <= i <= es.len(),
        i < es.len() ==> es[i].0 == k,
        forall|j: int| 0 <= j < i ==> (#[trigger] es[j]).0 != k,
    ensures
        key_index(es, k) == i,
{
    lemma_key_index(es, k);
}

/// Where keys are distinct, an entry is found under its own key.
pub proof fn lemma_key_index_of_entry(es: Entries, i: int)
    requires
        distinct_keys(es),
        0 <= i < es.len(),
    ensures
        key_index(es, es[i].0) == i,
        lookup(es, es[i].0) == Some(es[i].1),
{
    lemma_key_index(es, es[i].0);
}

/// Some entry has the key `k` exactly when `has_key` says so.
pub proof fn lemma_has_key(es: Entries, k: Seq<char>)
    ensures
        has_key(es, k) <==> exists|i: int| 0 <= i < es.len() && (#[trigger] es[i]).0 == k,
{
    lemma_key_index(es, k);
}

/// Where keys are distinct, a key has a value exactly where an entry holds
/// the two.
pub proof fn lemma_lookup_is_membership(es: Entries, k: Seq<char>, v: Seq<char>)
    requires
        distinct_keys(es),
    ensures
        lookup(es, k) == Some(v) <==> es.contains((k, v)),
{
    lemma_key_index(es, k);
    if es.contains((k, v)) {
        let i = choose|i: int| 0 <= i < es.len() && es[i] == (k, v);
        lemma_key_index_of_entry(es, i);
    }
    if lookup(es, k) == Some(v) {
        assert(es[key_index(es, k)] == (k, v));
    }
}

/// `put` keeps keys distinct, sets the value of its key and leaves the value
/// of every other key as it was.
pub proof fn lemma_put(es: Entries, k: Seq<char>, v: Seq<char>)
    requires
        distinct_keys(es),
    ensures
        distinct_keys(put(es, k, v)),
        lookup(put(es, k, v), k) == Some(v),
        forall|other: Seq<char>| other != k ==> lookup(put(es, k, v), other) == lookup(es, other),
        put(es, k, v).len() == if has_key(es, k) {
            es.len()
        } else {
            es.len() + 1
        },
        as_map(put(es, k, v)) == as_map(es).insert(k, v),
{
    let r = put(es, k, v);
    let i = key_index(es, k);
    lemma_key_index(es, k);
    assert(distinct_keys(r));
    lemma_key_index_unique(r, k, i);
    assert forall|other: Seq<char>| other != k implies lookup(r, other) == lookup(es, other) by {
        let j = key_index(es, other);
        lemma_key_index(es, other);
        assert forall|m: int| 0 <= m < j implies (#[trigger] r[m]).0 != other by {
            assert(es[m].0 != other);
        }
        lemma_key_index_unique(r, other, if j < es.len() {
            j
        } else {
            r.len() as int
        });
    }
    assert forall|x: Seq<char>| #[trigger] as_map(r).dom().contains(x) == as_map(es).insert(
        k,
        v,
    ).dom().contains(x) by {
        assert(x != k ==> lookup(r, x) == lookup(es, x));
    }
    assert forall|x: Seq<char>| #[trigger] as_map(r).dom().contains(x) implies as_map(r)[x]
        == as_map(es).insert(k, v)[x] by {
        assert(x != k ==> lookup(r, x) == lookup(es, x));
    }
    assert(as_map(r) =~= as_map(es).insert(k, v));
}

/// Entries with distinct keys stand for a mapping with as many keys as there
/// are entries.
pub proof fn lemma_as_map_len(es: Entries)
    requires
        distinct_keys(es),
    ensures
        as_map(es).dom().finite(),
        as_map(es).dom().len() == es.len(),
    decreases es.len(),
{
    if es.len() == 0 {
        assert(as_map(es).dom() =~= Set::<Seq<char>>::empty());
    } else {
        let front = es.drop_last();
        let last = es.last();
        assert(distinct_keys(front)) by {
            assert forall|i: int, j: int| 0 <= i < j < front.len() implies (#[trigger] front[i]).0
                != (#[trigger] front[j]).0 by {
                assert(es[i].0 != es[j].0);
            }
        }
        lemma_as_map_len(front);
        lemma_key_index(front, last.0);
        assert(!has_key(front, last.0)) by {
            if has_key(front, last.0) {
                let i = key_index(front, last.0);
                assert(es[i].0 != es[es.len() - 1].0);
            }
        }
        assert(put(front, last.0, last.1) == es);
        lemma_put(front, last.0, last.1);
        assert(as_map(es).dom() =~= as_map(front).dom().insert(last.0));
    }
}

/// A metadata mapping: each key once with its value, in the order in which
/// the keys first came.
#[derive(Debug)]
pub struct MetadataMap {
    entries: Vec<(String, String)>,
}

impl View for MetadataMap {
    type V = Map<Seq<char>, Seq<char>>;

    /// The mapping from keys to values.
    open spec fn view(&self) -> Map<Seq<char>, Seq<char>> {
        as_map(self.entries())
    }
}

impl MetadataMap {
    /// The entries in order, as mathematical values.
    pub closed spec fn entries(&self) -> Entries {
        Seq::new(self.entries@.len(), |i: int| (self.entries@[i].0@, self.entries@[i].1@))
    }

    #[verifier::type_invariant]
    spec fn keys_are_distinct(&self) -> bool {
        distinct_keys(self.entries())
    }

    /// A mapping without entries.
    pub fn new() -> (m: MetadataMap)
        ensures
            m.entries() == Entries::empty(),
    {
        let m = MetadataMap { entries: Vec::new() };
        assert(m.entries() =~= Entries::empty());
        m
    }

    /// The number of keys.
    pub fn len(&self) -> (n: usize)
        ensures
            n == self.entries().len(),
            n == self@.dom().len(),
            distinct_keys(self.entries()),
    {
        proof {
            use_type_invariant(self);
            lemma_as_map_len(self.entries());
        }
        self.entries.len()
    }

    /// Whether the mapping has no key.
    pub fn is_empty(&self) -> (b: bool)
        ensures
            b == (self.entries().len() == 0),
            b == (self@ == Map::<Seq<char>, Seq<char>>::empty()),
    {
        proof {
            if self.entries().len() == 0 {
                assert(self@ =~= Map::<Seq<char>, Seq<char>>::empty());
            } else {
                lemma_key_index(self.entries(), self.entries()[0].0);
                assert(self@.dom().contains(self.entries()[0].0));
            }
        }
        self.entries.len() == 0
    }

    /// The key of the entry at index `i`.
    pub fn key_at(&self, i: usize) -> (k: &String)
        requires
            i < self.entries().len(),
        ensures
            k@ == self.entries()[i as int].0,
    {
        &self.entries[i].0
    }

    /// The value of the entry at index `i`.
    pub fn value_at(&self, i: usize) -> (v: &String)
        requires
            i < self.entries().len(),
        ensures
            v@ == self.entries()[i as int].1,
    {
        &self.entries[i].1
    }

    /// The index of the entry with key `key`, or the number of entries.
    fn find(&self, key: &String) -> (i: usize)
        ensures
            i == key_index(self.entries(), key@),
            i <= self.entries().len(),
    {
        let ghost es = self.entries();
        let mut i: usize = 0;
        while i < self.entries.len() && !(self.entries[i].0 == *key)
            invariant
                i <= self.entries@.len(),
                es == self.entries(),
                forall|j: int| 0 <= j < i ==> (#[trigger] es[j]).0 != key@,
            decreases self.entries@.len() - i,
        {
            i += 1;
        }
        proof {
            lemma_key_index_unique(es, key@, i as int);
        }
        i
    }

    /// Whether the mapping has the key `key`.
    pub fn contains_key(&self, key: &str) -> (b: bool)
        ensures
            b == has_key(self.entries(), key@),
            b == self@.dom().contains(key@),
    {
        let k = key.to_owned();
        self.find(&k) < self.entries.len()
    }

    /// The value of `key`, if the mapping has that key.
    pub fn get(&self, key: &str) -> (r: Option<&String>)
        ensures
            match r {
                Some(v) => lookup(self.entries(), key@) == Some(v@),
                None => lookup(self.entries(), key@) is None,
            },
            match r {
                Some(v) => self@.dom().contains(key@) && self@[key@] == v@,
                None => !self@.dom().contains(key@),
            },
    {
        let k = key.to_owned();
        let i = self.find(&k);
        if i < self.entries.len() {
            Some(&self.entries[i].1)
        } else {
            None
        }
    }

    /// Sets the value of `key`, overwriting the value that the key had, and
    /// returns that earlier value.
    pub fn insert(&mut self, key: String, value: String) -> (earlier: Option<String>)
        ensures
            final(self).entries() == put(old(self).entries(), key@, value@),
            final(self)@ == old(self)@.insert(key@, value@),
            match earlier {
                Some(v) => lookup(old(self).entries(), key@) == Some(v@),
                None => lookup(old(self).entries(), key@) is None,
            },
    {
        proof {
            use_type_invariant(&*self);
            lemma_put(self.entries(), key@, value@);
        }
        let i = self.find(&key);
        let ghost target = put(self.entries(), key@, value@);
        let mut entries: Vec<(String, String)> = Vec::new();
        core::mem::swap(&mut self.entries, &mut entries);
        let earlier = if i < entries.len() {
            let mut entry = (key, value);
            entries.set_and_swap(i, &mut entry);
            Some(entry.1)
        } else {
            entries.push((key, value));
            None
        };
        assert(Seq::new(entries@.len(), |j: int| (entries@[j].0@, entries@[j].1@)) =~= target);
        core::mem::swap(&mut self.entries, &mut entries);
        earlier
    }
}

} // verus!