//! A map from text to text, kept as a list of entries with distinct keys.

use vstd::prelude::*;
use crate::text::str_eq;

verus! {

/// An entry as the contracts see it: the characters of its key and of its value.
pub type Pair = (Seq<char>, Seq<char>);

/// Whether some entry has the key `key`.
pub open spec fn has_key(pairs: Seq<Pair>, key: Seq<char>) -> bool {
    exists|i: int| 0 <= i < pairs.len() && (#[trigger] pairs[i]).0 == key
}

/// The index of an entry with the key `key`.
pub open spec fn index_of(pairs: Seq<Pair>, key: Seq<char>) -> int {
    choose|i: int| 0 <= i < pairs.len() && (#[trigger] pairs[i]).0 == key
}

/// Whether no two entries share a key.
pub open spec fn distinct_keys(pairs: Seq<Pair>) -> bool {
    forall|i: int, j: int|
        0 <= i < j < pairs.len() ==> (#[trigger] pairs[i]).0 != (#[trigger] pairs[j]).0
}

/// The map that a list of entries stands for.
pub open spec fn to_map(pairs: Seq<Pair>) -> Map<Seq<char>, Seq<char>> {
    Map::new(|key: Seq<char>| has_key(pairs, key), |key: Seq<char>| pairs[index_of(pairs, key)].1)
}

/// Whether `pairs` lists `map`: every entry is a pair of the map, every key of
/// the map has an entry, and no key has two.
pub open spec fn lists(pairs: Seq<Pair>, map: Map<Seq<char>, Seq<char>>) -> bool {
    &&& distinct_keys(pairs)
    &&& forall|i: int|
        0 <= i < pairs.len() ==> map.contains_pair((#[trigger] pairs[i]).0, pairs[i].1)
    &&& forall|key: Seq<char>| map.contains_key(key) ==> has_key(pairs, key)
}

/// A listing of borrowed keys and values as the contracts see it.
pub open spec fn pairs_of<'a>(listing: Seq<(&'a str, &'a str)>) -> Seq<Pair> {
    listing.map_values(|entry: (&str, &str)| (entry.0@, entry.1@))
}

/// With distinct keys, each entry is a pair of the map.
pub proof fn lemma_entry(pairs: Seq<Pair>, i: int)
    requires
        distinct_keys(pairs),
        0 <= i < pairs.len(),
    ensures
        has_key(pairs, pairs[i].0),
        index_of(pairs, pairs[i].0) == i,
        to_map(pairs).contains_pair(pairs[i].0, pairs[i].1),
{
    let j = index_of(pairs, pairs[i].0);
    if j < i {
        assert(pairs[j].0 != pairs[i].0);
    } else if i < j {
        assert(pairs[i].0 != pairs[j].0);
    }
}

/// A list with distinct keys lists its own map.
pub proof fn lemma_lists_own_map(pairs: Seq<Pair>)
    requires
        distinct_keys(pairs),
    ensures
        lists(pairs, to_map(pairs)),
{
    assert forall|i: int| 0 <= i < pairs.len() implies to_map(pairs).contains_pair(
        (#[trigger] pairs[i]).0,
        pairs[i].1,
    ) by {
        lemma_entry(pairs, i);
    }
}

/// Appending an entry with a new key inserts it into the map.
pub proof fn lemma_push(pairs: Seq<Pair>, key: Seq<char>, value: Seq<char>)
    requires
        distinct_keys(pairs),
        !has_key(pairs, key),
    ensures
        distinct_keys(pairs.push((key, value))),
        to_map(pairs.push((key, value))) == to_map(pairs).insert(key, value),
{
    let more = pairs.push((key, value));
    assert forall|i: int, j: int| 0 <= i < j < more.len() implies (#[trigger] more[i]).0 != (
    #[trigger] more[j]).0 by {
        if j < pairs.len() {
            assert(pairs[i].0 != pairs[j].0);
        } else {
            assert(pairs[i].0 != key);
        }
    }
    let last = pairs.len() as int;
    assert(more[last] == (key, value));
    assert forall|k: Seq<char>| to_map(more).contains_key(k) == to_map(pairs).insert(
        key,
        value,
    ).contains_key(k) by {
        if has_key(more, k) {
            let i = index_of(more, k);
            if i < last {
                assert(pairs[i].0 == k);
            }
        }
        if has_key(pairs, k) {
            let i = index_of(pairs, k);
            assert(more[i].0 == k);
        }
    }
    assert forall|k: Seq<char>| to_map(more).contains_key(k) implies to_map(more)[k]
        == to_map(pairs).insert(key, value)[k] by {
        let i = index_of(more, k);
        lemma_entry(more, i);
        if i < last {
            assert(pairs[i] == more[i]);
            lemma_entry(pairs, i);
        }
    }
    assert(to_map(more) =~= to_map(pairs).insert(key, value));
}

/// Replacing the value of an entry replaces it in the map.
pub proof fn lemma_replace(pairs: Seq<Pair>, at: int, value: Seq<char>)
    requires
        distinct_keys(pairs),
        0 <= at < pairs.len(),
    ensures
        distinct_keys(pairs.update(at, (pairs[at].0, value))),
        to_map(pairs.update(at, (pairs[at].0, value))) == to_map(pairs).insert(
            pairs[at].0,
            value,
        ),
{
    let key = pairs[at].0;
    let changed = pairs.update(at, (key, value));
    assert forall|i: int, j: int| 0 <= i < j < changed.len() implies (#[trigger] changed[i]).0 != (
    #[trigger] changed[j]).0 by {
        assert(changed[i].0 == pairs[i].0 && changed[j].0 == pairs[j].0);
        assert(pairs[i].0 != pairs[j].0);
    }
    assert forall|k: Seq<char>| to_map(changed).contains_key(k) == to_map(pairs).insert(
        key,
        value,
    ).contains_key(k) by {
        if has_key(changed, k) {
            let i = index_of(changed, k);
            assert(pairs[i].0 == k);
        }
        if has_key(pairs, k) {
            let i = index_of(pairs, k);
            assert(changed[i].0 == k);
        }
        assert(changed[at].0 == key);
    }
    assert forall|k: Seq<char>| to_map(changed).contains_key(k) implies to_map(changed)[k]
        == to_map(pairs).insert(key, value)[k] by {
        let i = index_of(changed, k);
        lemma_entry(changed, i);
        if i != at {
            assert(pairs[i] == changed[i]);
            lemma_entry(pairs, i);
        }
    }
    assert(to_map(changed) =~= to_map(pairs).insert(key, value));
}

/// A map from text to text. No key occurs twice.
#[derive(Debug)]
pub struct StrMap {
    entries: Vec<(String, String)>,
}

impl View for StrMap {
    type V = Map<Seq<char>, Seq<char>>;

    closed spec fn view(&self) -> Map<Seq<char>, Seq<char>> {
        to_map(self.pairs())
    }
}

impl Clone for StrMap {
    fn clone(&self) -> (map: StrMap)
        ensures
            map@ == self@,
    {
        let mut map = StrMap::new();
        map.extend(self);
        assert(map@ =~= self@);
        map
    }
}

impl Default for StrMap {
    fn default() -> (map: StrMap)
        ensures
            map@ == Map::<Seq<char>, Seq<char>>::empty(),
    {
        StrMap::new()
    }
}

impl StrMap {
    /// The entries, in the order in which they are kept.
    spec fn pairs(&self) -> Seq<Pair> {
        self.entries@.map_values(|entry: (String, String)| (entry.0@, entry.1@))
    }

    #[verifier::type_invariant]
    spec fn well_formed(&self) -> bool {
        distinct_keys(self.pairs())
    }

    /// The map without entries.
    pub fn new() -> (map: StrMap)
        ensures
            map@ == Map::<Seq<char>, Seq<char>>::empty(),
    {
        let map = StrMap { entries: Vec::new() };
        assert(map@ =~= Map::<Seq<char>, Seq<char>>::empty());
        map
    }

    /// Index of the entry with the given key.
    fn position(&self, key: &str) -> (at: Option<usize>)
        ensures
            match at {
                Some(i) => i < self.pairs().len() && self.pairs()[i as int].0 == key@,
                None => !has_key(self.pairs(), key@),
            },
    {
        let mut i: usize = 0;
        while i < self.entries.len()
            invariant
                i <= self.entries.len(),
                forall|j: int| 0 <= j < i ==> (#[trigger] self.pairs()[j]).0 != key@,
            decreases self.entries.len() - i,
        {
            if str_eq(self.entries[i].0.as_str(), key) {
                return Some(i);
            }
            i += 1;
        }
        None
    }

    /// The value that `key` maps to.
    pub fn get(&self, key: &str) -> (value: Option<&str>)
        ensures
            match value {
                Some(text) => self@.contains_pair(key@, text@),
                None => !self@.contains_key(key@),
            },
    {
        proof {
            use_type_invariant(self);
        }
        match self.position(key) {
            Some(i) => {
                proof {
                    lemma_entry(self.pairs(), i as int);
                }
                Some(self.entries[i].1.as_str())
            },
            None => None,
        }
    }

    /// Maps `key` to `value`, in place of what it mapped to before.
    pub fn insert(&mut self, key: String, value: String)
        ensures
            final(self)@ == old(self)@.insert(key@, value@),
    {
        proof {
            use_type_invariant(&*self);
        }
        let ghost before = self.pairs();
        let at = self.position(key.as_str());
        // the entries leave the map while they change, so that it holds
        // distinct keys at every step
        let mut entries: Vec<(String, String)> = Vec::new();
        core::mem::swap(&mut entries, &mut self.entries);
        match at {
            Some(i) => {
                proof {
                    lemma_replace(before, i as int, value@);
                }
                entries.set(i, (key, value));
            },
            None => {
                proof {
                    lemma_push(before, key@, value@);
                }
                entries.push((key, value));
            },
        }
        let ghost after = entries@.map_values(|entry: (String, String)| (entry.0@, entry.1@));
        proof {
            match at {
                Some(i) => {
                    assert(after =~= before.update(i as int, (before[i as int].0, value@)));
                },
                None => {
                    assert(after =~= before.push((key@, value@)));
                },
            }
        }
        core::mem::swap(&mut entries, &mut self.entries);
    }

    /// Takes over every entry of `other`; where both maps have a key, the value
    /// of `other` stays.
    pub fn extend(&mut self, other: &StrMap)
        ensures
            final(self)@ == old(self)@.union_prefer_right(other@),
    {
        proof {
            use_type_invariant(other);
        }
        let ghost theirs = other.pairs();
        let mut i: usize = 0;
        assert(theirs.take(0) =~= Seq::<Pair>::empty());
        assert(self@.union_prefer_right(to_map(theirs.take(0))) =~= self@);
        while i < other.entries.len()
            invariant
                i <= other.entries.len(),
                theirs == other.pairs(),
                distinct_keys(theirs),
                self@ == old(self)@.union_prefer_right(to_map(theirs.take(i as int))),
            decreases other.entries.len() - i,
        {
            let key = other.entries[i].0.clone();
            let value = other.entries[i].1.clone();
            proof {
                let done = theirs.take(i as int);
                assert(theirs.take(i + 1) =~= done.push(theirs[i as int]));
                assert(distinct_keys(done)) by {
                    assert forall|a: int, b: int| 0 <= a < b < done.len() implies (
                    #[trigger] done[a]).0 != (#[trigger] done[b]).0 by {
                        assert(theirs[a].0 != theirs[b].0);
                    }
                }
                assert(!has_key(done, theirs[i as int].0)) by {
                    if has_key(done, theirs[i as int].0) {
                        let a = index_of(done, theirs[i as int].0);
                        assert(theirs[a].0 != theirs[i as int].0);
                    }
                }
                lemma_push(done, theirs[i as int].0, theirs[i as int].1);
                assert(old(self)@.union_prefer_right(to_map(done)).insert(
                    theirs[i as int].0,
                    theirs[i as int].1,
                ) =~= old(self)@.union_prefer_right(
                    to_map(done).insert(theirs[i as int].0, theirs[i as int].1),
                ));
            }
            self.insert(key, value);
            i += 1;
        }
        assert(theirs.take(other.entries.len() as int) =~= theirs);
    }

    /// Every entry once, as key and value.
    pub fn entries(&self) -> (listing: Vec<(&str, &str)>)
        ensures
            lists(pairs_of(listing@), self@),
    {
        proof {
            use_type_invariant(self);
            lemma_lists_own_map(self.pairs());
        }
        let mut listing: Vec<(&str, &str)> = Vec::new();
        let mut i: usize = 0;
        while i < self.entries.len()
            invariant
                i <= self.entries.len(),
                pairs_of(listing@) == self.pairs().take(i as int),
            decreases self.entries.len() - i,
        {
            let ghost before = pairs_of(listing@);
            listing.push((self.entries[i].0.as_str(), self.entries[i].1.as_str()));
            assert(pairs_of(listing@) =~= before.push(self.pairs()[i as int]));
            assert(self.pairs().take(i + 1) =~= self.pairs().take(i as int).push(
                self.pairs()[i as int],
            ));
            i += 1;
        }
        assert(self.pairs().take(self.entries.len() as int) =~= self.pairs());
        listing
    }
}

} // verus!
