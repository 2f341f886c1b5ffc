//! String-to-string parameter maps.
//!
//! A [`ParamMap`] keeps its entries in insertion order, one entry per key.
//! Its view is the mathematical map from key to value; the order of entries
//! is exposed separately because stages that walk a map must do so in a
//! reproducible order.

use vstd::prelude::*;
use crate::text;

verus! {

/// Mathematical content of a list of key/value pairs.
pub open spec fn pairs_view(pairs: Seq<(String, String)>) -> Seq<(Seq<char>, Seq<char>)> {
    pairs.map_values(|p: (String, String)| (p.0@, p.1@))
}

/// The map that a list of pairs denotes; a later pair overrides an earlier
/// one with the same key.
pub open spec fn map_of(pairs: Seq<(Seq<char>, Seq<char>)>) -> Map<Seq<char>, Seq<char>>
    decreases pairs.len(),
{
    if pairs.len() == 0 {
        Map::empty()
    } else {
        map_of(pairs.drop_last()).insert(pairs.last().0, pairs.last().1)
    }
}

/// No key occurs twice in `pairs`.
pub open spec fn distinct_keys(pairs: Seq<(Seq<char>, Seq<char>)>) -> bool {
    forall|i: int, j: int| 0 <= i < j < pairs.len() ==> pairs[i].0 != pairs[j].0
}

/// Whether some pair of `pairs` has the key `key`.
pub open spec fn has_key(pairs: Seq<(Seq<char>, Seq<char>)>, key: Seq<char>) -> bool {
    exists|i: int| 0 <= i < pairs.len() && #[trigger] pairs[i].0 == key
}

/// The entries of `m` whose key begins with `prefix`, with the prefix taken
/// off each key.
pub open spec fn strip_prefix_map(m: Map<Seq<char>, Seq<char>>, prefix: Seq<char>) -> Map<
    Seq<char>,
    Seq<char>,
> {
    Map::new(|k: Seq<char>| m.contains_key(prefix + k), |k: Seq<char>| m[prefix + k])
}

/// List of pairs after `key` is set to `value`: the pair with that key is
/// overwritten in place, or a new pair is appended.
pub open spec fn set_pair(
    pairs: Seq<(Seq<char>, Seq<char>)>,
    key: Seq<char>,
    value: Seq<char>,
) -> Seq<(Seq<char>, Seq<char>)> {
    if has_key(pairs, key) {
        let i = choose|i: int| 0 <= i < pairs.len() && #[trigger] pairs[i].0 == key;
        pairs.update(i, (key, value))
    } else {
        pairs.push((key, value))
    }
}

/// A pair appended to the list is an insertion into the map.
pub proof fn lemma_map_of_push(pairs: Seq<(Seq<char>, Seq<char>)>, key: Seq<char>, value: Seq<char>)
    ensures
        map_of(pairs.push((key, value))) == map_of(pairs).insert(key, value),
{
    assert(pairs.push((key, value)).drop_last() =~= pairs);
}

/// The keys of the map are the keys of the pairs.
pub proof fn lemma_map_of_keys(pairs: Seq<(Seq<char>, Seq<char>)>, key: Seq<char>)
    ensures
        map_of(pairs).contains_key(key) <==> has_key(pairs, key),
    decreases pairs.len(),
{
    if pairs.len() > 0 {
        let front = pairs.drop_last();
        lemma_map_of_keys(front, key);
        if has_key(front, key) {
            let i = choose|i: int| 0 <= i < front.len() && #[trigger] front[i].0 == key;
            assert(pairs[i].0 == key);
        }
        if pairs.last().0 == key {
            assert(pairs[pairs.len() - 1].0 == key);
        }
        if has_key(pairs, key) {
            let i = choose|i: int| 0 <= i < pairs.len() && #[trigger] pairs[i].0 == key;
            if i < front.len() {
                assert(front[i].0 == key);
            }
        }
    }
}

/// Where no key occurs twice, each pair gives the value of its key.
pub proof fn lemma_map_of_value(pairs: Seq<(Seq<char>, Seq<char>)>, i: int)
    requires
        distinct_keys(pairs),
        0 <= i < pairs.len(),
    ensures
        map_of(pairs).contains_key(pairs[i].0),
        map_of(pairs)[pairs[i].0] == pairs[i].1,
    decreases pairs.len(),
{
    let front = pairs.drop_last();
    if i < pairs.len() - 1 {
        assert(distinct_keys(front));
        lemma_map_of_value(front, i);
        assert(front[i] == pairs[i]);
    }
}

/// Where no key occurs twice, overwriting the value of a pair in place
/// overwrites the value of its key in the map.
pub proof fn lemma_map_of_update(pairs: Seq<(Seq<char>, Seq<char>)>, i: int, value: Seq<char>)
    requires
        distinct_keys(pairs),
        0 <= i < pairs.len(),
    ensures
        distinct_keys(pairs.update(i, (pairs[i].0, value))),
        map_of(pairs.update(i, (pairs[i].0, value))) == map_of(pairs).insert(pairs[i].0, value),
    decreases pairs.len(),
{
    let key = pairs[i].0;
    let after = pairs.update(i, (key, value));
    let front = pairs.drop_last();
    assert(distinct_keys(after));
    if i == pairs.len() - 1 {
        assert(after.drop_last() =~= front);
        assert(map_of(after) =~= map_of(pairs).insert(key, value));
    } else {
        assert(distinct_keys(front));
        lemma_map_of_update(front, i, value);
        assert(after.drop_last() =~= front.update(i, (key, value)));
        assert(after.last() == pairs.last());
        assert(pairs.last().0 != key);
        assert(map_of(after) =~= map_of(pairs).insert(key, value));
    }
}

/// Where no key occurs twice, the map has as many entries as the list has
/// pairs.
pub proof fn lemma_map_of_size(pairs: Seq<(Seq<char>, Seq<char>)>)
    requires
        distinct_keys(pairs),
    ensures
        map_of(pairs).dom().finite(),
        map_of(pairs).dom().len() == pairs.len(),
    decreases pairs.len(),
{
    if pairs.len() > 0 {
        let front = pairs.drop_last();
        assert(distinct_keys(front));
        lemma_map_of_size(front);
        lemma_map_of_keys(front, pairs.last().0);
        if has_key(front, pairs.last().0) {
            let i = choose|i: int| 0 <= i < front.len() && #[trigger] front[i].0 == pairs.last().0;
            assert(pairs[i].0 == pairs[pairs.len() - 1].0);
        }
    }
}

/// An owned copy of `pairs`, pair by pair.
pub fn copy_pairs(pairs: &Vec<(String, String)>) -> (out: Vec<(String, String)>)
    ensures
        pairs_view(out@) == pairs_view(pairs@),
{
    let mut out: Vec<(String, String)> = Vec::new();
    let mut i: usize = 0;
    while i < pairs.len()
        invariant
            i <= pairs.len(),
            pairs_view(out@) == pairs_view(pairs@).take(i as int),
        decreases pairs.len() - i,
    {
        let ghost before = pairs_view(out@);
        out.push((pairs[i].0.clone(), pairs[i].1.clone()));
        assert(pairs_view(out@) =~= before.push((pairs@[i as int].0@, pairs@[i as int].1@)));
        assert(pairs_view(out@) =~= pairs_view(pairs@).take(i as int + 1));
        i += 1;
    }
    assert(pairs_view(pairs@).take(i as int) =~= pairs_view(pairs@));
    out
}

/// A string-to-string map with a reproducible order of entries.
#[derive(Debug)]
pub struct ParamMap {
    entries: Vec<(String, String)>,
}

impl View for ParamMap {
    type V = Map<Seq<char>, Seq<char>>;

    open spec fn view(&self) -> Map<Seq<char>, Seq<char>> {
        map_of(self.entries())
    }
}

impl ParamMap {
    /// The entries in the order in which their keys were first inserted.
    pub closed spec fn entries(&self) -> Seq<(Seq<char>, Seq<char>)> {
        pairs_view(self.entries@)
    }

    #[verifier::type_invariant]
    spec fn well_formed(&self) -> bool {
        distinct_keys(pairs_view(self.entries@))
    }

    /// The empty map.
    pub fn new() -> (m: ParamMap)
        ensures
            m@ == Map::<Seq<char>, Seq<char>>::empty(),
            m.entries() == Seq::<(Seq<char>, Seq<char>)>::empty(),
    {
        let m = ParamMap { entries: Vec::new() };
        assert(pairs_view(m.entries@) =~= Seq::empty());
        m
    }

    /// Number of entries.
    pub fn len(&self) -> (n: usize)
        ensures
            n == self.entries().len(),
            n == self@.dom().len(),
    {
        proof {
            use_type_invariant(self);
            lemma_map_of_size(self.entries());
        }
        self.entries.len()
    }

    /// Whether the map has no entry.
    pub fn is_empty(&self) -> (b: bool)
        ensures
            b == (self.entries().len() == 0),
            b == (self@ == Map::<Seq<char>, Seq<char>>::empty()),
    {
        proof {
            use_type_invariant(self);
            lemma_map_of_size(self.entries());
            if self.entries().len() == 0 {
                assert(self@ =~= Map::empty());
            }
        }
        self.entries.len() == 0
    }

    fn position(&self, key: &str) -> (pos: Option<usize>)
        ensures
            pos is Some <==> has_key(self.entries(), key@),
            pos matches Some(i) ==> i < self.entries().len() && self.entries()[i as int].0 == key@,
    {
        let wanted = key.to_owned();
        let mut i: usize = 0;
        while i < self.entries.len()
            invariant
                i <= self.entries.len(),
                wanted@ == key@,
                forall|k: int| 0 <= k < i ==> (#[trigger] pairs_view(self.entries@)[k]).0 != key@,
            decreases self.entries.len() - i,
        {
            if self.entries[i].0 == wanted {
                assert(pairs_view(self.entries@)[i as int].0 == key@);
                return Some(i);
            }
            i += 1;
        }
        None
    }

    /// Whether `key` has a value.
    pub fn contains_key(&self, key: &str) -> (b: bool)
        ensures
            b == self@.contains_key(key@),
    {
        proof {
            lemma_map_of_keys(self.entries(), key@);
        }
        self.position(key).is_some()
    }

    /// The value of `key`.
    pub fn get(&self, key: &str) -> (value: Option<&String>)
        ensures
            value is Some <==> self@.contains_key(key@),
            value matches Some(v) ==> v@ == self@[key@],
    {
        proof {
            use_type_invariant(self);
            lemma_map_of_keys(self.entries(), key@);
        }
        match self.position(key) {
            Some(i) => {
                proof {
                    lemma_map_of_value(self.entries(), i as int);
                }
                Some(&self.entries[i].1)
            },
            None => None,
        }
    }

    /// Sets `key` to `value` and returns the value it had before.
    pub fn insert(&mut self, key: String, value: String) -> (previous: Option<String>)
        ensures
            final(self)@ == old(self)@.insert(key@, value@),
            final(self).entries() == set_pair(old(self).entries(), key@, value@),
            previous is Some <==> old(self)@.contains_key(key@),
            previous matches Some(p) ==> p@ == old(self)@[key@],
    {
        proof {
            use_type_invariant(&*self);
            lemma_map_of_keys(self.entries(), key@);
        }
        let ghost before = self.entries();
        match self.position(key.as_str()) {
            Some(i) => {
                let previous = self.entries[i].1.clone();
                proof {
                    lemma_map_of_value(before, i as int);
                    lemma_map_of_update(before, i as int, value@);
                    let c = choose|c: int| 0 <= c < before.len() && #[trigger] before[c].0 == key@;
                    assert(c == i);
                }
                let mut entries: Vec<(String, String)> = Vec::new();
                assert(pairs_view(entries@) =~= Seq::empty());
                std::mem::swap(&mut entries, &mut self.entries);
                entries.set(i, (key, value));
                assert(pairs_view(entries@) =~= before.update(i as int, (key@, value@)));
                self.entries = entries;
                Some(previous)
            },
            None => {
                proof {
                    lemma_map_of_push(before, key@, value@);
                }
                let mut entries: Vec<(String, String)> = Vec::new();
                assert(pairs_view(entries@) =~= Seq::empty());
                std::mem::swap(&mut entries, &mut self.entries);
                entries.push((key, value));
                assert(pairs_view(entries@) =~= before.push((key@, value@)));
                assert(distinct_keys(before.push((key@, value@))));
                self.entries = entries;
                None
            },
        }
    }

    /// A copy with the same entries in the same order.
    pub fn duplicate(&self) -> (copy: ParamMap)
        ensures
            copy@ == self@,
            copy.entries() == self.entries(),
    {
        proof {
            use_type_invariant(self);
        }
        ParamMap { entries: copy_pairs(&self.entries) }
    }

    /// The entries as a list of pairs, in entry order.
    pub fn pairs(&self) -> (pairs: &Vec<(String, String)>)
        ensures
            pairs_view(pairs@) == self.entries(),
            distinct_keys(pairs_view(pairs@)),
    {
        proof {
            use_type_invariant(self);
        }
        &self.entries
    }

    /// The map that `pairs` denotes; where a key occurs twice the later pair
    /// gives its value.
    pub fn from_pairs(pairs: &Vec<(String, String)>) -> (m: ParamMap)
        ensures
            m@ == map_of(pairs_view(pairs@)),
    {
        let mut m = ParamMap::new();
        let mut i: usize = 0;
        while i < pairs.len()
            invariant
                i <= pairs.len(),
                m@ == map_of(pairs_view(pairs@).take(i as int)),
            decreases pairs.len() - i,
        {
            proof {
                let upto = pairs_view(pairs@).take(i as int + 1);
                assert(upto.drop_last() =~= pairs_view(pairs@).take(i as int));
                assert(upto.last() == (pairs@[i as int].0@, pairs@[i as int].1@));
            }
            m.insert(pairs[i].0.clone(), pairs[i].1.clone());
            i += 1;
        }
        assert(pairs_view(pairs@).take(i as int) =~= pairs_view(pairs@));
        m
    }

    /// The entries whose key begins with `prefix`, with the prefix taken off
    /// each key. Keys are compared exactly; nothing else is interpreted.
    pub fn with_prefix(&self, prefix: &str) -> (m: ParamMap)
        ensures
            m@ == strip_prefix_map(self@, prefix@),
    {
        let mut m = ParamMap::new();
        let mut i: usize = 0;
        assert(m@ =~= strip_prefix_map(map_of(self.entries().take(0)), prefix@));
        while i < self.entries.len()
            invariant
                i <= self.entries.len(),
                m@ == strip_prefix_map(map_of(self.entries().take(i as int)), prefix@),
            decreases self.entries.len() - i,
        {
            let ghost seen = map_of(self.entries().take(i as int));
            let ghost key = self.entries@[i as int].0@;
            let ghost value = self.entries@[i as int].1@;
            proof {
                let upto = self.entries().take(i as int + 1);
                assert(upto.drop_last() =~= self.entries().take(i as int));
                assert(upto.last() == (key, value));
                assert(map_of(upto) == seen.insert(key, value));
            }
            match text::strip_prefix(self.entries[i].0.as_str(), prefix) {
                Some(rest) => {
                    proof {
                        assert(prefix@ + rest@ =~= key);
                        assert forall|k: Seq<char>| prefix@ + k == key implies k == rest@ by {
                            assert((prefix@ + k).skip(prefix@.len() as int) =~= k);
                        }
                        assert(strip_prefix_map(seen.insert(key, value), prefix@) =~= strip_prefix_map(
                            seen,
                            prefix@,
                        ).insert(rest@, value));
                    }
                    m.insert(rest, self.entries[i].1.clone());
                },
                None => {
                    proof {
                        assert forall|k: Seq<char>| prefix@ + k != key by {
                            if prefix@ + k == key {
                                assert((prefix@ + k).subrange(0, prefix@.len() as int) =~= prefix@);
                            }
                        }
                        assert(strip_prefix_map(seen.insert(key, value), prefix@) =~= strip_prefix_map(
                            seen,
                            prefix@,
                        ));
                    }
                },
            }
            i += 1;
        }
        assert(self.entries().take(i as int) =~= self.entries());
        m
    }
}

impl Clone for ParamMap {
    fn clone(&self) -> (copy: ParamMap)
        ensures
            copy@ == self@,
            copy.entries() == self.entries(),
    {
        self.duplicate()
    }
}

} // verus!
