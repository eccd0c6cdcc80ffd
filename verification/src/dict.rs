//! A list of texts by key, each key held once, in the order the keys came.
//! It holds the template sources by name and the render contexts by
//! variable.

use vstd::prelude::*;

verus! {

/// The mapping that a list of pairs stands for: of two pairs with one key
/// the later one counts.
pub open spec fn map_of(pairs: Seq<(Seq<char>, Seq<char>)>) -> Map<Seq<char>, Seq<char>>
    decreases pairs.len(),
{
    if pairs.len() == 0 {
        Map::empty()
    } else {
        map_of(pairs.drop_last()).insert(pairs.last().0, pairs.last().1)
    }
}

/// No two pairs have the same key.
pub open spec fn distinct_keys(pairs: Seq<(Seq<char>, Seq<char>)>) -> bool {
    forall|i: int, j: int| 0 <= i < j < pairs.len() ==> pairs[i].0 != pairs[j].0
}

/// The keys of `pairs`, in their order.
pub open spec fn keys_of(pairs: Seq<(Seq<char>, Seq<char>)>) -> Seq<Seq<char>> {
    pairs.map_values(|p: (Seq<char>, Seq<char>)| p.0)
}

/// A key that no pair has is not in the mapping.
pub proof fn lemma_map_of_absent(pairs: Seq<(Seq<char>, Seq<char>)>, key: Seq<char>)
    requires
        forall|i: int| 0 <= i < pairs.len() ==> pairs[i].0 != key,
    ensures
        !map_of(pairs).dom().contains(key),
    decreases pairs.len(),
{
    if pairs.len() > 0 {
        let front = pairs.drop_last();
        assert forall|i: int| 0 <= i < front.len() implies front[i].0 != key by {
            assert(front[i] == pairs[i]);
        }
        lemma_map_of_absent(front, key);
    }
}

/// Among distinct keys, each pair's key is mapped to that pair's value.
pub proof fn lemma_map_of_at(pairs: Seq<(Seq<char>, Seq<char>)>, i: int)
    requires
        distinct_keys(pairs),
        0 <= i < pairs.len(),
    ensures
        map_of(pairs).dom().contains(pairs[i].0),
        map_of(pairs)[pairs[i].0] == pairs[i].1,
    decreases pairs.len(),
{
    if i < pairs.len() - 1 {
        let front = pairs.drop_last();
        assert forall|a: int, b: int| 0 <= a < b < front.len() implies front[a].0 != front[b].0 by {
            assert(front[a] == pairs[a] && front[b] == pairs[b]);
        }
        lemma_map_of_at(front, i);
        assert(front[i] == pairs[i]);
    }
}

/// Among distinct keys, a new value for the key of one pair is that key's
/// new value in the mapping, and the keys stay distinct.
pub proof fn lemma_map_of_update(pairs: Seq<(Seq<char>, Seq<char>)>, i: int, value: Seq<char>)
    requires
        distinct_keys(pairs),
        0 <= i < pairs.len(),
    ensures
        distinct_keys(pairs.update(i, (pairs[i].0, value))),
        map_of(pairs.update(i, (pairs[i].0, value))) == map_of(pairs).insert(pairs[i].0, value),
    decreases pairs.len(),
{
    let key = pairs[i].0;
    let updated = pairs.update(i, (key, value));
    assert forall|a: int, b: int| 0 <= a < b < updated.len() implies updated[a].0
        != updated[b].0 by {
        assert(updated[a].0 == pairs[a].0 && updated[b].0 == pairs[b].0);
    }
    let front = pairs.drop_last();
    if i == pairs.len() - 1 {
        assert(updated.drop_last() =~= front);
        assert(map_of(updated) =~= map_of(pairs).insert(key, value));
    } else {
        assert forall|a: int, b: int| 0 <= a < b < front.len() implies front[a].0 != front[b].0 by {
            assert(front[a] == pairs[a] && front[b] == pairs[b]);
        }
        lemma_map_of_update(front, i, value);
        assert(front[i] == pairs[i]);
        assert(updated.drop_last() =~= front.update(i, (key, value)));
        assert(updated.last() == pairs.last());
        assert(map_of(updated) =~= map_of(pairs).insert(key, value));
    }
}

/// `pairs` with `value` for `key`: in place of the pair that has the key, or
/// at the end where no pair has it.
pub open spec fn put(pairs: Seq<(Seq<char>, Seq<char>)>, key: Seq<char>, value: Seq<char>) -> Seq<
    (Seq<char>, Seq<char>),
> {
    match keys_of(pairs).index_of_first(key) {
        Some(i) => pairs.update(i, (key, value)),
        None => pairs.push((key, value)),
    }
}

/// `pairs` with every pair of `over` put into it, in the order of `over`.
pub open spec fn put_all(
    pairs: Seq<(Seq<char>, Seq<char>)>,
    over: Seq<(Seq<char>, Seq<char>)>,
) -> Seq<(Seq<char>, Seq<char>)>
    decreases over.len(),
{
    if over.len() == 0 {
        pairs
    } else {
        put(put_all(pairs, over.drop_last()), over.last().0, over.last().1)
    }
}

/// Putting a value for a key into distinct keys keeps them distinct, gives
/// the key that value in the mapping, and leaves the order of the keys as it
/// is, with a new key at the end.
pub proof fn lemma_put(pairs: Seq<(Seq<char>, Seq<char>)>, key: Seq<char>, value: Seq<char>)
    requires
        distinct_keys(pairs),
    ensures
        distinct_keys(put(pairs, key, value)),
        map_of(put(pairs, key, value)) == map_of(pairs).insert(key, value),
        keys_of(put(pairs, key, value)) == if keys_of(pairs).contains(key) {
            keys_of(pairs)
        } else {
            keys_of(pairs).push(key)
        },
{
    let keys = keys_of(pairs);
    keys.index_of_first_ensures(key);
    match keys.index_of_first(key) {
        Some(i) => {
            assert(keys[i] == key);
            assert(pairs[i].0 == key);
            lemma_map_of_update(pairs, i, value);
            assert(keys_of(pairs.update(i, (key, value))) =~= keys);
        },
        None => {
            let after = pairs.push((key, value));
            assert(after.drop_last() =~= pairs);
            assert forall|a: int, b: int| 0 <= a < b < after.len() implies after[a].0
                != after[b].0 by {
                if b == pairs.len() {
                    assert(keys[a] == pairs[a].0);
                }
            }
            assert(keys_of(after) =~= keys.push(key));
        },
    }
}

/// Laying `over` on `pairs` is right-biased and shallow: the result maps
/// every key of either, and a key of both to what `over` has for it, taken
/// whole.
pub proof fn lemma_put_all(pairs: Seq<(Seq<char>, Seq<char>)>, over: Seq<(Seq<char>, Seq<char>)>)
    requires
        distinct_keys(pairs),
    ensures
        distinct_keys(put_all(pairs, over)),
        map_of(put_all(pairs, over)) == map_of(pairs).union_prefer_right(map_of(over)),
    decreases over.len(),
{
    if over.len() == 0 {
        assert(map_of(pairs) =~= map_of(pairs).union_prefer_right(map_of(over)));
    } else {
        let front = over.drop_last();
        lemma_put_all(pairs, front);
        lemma_put(put_all(pairs, front), over.last().0, over.last().1);
        assert(map_of(put_all(pairs, over)) =~= map_of(pairs).union_prefer_right(map_of(over)));
    }
}

/// What a list of pairs of texts holds.
pub open spec fn texts(pairs: Seq<(String, String)>) -> Seq<(Seq<char>, Seq<char>)> {
    pairs.map_values(|e: (String, String)| (e.0@, e.1@))
}

/// The text of the pair of `pairs` that has the key `key`, if there is one;
/// of several such pairs, the text of the first.
pub fn find(pairs: &Vec<(String, String)>, key: &str) -> (r: Option<String>)
    ensures
        match r {
            Some(text) => exists|i: int|
                0 <= i < pairs.len() && #[trigger] texts(pairs@)[i] == (key@, text@) && forall|
                    j: int,
                | 0 <= j < i ==> texts(pairs@)[j].0 != key@,
            None => forall|i: int| 0 <= i < pairs.len() ==> texts(pairs@)[i].0 != key@,
        },
{
    let wanted = key.to_owned();
    let mut i: usize = 0;
    while i < pairs.len()
        invariant
            i <= pairs.len(),
            wanted@ == key@,
            forall|j: int| 0 <= j < i ==> texts(pairs@)[j].0 != key@,
        decreases pairs.len() - i,
    {
        if pairs[i].0 == wanted {
            let text = pairs[i].1.clone();
            assert(texts(pairs@)[i as int] == (key@, text@));
            return Some(text);
        }
        i += 1;
    }
    None
}

/// Texts by key. Each key is held once; the keys keep the order in which
/// they first came.
pub struct Dict {
    entries: Vec<(String, String)>,
}

impl View for Dict {
    type V = Map<Seq<char>, Seq<char>>;

    /// The mapping from each key to its text.
    open spec fn view(&self) -> Map<Seq<char>, Seq<char>> {
        map_of(self.pairs())
    }
}

impl Dict {
    #[verifier::type_invariant]
    spec fn well_formed(self) -> bool {
        distinct_keys(self.pairs())
    }

    /// The keys with their texts, in the order in which the keys first came.
    pub closed spec fn pairs(self) -> Seq<(Seq<char>, Seq<char>)> {
        texts(self.entries@)
    }

    /// The keys, in the order in which they first came.
    pub open spec fn key_seq(self) -> Seq<Seq<char>> {
        keys_of(self.pairs())
    }

    /// A list that holds nothing.
    pub fn new() -> (r: Dict)
        ensures
            r.pairs() == Seq::<(Seq<char>, Seq<char>)>::empty(),
            r@ == Map::<Seq<char>, Seq<char>>::empty(),
            distinct_keys(r.pairs()),
    {
        let r = Dict { entries: Vec::new() };
        assert(r.pairs() =~= Seq::<(Seq<char>, Seq<char>)>::empty());
        r
    }

    /// How many keys are held.
    pub fn len(&self) -> (r: usize)
        ensures
            r == self.pairs().len(),
            distinct_keys(self.pairs()),
    {
        proof {
            use_type_invariant(self);
        }
        self.entries.len()
    }

    /// Where `key` is held, if it is.
    pub fn position(&self, key: &String) -> (r: Option<usize>)
        ensures
            distinct_keys(self.pairs()),
            match r {
                Some(i) => i < self.pairs().len() && self.pairs()[i as int].0 == key@,
                None => forall|i: int| 0 <= i < self.pairs().len() ==> self.pairs()[i].0 != key@,
            },
            r is Some <==> self@.dom().contains(key@),
    {
        proof {
            use_type_invariant(self);
        }
        let mut i: usize = 0;
        while i < self.entries.len()
            invariant
                i <= self.entries.len(),
                distinct_keys(self.pairs()),
                forall|j: int| 0 <= j < i ==> self.pairs()[j].0 != key@,
            decreases self.entries.len() - i,
        {
            if self.entries[i].0 == *key {
                proof {
                    lemma_map_of_at(self.pairs(), i as int);
                }
                return Some(i);
            }
            i += 1;
        }
        proof {
            lemma_map_of_absent(self.pairs(), key@);
        }
        None
    }

    /// Whether `key` is held.
    pub fn contains(&self, key: &String) -> (r: bool)
        ensures
            r == self@.dom().contains(key@),
    {
        self.position(key).is_some()
    }

    /// The text held for `key`, if any.
    pub fn get(&self, key: &String) -> (r: Option<&String>)
        ensures
            match r {
                Some(text) => self@.dom().contains(key@) && self@[key@] == text@,
                None => !self@.dom().contains(key@),
            },
    {
        match self.position(key) {
            Some(i) => {
                proof {
                    lemma_map_of_at(self.pairs(), i as int);
                }
                Some(&self.entries[i].1)
            },
            None => None,
        }
    }

    /// The key at place `i`.
    pub fn key_at(&self, i: usize) -> (r: &String)
        requires
            i < self.pairs().len(),
        ensures
            r@ == self.pairs()[i as int].0,
    {
        &self.entries[i].0
    }

    /// The text at place `i`.
    pub fn value_at(&self, i: usize) -> (r: &String)
        requires
            i < self.pairs().len(),
        ensures
            r@ == self.pairs()[i as int].1,
            distinct_keys(self.pairs()),
            self@.dom().contains(self.pairs()[i as int].0),
            self@[self.pairs()[i as int].0] == r@,
    {
        proof {
            use_type_invariant(self);
            lemma_map_of_at(self.pairs(), i as int);
        }
        &self.entries[i].1
    }

    /// Holds `value` for `key`. A key that is held already keeps its place
    /// and gets the new text; a new key goes to the end.
    pub fn insert(&mut self, key: String, value: String)
        ensures
            final(self).pairs() == put(old(self).pairs(), key@, value@),
            final(self)@ == old(self)@.insert(key@, value@),
            final(self).key_seq() == if old(self).key_seq().contains(key@) {
                old(self).key_seq()
            } else {
                old(self).key_seq().push(key@)
            },
    {
        let ghost before = self.pairs();
        let found = self.position(&key);
        proof {
            lemma_put(before, key@, value@);
            keys_of(before).index_of_first_ensures(key@);
            match found {
                Some(i) => {
                    assert(keys_of(before)[i as int] == key@);
                    let first = keys_of(before).index_of_first(key@)->0;
                    assert(before[first].0 == key@);
                    assert(first == i);
                },
                None => {
                    assert forall|j: int| 0 <= j < keys_of(before).len() implies keys_of(
                        before,
                    )[j] != key@ by {
                        assert(keys_of(before)[j] == before[j].0);
                    }
                },
            }
        }
        let mut taken = Dict { entries: Vec::new() };
        assert(taken.pairs() =~= Seq::<(Seq<char>, Seq<char>)>::empty());
        std::mem::swap(self, &mut taken);
        let Dict { entries: mut entries } = taken;
        match found {
            Some(i) => {
                entries.set(i, (key, value));
                assert(texts(entries@) =~= before.update(i as int, (key@, value@)));
            },
            None => {
                entries.push((key, value));
                assert(texts(entries@) =~= before.push((key@, value@)));
            },
        }
        *self = Dict { entries };
    }

    /// The keys with their texts, in the order in which the keys first came.
    pub fn to_pairs(&self) -> (r: Vec<(String, String)>)
        ensures
            texts(r@) == self.pairs(),
            distinct_keys(texts(r@)),
    {
        proof {
            use_type_invariant(self);
        }
        let copy = self.duplicate();
        let Dict { entries } = copy;
        entries
    }

    /// The keys are those of the mapping, each once.
    pub proof fn lemma_keys_are_domain(self)
        requires
            distinct_keys(self.pairs()),
        ensures
            self.key_seq().no_duplicates(),
            forall|key: Seq<char>| self.key_seq().contains(key) <==> self@.dom().contains(key),
    {
        let pairs = self.pairs();
        assert forall|key: Seq<char>| self.key_seq().contains(key) <==> self@.dom().contains(
            key,
        ) by {
            if self.key_seq().contains(key) {
                let i = choose|i: int| 0 <= i < self.key_seq().len() && self.key_seq()[i] == key;
                lemma_map_of_at(pairs, i);
            } else {
                assert forall|i: int| 0 <= i < pairs.len() implies pairs[i].0 != key by {
                    assert(self.key_seq()[i] == pairs[i].0);
                }
                lemma_map_of_absent(pairs, key);
            }
        }
    }

    /// The keys, in the order in which they first came.
    pub fn keys(&self) -> (r: Vec<String>)
        ensures
            r@.map_values(|s: String| s@) == self.key_seq(),
            distinct_keys(self.pairs()),
    {
        proof {
            use_type_invariant(self);
        }
        let mut out: Vec<String> = Vec::new();
        let mut i: usize = 0;
        while i < self.entries.len()
            invariant
                i <= self.entries.len(),
                out@.len() == i,
                forall|j: int| 0 <= j < i ==> out@[j]@ == self.pairs()[j].0,
            decreases self.entries.len() - i,
        {
            out.push(self.entries[i].0.clone());
            i += 1;
        }
        assert(out@.map_values(|s: String| s@) =~= self.key_seq());
        out
    }

    /// A second list with the same keys and texts in the same order.
    pub fn duplicate(&self) -> (r: Dict)
        ensures
            r.pairs() == self.pairs(),
            r@ == self@,
    {
        proof {
            use_type_invariant(self);
        }
        let mut entries: Vec<(String, String)> = Vec::new();
        let mut i: usize = 0;
        while i < self.entries.len()
            invariant
                i <= self.entries.len(),
                entries@.len() == i,
                forall|j: int|
                    0 <= j < i ==> entries@[j].0@ == self.entries@[j].0@ && entries@[j].1@
                        == self.entries@[j].1@,
            decreases self.entries.len() - i,
        {
            entries.push((self.entries[i].0.clone(), self.entries[i].1.clone()));
            i += 1;
        }
        assert(texts(entries@) =~= self.pairs());
        Dict { entries }
    }

    /// This list with `over` laid on it: every key of either, and where
    /// both hold a key, the text of `over`. Texts are taken whole. The keys
    /// of this list keep their places; new keys follow in the order of `over`.
    pub fn merge(&self, over: &Dict) -> (r: Dict)
        ensures
            r.pairs() == put_all(self.pairs(), over.pairs()),
            r@ == self@.union_prefer_right(over@),
    {
        let mut out = self.duplicate();
        let mut i: usize = 0;
        assert(over.pairs().take(0) =~= Seq::<(Seq<char>, Seq<char>)>::empty());
        assert(out@ =~= self@.union_prefer_right(map_of(over.pairs().take(0))));
        while i < over.len()
            invariant
                i <= over.pairs().len(),
                out.pairs() == put_all(self.pairs(), over.pairs().take(i as int)),
                out@ == self@.union_prefer_right(map_of(over.pairs().take(i as int))),
            decreases over.pairs().len() - i,
        {
            let ghost seen = over.pairs().take(i as int);
            let ghost next = over.pairs().take(i + 1);
            out.insert(over.key_at(i).clone(), over.value_at(i).clone());
            proof {
                assert(next.drop_last() =~= seen);
                assert(next.last() == over.pairs()[i as int]);
                assert(out@ =~= self@.union_prefer_right(map_of(next)));
            }
            i += 1;
        }
        assert(over.pairs().take(over.pairs().len() as int) =~= over.pairs());
        out
    }
}

} // verus!
