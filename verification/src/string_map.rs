//! A mapping from strings to strings that remembers the order in which its
//! keys first came in.

use vstd::prelude::*;

verus! {

/// What a [`StringMap`] holds: its pairs of key and value, in order.
pub type Pairs = Seq<(Seq<char>, Seq<char>)>;

/// The first index at or after `from` whose pair has the key `key`, or the
/// length of `pairs` if there is none.
pub open spec fn key_index(pairs: Pairs, key: Seq<char>, from: int) -> int
    decreases pairs.len() - from,
{
    if 0 <= from < pairs.len() && pairs[from].0 != key {
        key_index(pairs, key, from + 1)
    } else {
        from
    }
}

/// Some pair of `pairs` has the key `key`.
pub open spec fn has_key(pairs: Pairs, key: Seq<char>) -> bool {
    key_index(pairs, key, 0) < pairs.len()
}

/// The value that `pairs` gives to `key`.
pub open spec fn lookup(pairs: Pairs, key: Seq<char>) -> Option<Seq<char>> {
    if has_key(pairs, key) {
        Some(pairs[key_index(pairs, key, 0)].1)
    } else {
        None
    }
}

/// No two pairs of `pairs` have the same key.
pub open spec fn distinct_keys(pairs: Pairs) -> bool {
    forall|i: int, j: int| 0 <= i < j < pairs.len() ==> pairs[i].0 != pairs[j].0
}

/// `pairs` after `key` was given `value`: a key that is there keeps its
/// place and changes its value, a new key goes to the end.
pub open spec fn upsert(pairs: Pairs, key: Seq<char>, value: Seq<char>) -> Pairs {
    if has_key(pairs, key) {
        pairs.update(key_index(pairs, key, 0), (key, value))
    } else {
        pairs.push((key, value))
    }
}

/// `pairs` after `key` was given `value` unless it had one: a key that is
/// there keeps its value, a new key goes to the end.
pub open spec fn insert_new(pairs: Pairs, key: Seq<char>, value: Seq<char>) -> Pairs {
    if has_key(pairs, key) {
        pairs
    } else {
        pairs.push((key, value))
    }
}

/// What [`key_index`] finds: a pair with the key, before which no pair has
/// it, or nothing at all.
pub proof fn lemma_key_index(pairs: Pairs, key: Seq<char>, from: int)
    requires
        0 <= from <= pairs.len(),
    ensures
        from <= key_index(pairs, key, from) <= pairs.len(),
        key_index(pairs, key, from) < pairs.len() ==> pairs[key_index(pairs, key, from)].0 == key,
        forall|i: int| from <= i < key_index(pairs, key, from) ==> pairs[i].0 != key,
    decreases pairs.len() - from,
{
    if from < pairs.len() && pairs[from].0 != key {
        lemma_key_index(pairs, key, from + 1);
    }
}

/// A search finds the index `at` if the key stands there and nowhere before.
pub proof fn lemma_key_index_is(pairs: Pairs, key: Seq<char>, from: int, at: int)
    requires
        0 <= from <= at <= pairs.len(),
        forall|i: int| from <= i < at ==> pairs[i].0 != key,
        at < pairs.len() ==> pairs[at].0 == key,
    ensures
        key_index(pairs, key, from) == at,
    decreases at - from,
{
    if from < at {
        lemma_key_index_is(pairs, key, from + 1, at);
    }
}

/// Giving a key a value keeps the keys distinct, and the key then has that
/// value while every other key has the value it had.
pub proof fn lemma_upsert(pairs: Pairs, key: Seq<char>, value: Seq<char>)
    ensures
        distinct_keys(pairs) ==> distinct_keys(upsert(pairs, key, value)),
        lookup(upsert(pairs, key, value), key) == Some(value),
        forall|other: Seq<char>|
            other != key ==> #[trigger] lookup(upsert(pairs, key, value), other) == lookup(
                pairs,
                other,
            ),
{
    let after = upsert(pairs, key, value);
    let at = key_index(pairs, key, 0);
    lemma_key_index(pairs, key, 0);
    lemma_key_index_is(after, key, 0, at);
    assert forall|other: Seq<char>| other != key implies #[trigger] lookup(after, other) == lookup(
        pairs,
        other,
    ) by {
        let there = key_index(pairs, other, 0);
        lemma_key_index(pairs, other, 0);
        let then = if there < pairs.len() {
            there
        } else {
            after.len() as int
        };
        lemma_key_index_is(after, other, 0, then);
    }
}

/// Giving a value to a key that may have one keeps the keys distinct; a key
/// that was there keeps its value, and a new key has the value given.
pub proof fn lemma_insert_new(pairs: Pairs, key: Seq<char>, value: Seq<char>)
    ensures
        distinct_keys(pairs) ==> distinct_keys(insert_new(pairs, key, value)),
        has_key(pairs, key) ==> insert_new(pairs, key, value) == pairs,
        !has_key(pairs, key) ==> lookup(insert_new(pairs, key, value), key) == Some(value),
        forall|other: Seq<char>|
            other != key ==> #[trigger] lookup(insert_new(pairs, key, value), other) == lookup(
                pairs,
                other,
            ),
{
    let after = insert_new(pairs, key, value);
    lemma_key_index(pairs, key, 0);
    if !has_key(pairs, key) {
        lemma_key_index_is(after, key, 0, pairs.len() as int);
    }
    assert forall|other: Seq<char>| other != key implies #[trigger] lookup(after, other) == lookup(
        pairs,
        other,
    ) by {
        let there = key_index(pairs, other, 0);
        lemma_key_index(pairs, other, 0);
        let then = if there < pairs.len() {
            there
        } else {
            after.len() as int
        };
        lemma_key_index_is(after, other, 0, then);
    }
}

/// A mapping from string keys to string values. No key occurs twice, and the
/// keys stay in the order in which they first came in.
#[derive(Debug)]
pub struct StringMap {
    entries: Vec<(String, String)>,
}

impl View for StringMap {
    type V = Pairs;

    closed spec fn view(&self) -> Pairs {
        Seq::new(self.entries@.len(), |i: int| (self.entries@[i].0@, self.entries@[i].1@))
    }
}

impl StringMap {
    #[verifier::type_invariant]
    spec fn well_formed(self) -> bool {
        distinct_keys(self@)
    }

    /// A mapping without keys.
    pub fn new() -> (m: StringMap)
        ensures
            m@ == Pairs::empty(),
    {
        let m = StringMap { entries: Vec::new() };
        assert(m@ =~= Pairs::empty());
        m
    }

    /// The number of keys.
    pub fn len(&self) -> (n: usize)
        ensures
            n == self@.len(),
    {
        self.entries.len()
    }

    /// The key and the value at place `i`, if there are that many.
    pub fn entry_at(&self, i: usize) -> (entry: Option<(&String, &String)>)
        ensures
            match entry {
                Some((key, value)) => i < self@.len() && self@[i as int] == (key@, value@),
                None => i >= self@.len(),
            },
    {
        if i < self.entries.len() {
            Some((&self.entries[i].0, &self.entries[i].1))
        } else {
            None
        }
    }

    /// The place of `key`, or the number of keys if it is not there.
    pub fn position(&self, key: &str) -> (at: usize)
        ensures
            at == key_index(self@, key@, 0),
            at <= self@.len(),
    {
        let wanted: String = key.to_owned();
        let mut i: usize = 0;
        while i < self.entries.len() && self.entries[i].0 != wanted
            invariant
                i <= self.entries@.len(),
                wanted@ == key@,
                key_index(self@, key@, 0) == key_index(self@, key@, i as int),
            decreases self.entries@.len() - i,
        {
            i = i + 1;
        }
        i
    }

    /// The value of `key`, if it has one.
    pub fn get(&self, key: &str) -> (value: Option<&String>)
        ensures
            match value {
                Some(v) => lookup(self@, key@) == Some(v@),
                None => lookup(self@, key@) is None,
            },
    {
        let at = self.position(key);
        if at < self.entries.len() {
            Some(&self.entries[at].1)
        } else {
            None
        }
    }

    /// Gives `key` the value `value`, in place of the one it had.
    pub fn insert(&mut self, key: String, value: String)
        ensures
            final(self)@ == upsert(old(self)@, key@, value@),
            distinct_keys(final(self)@),
    {
        proof {
            use_type_invariant(&*self);
            lemma_upsert(self@, key@, value@);
        }
        let at = self.position(key.as_str());
        let mut entries: Vec<(String, String)> = Vec::new();
        std::mem::swap(&mut entries, &mut self.entries);
        if at < entries.len() {
            entries.set(at, (key, value));
        } else {
            entries.push((key, value));
        }
        let ghost after = Seq::new(entries@.len(), |i: int| (entries@[i].0@, entries@[i].1@));
        assert(after =~= upsert(old(self)@, key@, value@));
        self.entries = entries;
    }

    /// Gives `key` the value `value` unless it has one.
    pub fn insert_if_absent(&mut self, key: String, value: String)
        ensures
            final(self)@ == insert_new(old(self)@, key@, value@),
            distinct_keys(final(self)@),
    {
        proof {
            use_type_invariant(&*self);
            lemma_insert_new(self@, key@, value@);
        }
        let at = self.position(key.as_str());
        if at == self.entries.len() {
            let mut entries: Vec<(String, String)> = Vec::new();
            std::mem::swap(&mut entries, &mut self.entries);
            entries.push((key, value));
            let ghost after = Seq::new(entries@.len(), |i: int| (entries@[i].0@, entries@[i].1@));
            assert(after =~= insert_new(old(self)@, key@, value@));
            self.entries = entries;
        }
    }
}

} // verus!
