//! A small string-to-string map kept as an ordered list of entries.
use vstd::prelude::*;
use crate::text::str_eq;

verus! {

/// The map that a list of entries denotes: for each key, the first entry
/// holding it gives its value.
pub open spec fn entries_map(s: Seq<(String, String)>) -> Map<Seq<char>, Seq<char>>
    decreases s.len(),
{
    if s.len() == 0 {
        Map::empty()
    } else {
        entries_map(s.drop_first()).insert(s[0].0@, s[0].1@)
    }
}

/// `i` is the first position of the entries whose key is `k`.
pub open spec fn first_key_index(s: Seq<(String, String)>, k: Seq<char>, i: int) -> bool {
    &&& 0 <= i < s.len()
    &&& s[i].0@ == k
    &&& forall|j: int| 0 <= j < i ==> s[j].0@ != k
}

/// No entry holds key `k`.
pub open spec fn key_absent(s: Seq<(String, String)>, k: Seq<char>) -> bool {
    forall|j: int| 0 <= j < s.len() ==> s[j].0@ != k
}

proof fn lemma_first_index(s: Seq<(String, String)>, k: Seq<char>, i: int)
    requires
        first_key_index(s, k, i),
    ensures
        entries_map(s).contains_key(k),
        entries_map(s)[k] == s[i].1@,
    decreases s.len(),
{
    if i > 0 {
        lemma_first_index(s.drop_first(), k, i - 1);
    }
}

proof fn lemma_absent(s: Seq<(String, String)>, k: Seq<char>)
    requires
        key_absent(s, k),
    ensures
        !entries_map(s).contains_key(k),
    decreases s.len(),
{
    if s.len() > 0 {
        lemma_absent(s.drop_first(), k);
    }
}

proof fn lemma_update_first(s: Seq<(String, String)>, i: int, e: (String, String))
    requires
        first_key_index(s, e.0@, i),
    ensures
        entries_map(s.update(i, e)) == entries_map(s).insert(e.0@, e.1@),
    decreases s.len(),
{
    if i == 0 {
        assert(s.update(0, e).drop_first() =~= s.drop_first());
        assert(entries_map(s.update(i, e)) =~= entries_map(s).insert(e.0@, e.1@));
    } else {
        lemma_update_first(s.drop_first(), i - 1, e);
        assert(s.update(i, e).drop_first() =~= s.drop_first().update(i - 1, e));
        assert(entries_map(s.update(i, e)) =~= entries_map(s).insert(e.0@, e.1@));
    }
}

proof fn lemma_push_absent(s: Seq<(String, String)>, e: (String, String))
    requires
        key_absent(s, e.0@),
    ensures
        entries_map(s.push(e)) == entries_map(s).insert(e.0@, e.1@),
    decreases s.len(),
{
    if s.len() == 0 {
        assert(s.push(e).drop_first() =~= Seq::<(String, String)>::empty());
        assert(s.push(e)[0] == e);
        assert(entries_map(s.push(e)) == entries_map(s.push(e).drop_first()).insert(e.0@, e.1@));
        assert(entries_map(s) == Map::<Seq<char>, Seq<char>>::empty());
        assert(entries_map(s.push(e)) =~= entries_map(s).insert(e.0@, e.1@));
    } else {
        lemma_push_absent(s.drop_first(), e);
        assert(s.push(e).drop_first() =~= s.drop_first().push(e));
        assert(s.push(e)[0] == s[0]);
        assert(s[0].0@ != e.0@);
        assert(entries_map(s.push(e)) == entries_map(s.drop_first().push(e)).insert(s[0].0@, s[0].1@));
        assert(entries_map(s.push(e)) =~= entries_map(s).insert(e.0@, e.1@));
    }
}

/// Appending an entry adds its key with its value, unless an earlier entry
/// already holds the key.
pub proof fn lemma_entries_map_push(s: Seq<(String, String)>, e: (String, String))
    ensures
        entries_map(s.push(e)) == (if entries_map(s).contains_key(e.0@) {
            entries_map(s)
        } else {
            entries_map(s).insert(e.0@, e.1@)
        }),
    decreases s.len(),
{
    if s.len() == 0 {
        lemma_push_absent(s, e);
    } else {
        lemma_entries_map_push(s.drop_first(), e);
        assert(s.push(e).drop_first() =~= s.drop_first().push(e));
        assert(s.push(e)[0] == s[0]);
        if entries_map(s).contains_key(e.0@) {
            assert(entries_map(s.push(e)) =~= entries_map(s));
        } else {
            assert(entries_map(s.push(e)) =~= entries_map(s).insert(e.0@, e.1@));
        }
    }
}

/// A map from strings to strings. Keys compare by their characters.
///
/// The entries are kept in a `Vec` in the order their keys were first
/// entered; inserting a present key updates its entry. vstd gives std's
/// `HashMap` and `BTreeMap` contracts only for keys whose hashing or
/// ordering it specifies, which `String` keys are not, so with those the
/// map's contents could not be stated.
#[derive(Debug)]
pub struct StrMap {
    entries: Vec<(String, String)>,
}

impl View for StrMap {
    type V = Map<Seq<char>, Seq<char>>;

    closed spec fn view(&self) -> Map<Seq<char>, Seq<char>> {
        entries_map(self.entries@)
    }
}

impl StrMap {
    /// The entries in the order they were first inserted.
    pub closed spec fn spec_entries(&self) -> Seq<(String, String)> {
        self.entries@
    }

    /// An empty map.
    pub fn new() -> (m: StrMap)
        ensures
            m@ == Map::<Seq<char>, Seq<char>>::empty(),
    {
        StrMap { entries: Vec::new() }
    }

    /// Position of the entry for `key`, if any.
    fn find(&self, key: &str) -> (r: Option<usize>)
        ensures
            match r {
                Some(i) => first_key_index(self.entries@, key@, i as int),
                None => key_absent(self.entries@, key@),
            },
    {
        let mut i: usize = 0;
        while i < self.entries.len()
            invariant
                i <= self.entries@.len(),
                forall|j: int| 0 <= j < i ==> self.entries@[j].0@ != key@,
            decreases self.entries@.len() - i,
        {
            if str_eq(self.entries[i].0.as_str(), key) {
                return Some(i);
            }
            i += 1;
        }
        None
    }

    /// The value stored for `key`.
    pub fn get(&self, key: &str) -> (r: Option<&String>)
        ensures
            r.is_some() == self@.contains_key(key@),
            r matches Some(v) ==> v@ == self@[key@],
    {
        match self.find(key) {
            Some(i) => {
                proof {
                    lemma_first_index(self.entries@, key@, i as int);
                }
                Some(&self.entries[i].1)
            },
            None => {
                proof {
                    lemma_absent(self.entries@, key@);
                }
                None
            },
        }
    }

    /// Whether `key` has a value.
    pub fn contains_key(&self, key: &str) -> (r: bool)
        ensures
            r == self@.contains_key(key@),
    {
        self.get(key).is_some()
    }

    /// Stores `value` under `key`, replacing any earlier value.
    pub fn insert(&mut self, key: String, value: String)
        ensures
            final(self)@ == old(self)@.insert(key@, value@),
    {
        match self.find(key.as_str()) {
            Some(i) => {
                proof {
                    lemma_update_first(self.entries@, i as int, (key, value));
                }
                self.entries.set(i, (key, value));
            },
            None => {
                proof {
                    lemma_push_absent(self.entries@, (key, value));
                }
                self.entries.push((key, value));
            },
        }
    }

    /// Whether the map holds no key.
    pub fn is_empty(&self) -> (r: bool)
        ensures
            r == (self@ == Map::<Seq<char>, Seq<char>>::empty()),
    {
        if self.entries.len() == 0 {
            assert(self@ =~= Map::<Seq<char>, Seq<char>>::empty());
            true
        } else {
            assert(self@.contains_key(self.entries@[0].0@));
            false
        }
    }

    /// The entries of the map; for each key the first entry holding it gives
    /// its value.
    pub fn entries(&self) -> (r: &Vec<(String, String)>)
        ensures
            entries_map(r@) == self@,
    {
        &self.entries
    }

}

impl Clone for StrMap {
    /// A copy of the map.
    fn clone(&self) -> (r: StrMap)
        ensures
            r@ == self@,
    {
        let mut out: Vec<(String, String)> = Vec::new();
        let mut i: usize = 0;
        while i < self.entries.len()
            invariant
                i <= self.entries@.len(),
                out@ == self.entries@.take(i as int),
            decreases self.entries@.len() - i,
        {
            let k = self.entries[i].0.clone();
            let v = self.entries[i].1.clone();
            out.push((k, v));
            assert(out@ =~= self.entries@.take(i + 1));
            i += 1;
        }
        assert(self.entries@.take(self.entries@.len() as int) =~= self.entries@);
        StrMap { entries: out }
    }
}

impl StrMap {
    /// Stores every key of `other` with its value, replacing earlier values.
    pub fn extend_from(&mut self, other: &StrMap)
        ensures
            final(self)@ == old(self)@.union_prefer_right(other@),
    {
        let n = other.entries.len();
        let mut i: usize = n;
        while i > 0
            invariant
                i <= n,
                n == other.entries@.len(),
                self@ == old(self)@.union_prefer_right(entries_map(other.entries@.skip(i as int))),
            decreases i,
        {
            i -= 1;
            let k = other.entries[i].0.clone();
            let v = other.entries[i].1.clone();
            proof {
                let s = other.entries@.skip(i as int);
                assert(s.drop_first() =~= other.entries@.skip(i + 1));
                assert(s[0] == other.entries@[i as int]);
            }
            self.insert(k, v);
            assert(self@ =~= old(self)@.union_prefer_right(entries_map(other.entries@.skip(i as int))));
        }
        assert(other.entries@.skip(0) =~= other.entries@);
    }
}

} // verus!
