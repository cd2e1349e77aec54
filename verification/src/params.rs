//! An insertion-ordered map from text to text in which a later write to a key
//! replaces the earlier one.

use vstd::prelude::*;

verus! {

/// The map that a sequence of writes produces: each pair is written in turn,
/// so the last write to a key decides its value.
pub open spec fn pairs_to_map(s: Seq<(Seq<char>, Seq<char>)>) -> Map<Seq<char>, Seq<char>>
    decreases s.len(),
{
    if s.len() == 0 {
        Map::empty()
    } else {
        pairs_to_map(s.drop_last()).insert(s.last().0, s.last().1)
    }
}

/// No key occurs at two positions of `s`.
pub open spec fn keys_distinct(s: Seq<(Seq<char>, Seq<char>)>) -> bool {
    forall|i: int, j: int| 0 <= i < j < s.len() ==> (#[trigger] s[i]).0 != (#[trigger] s[j]).0
}

/// A key that occurs nowhere in `s` is outside the map of `s`.
pub proof fn lemma_absent_key(s: Seq<(Seq<char>, Seq<char>)>, key: Seq<char>)
    requires
        forall|i: int| 0 <= i < s.len() ==> (#[trigger] s[i]).0 != key,
    ensures
        !pairs_to_map(s).contains_key(key),
    decreases s.len(),
{
    if s.len() > 0 {
        lemma_absent_key(s.drop_last(), key);
    }
}

/// With distinct keys, every pair of `s` is an entry of the map of `s`.
pub proof fn lemma_present_key(s: Seq<(Seq<char>, Seq<char>)>, i: int)
    requires
        keys_distinct(s),
        0 <= i < s.len(),
    ensures
        pairs_to_map(s).contains_key(s[i].0),
        pairs_to_map(s)[s[i].0] == s[i].1,
    decreases s.len(),
{
    if i < s.len() - 1 {
        lemma_present_key(s.drop_last(), i);
    }
}

/// With distinct keys, overwriting the value at the position of a key is a
/// write of that key to the map.
pub proof fn lemma_update_is_insert(s: Seq<(Seq<char>, Seq<char>)>, i: int, value: Seq<char>)
    requires
        keys_distinct(s),
        0 <= i < s.len(),
    ensures
        pairs_to_map(s.update(i, (s[i].0, value))) == pairs_to_map(s).insert(s[i].0, value),
        keys_distinct(s.update(i, (s[i].0, value))),
    decreases s.len(),
{
    let t = s.update(i, (s[i].0, value));
    if i == s.len() - 1 {
        assert(t.drop_last() == s.drop_last());
        assert(pairs_to_map(t) == pairs_to_map(s).insert(s[i].0, value));
    } else {
        lemma_update_is_insert(s.drop_last(), i, value);
        assert(t.drop_last() == s.drop_last().update(i, (s[i].0, value)));
        assert(t.last() == s.last());
        assert(s[i].0 != s.last().0);
        assert(pairs_to_map(t) == pairs_to_map(s).insert(s[i].0, value));
    }
}

/// A map from text to text that remembers the order in which its keys were
/// first written.
#[derive(Debug)]
pub struct StringMap {
    entries: Vec<(String, String)>,
}

impl View for StringMap {
    type V = Map<Seq<char>, Seq<char>>;

    open spec fn view(&self) -> Map<Seq<char>, Seq<char>> {
        pairs_to_map(self.pairs())
    }
}

impl Clone for StringMap {
    fn clone(&self) -> (m: StringMap)
        ensures
            m.pairs() == self.pairs(),
    {
        proof {
            use_type_invariant(self);
        }
        let mut entries: Vec<(String, String)> = Vec::new();
        let mut i: usize = 0;
        while i < self.entries.len()
            invariant
                i <= self.entries@.len(),
                entries@.len() == i,
                forall|j: int|
                    0 <= j < i ==> (#[trigger] entries@[j]).0@ == self.entries@[j].0@
                        && entries@[j].1@ == self.entries@[j].1@,
            decreases self.entries@.len() - i,
        {
            entries.push((self.entries[i].0.clone(), self.entries[i].1.clone()));
            i += 1;
        }
        assert(Seq::new(entries@.len(), |i: int| (entries@[i].0@, entries@[i].1@))
            =~= self.pairs());
        StringMap { entries }
    }
}

impl StringMap {
    #[verifier::type_invariant]
    spec fn keys_are_distinct(self) -> bool {
        keys_distinct(self.pairs())
    }

    /// The entries in the order in which their keys were first written.
    pub closed spec fn pairs(&self) -> Seq<(Seq<char>, Seq<char>)> {
        Seq::new(self.entries@.len(), |i: int| (self.entries@[i].0@, self.entries@[i].1@))
    }

    /// The position of `key` among the entries, or the number of entries
    /// where no entry has that key.
    pub open spec fn position(&self, key: Seq<char>) -> int {
        if exists|i: int| 0 <= i < self.pairs().len() && (#[trigger] self.pairs()[i]).0 == key {
            choose|i: int| 0 <= i < self.pairs().len() && (#[trigger] self.pairs()[i]).0 == key
        } else {
            self.pairs().len() as int
        }
    }

    /// A map without entries.
    pub fn new() -> (m: StringMap)
        ensures
            m.pairs() == Seq::<(Seq<char>, Seq<char>)>::empty(),
            m@ == Map::<Seq<char>, Seq<char>>::empty(),
    {
        let m = StringMap { entries: Vec::new() };
        assert(m.pairs() =~= Seq::<(Seq<char>, Seq<char>)>::empty());
        m
    }

    /// The number of entries.
    pub fn len(&self) -> (n: usize)
        ensures
            n == self.pairs().len(),
            keys_distinct(self.pairs()),
    {
        proof {
            use_type_invariant(self);
        }
        self.entries.len()
    }

    /// The key of the entry at position `i`.
    pub fn key_at(&self, i: usize) -> (k: &String)
        requires
            i < self.pairs().len(),
        ensures
            k@ == self.pairs()[i as int].0,
    {
        &self.entries[i].0
    }

    /// The value of the entry at position `i`.
    pub fn value_at(&self, i: usize) -> (v: &String)
        requires
            i < self.pairs().len(),
        ensures
            v@ == self.pairs()[i as int].1,
    {
        &self.entries[i].1
    }

    /// Where `key` stands among the entries, if it does.
    pub fn find(&self, key: &str) -> (r: Option<usize>)
        ensures
            match r {
                Some(i) => i < self.pairs().len() && self.pairs()[i as int].0 == key@,
                None => forall|i: int| 0 <= i < self.pairs().len() ==> (#[trigger] self.pairs()[i]).0 != key@,
            },
            r is Some <==> self@.contains_key(key@),
    {
        let wanted = key.to_owned();
        let mut i: usize = 0;
        while i < self.entries.len()
            invariant
                i <= self.entries@.len(),
                wanted@ == key@,
                forall|j: int| 0 <= j < i ==> (#[trigger] self.pairs()[j]).0 != key@,
            decreases self.entries@.len() - i,
        {
            if self.entries[i].0 == wanted {
                proof {
                    use_type_invariant(self);
                    lemma_present_key(self.pairs(), i as int);
                }
                return Some(i);
            }
            i += 1;
        }
        proof {
            lemma_absent_key(self.pairs(), key@);
        }
        None
    }

    /// The value written last to `key`, if any was.
    pub fn get(&self, key: &str) -> (r: Option<&String>)
        ensures
            match r {
                Some(v) => self@.contains_key(key@) && v@ == self@[key@],
                None => !self@.contains_key(key@),
            },
    {
        match self.find(key) {
            Some(i) => {
                proof {
                    use_type_invariant(self);
                    lemma_present_key(self.pairs(), i as int);
                }
                Some(&self.entries[i].1)
            },
            None => None,
        }
    }

    /// Writes `value` to `key`: a key that is present keeps its position and
    /// takes the new value, a new key goes to the end.
    pub fn insert(&mut self, key: &str, value: &str)
        ensures
            final(self)@ == old(self)@.insert(key@, value@),
            final(self).pairs() == (if old(self)@.contains_key(key@) {
                old(self).pairs().update(old(self).position(key@), (key@, value@))
            } else {
                old(self).pairs().push((key@, value@))
            }),
    {
        proof {
            use_type_invariant(&*self);
        }
        let found = self.find(key);
        let ghost before = self.pairs();
        let mut entries: Vec<(String, String)> = Vec::new();
        core::mem::swap(&mut self.entries, &mut entries);
        match found {
            Some(i) => {
                entries.set(i, (key.to_owned(), value.to_owned()));
                proof {
                    lemma_update_is_insert(before, i as int, value@);
                    assert(old(self).position(key@) == i as int);
                }
            },
            None => {
                entries.push((key.to_owned(), value.to_owned()));
            },
        }
        let ghost after = Seq::new(entries@.len(), |i: int| (entries@[i].0@, entries@[i].1@));
        proof {
            if found is Some {
                assert(after =~= before.update(found.unwrap() as int, (key@, value@)));
            } else {
                assert(after =~= before.push((key@, value@)));
                assert(after.drop_last() =~= before);
            }
        }
        core::mem::swap(&mut self.entries, &mut entries);
        assert(self.pairs() =~= after);
    }
}

} // verus!
