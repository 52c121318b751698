//! A mapping from strings to strings, stored as an association list with
//! unique keys.  It stands in for a hash map wherever the library needs
//! string-keyed lookup: variable bindings, header fields, block overrides
//! and the template file cache.  Unlike a hash map it also has a stable
//! entry order, which the HTTP serializer relies on.

use vstd::prelude::*;
use crate::text::str_eq;

verus! {

/// Whether the entry sequence `s` holds key `k`.
pub open spec fn sv_has_key<V>(s: Seq<(Seq<char>, V)>, k: Seq<char>) -> bool {
    exists|i: int| 0 <= i < s.len() && s[i].0 == k
}

/// The position of key `k` in the entry sequence `s`; meaningful only when
/// `sv_has_key(s, k)` holds and the keys are unique.
pub open spec fn sv_key_index<V>(s: Seq<(Seq<char>, V)>, k: Seq<char>) -> int {
    choose|i: int| 0 <= i < s.len() && s[i].0 == k
}

/// The mapping that the entry sequence `s` denotes.
pub open spec fn sv_map<V>(s: Seq<(Seq<char>, V)>) -> Map<Seq<char>, V> {
    Map::new(|k: Seq<char>| sv_has_key(s, k), |k: Seq<char>| s[sv_key_index(s, k)].1)
}

/// The entry sequence after binding `k` to `v`: an entry holding `k` is
/// replaced in place, else a new entry is appended.
pub open spec fn sv_insert<V>(s: Seq<(Seq<char>, V)>, k: Seq<char>, v: V) -> Seq<(Seq<char>, V)> {
    if sv_has_key(s, k) {
        s.update(sv_key_index(s, k), (k, v))
    } else {
        s.push((k, v))
    }
}

/// No two entries of `s` share a key.
pub open spec fn sv_unique<V>(s: Seq<(Seq<char>, V)>) -> bool {
    forall|i: int, j: int| 0 <= i < j < s.len() ==> s[i].0 != s[j].0
}

/// With unique keys, the entry at the stored key's position is the one
/// `sv_map` returns.
pub proof fn lemma_sv_entry<V>(s: Seq<(Seq<char>, V)>, i: int)
    requires
        sv_unique(s),
        0 <= i < s.len(),
    ensures
        sv_has_key(s, s[i].0),
        sv_key_index(s, s[i].0) == i,
        sv_map(s)[s[i].0] == s[i].1,
{
    let k = s[i].0;
    assert(sv_has_key(s, k));
    let w = sv_key_index(s, k);
    assert(0 <= w < s.len() && s[w].0 == k);
    if w < i {
        assert(s[w].0 != s[i].0);
    }
    if i < w {
        assert(s[i].0 != s[w].0);
    }
}

/// A string-to-string mapping with unique keys and a stable entry order.
#[derive(Debug)]
pub struct StringMap {
    entries: Vec<(String, String)>,
}

impl View for StringMap {
    type V = Map<Seq<char>, Seq<char>>;

    open spec fn view(&self) -> Map<Seq<char>, Seq<char>> {
        sv_map(self.entries_seq())
    }
}

impl StringMap {
    /// The entries in storage order, as character sequences.
    pub closed spec fn entries_seq(&self) -> Seq<(Seq<char>, Seq<char>)> {
        self.entries@.map_values(|e: (String, String)| (e.0@, e.1@))
    }

    /// Each key stands in at most one entry.
    pub open spec fn wf(&self) -> bool {
        sv_unique(self.entries_seq())
    }

    /// An empty mapping.
    pub fn new() -> (m: StringMap)
        ensures
            m.wf(),
            m@ == Map::<Seq<char>, Seq<char>>::empty(),
            m.entries_seq() == Seq::<(Seq<char>, Seq<char>)>::empty(),
    {
        let m = StringMap { entries: Vec::new() };
        proof {
            assert(m.entries_seq() =~= Seq::<(Seq<char>, Seq<char>)>::empty());
            assert(m@ =~= Map::<Seq<char>, Seq<char>>::empty());
        }
        m
    }

    /// How many entries the mapping holds.
    pub fn len(&self) -> (n: usize)
        ensures
            n == self.entries_seq().len(),
    {
        self.entries.len()
    }

    /// The entry at position `i` in storage order.
    pub fn entry(&self, i: usize) -> (r: &(String, String))
        requires
            i < self.entries_seq().len(),
        ensures
            (r.0@, r.1@) == self.entries_seq()[i as int],
    {
        &self.entries[i]
    }

    /// The position of `key` among the entries, if it is bound.
    fn position_of(&self, key: &str) -> (r: Option<usize>)
        ensures
            match r {
                Some(i) => i < self.entries_seq().len() && self.entries_seq()[i as int].0
                    == key@,
                None => !sv_has_key(self.entries_seq(), key@),
            },
    {
        let n = self.entries.len();
        let mut i: usize = 0;
        while i < n
            invariant
                n == self.entries_seq().len(),
                n == self.entries@.len(),
                i <= n,
                forall|j: int| 0 <= j < i ==> self.entries_seq()[j].0 != key@,
            decreases n - i,
        {
            if str_eq(self.entries[i].0.as_str(), key) {
                return Some(i);
            }
            i += 1;
        }
        None
    }

    /// The value bound to `key`, if any.
    pub fn get(&self, key: &str) -> (r: Option<&String>)
        requires
            self.wf(),
        ensures
            match r {
                Some(v) => self@.contains_key(key@) && v@ == self@[key@],
                None => !self@.contains_key(key@),
            },
    {
        match self.position_of(key) {
            Some(i) => {
                proof {
                    lemma_sv_entry(self.entries_seq(), i as int);
                }
                Some(&self.entries[i].1)
            },
            None => None,
        }
    }

    /// Whether `key` is bound.
    pub fn contains_key(&self, key: &str) -> (r: bool)
        requires
            self.wf(),
        ensures
            r == self@.contains_key(key@),
    {
        self.position_of(key).is_some()
    }

    /// Binds `key` to `value`, replacing any earlier binding in place.
    pub fn insert(&mut self, key: &str, value: String)
        requires
            old(self).wf(),
        ensures
            final(self).wf(),
            final(self)@ == old(self)@.insert(key@, value@),
            final(self).entries_seq() == sv_insert(old(self).entries_seq(), key@, value@),
    {
        let ghost s0 = old(self).entries_seq();
        let k = String::from_str(key);
        match self.position_of(key) {
            Some(i) => {
                proof {
                    lemma_sv_entry(s0, i as int);
                }
                self.entries.remove(i);
                self.entries.insert(i, (k, value));
                proof {
                    let s1 = self.entries_seq();
                    assert(s1 =~= s0.update(i as int, (key@, value@)));
                    assert forall|a: int, b: int| 0 <= a < b < s1.len() implies s1[a].0
                        != s1[b].0 by {
                        assert(s0[a].0 == (if a == i { key@ } else { s1[a].0 }) || a == i);
                    }
                    assert(self.wf());
                    assert forall|k2: Seq<char>| true implies #[trigger] sv_has_key(s1, k2)
                        == sv_has_key(s0, k2) by {
                        if sv_has_key(s1, k2) {
                            let w = choose|w: int| 0 <= w < s1.len() && s1[w].0 == k2;
                            assert(s0[w].0 == s1[w].0);
                        }
                        if sv_has_key(s0, k2) {
                            let w = choose|w: int| 0 <= w < s0.len() && s0[w].0 == k2;
                            assert(s1[w].0 == s0[w].0);
                        }
                    }
                    assert forall|k2: Seq<char>| sv_has_key(s1, k2) implies sv_map(s1)[k2]
                        == old(self)@.insert(key@, value@)[k2] by {
                        let w = sv_key_index(s1, k2);
                        assert(0 <= w < s1.len() && s1[w].0 == k2);
                        lemma_sv_entry(s1, w);
                        if k2 == key@ {
                            if w != i {
                                assert(s0[w].0 == s1[w].0);
                                lemma_sv_entry(s0, w);
                                assert(false);
                            }
                        } else {
                            assert(s0[w].0 == s1[w].0 && s0[w].1 == s1[w].1);
                            lemma_sv_entry(s0, w);
                        }
                    }
                    assert(self@ =~= old(self)@.insert(key@, value@));
                }
            },
            None => {
                self.entries.push((k, value));
                proof {
                    let s1 = self.entries_seq();
                    assert(s1 =~= s0.push((key@, value@)));
                    assert forall|a: int, b: int| 0 <= a < b < s1.len() implies s1[a].0
                        != s1[b].0 by {
                        if b < s1.len() - 1 {
                            assert(s0[a].0 != s0[b].0);
                        } else {
                            assert(s1[a].0 == s0[a].0);
                            assert(!sv_has_key(s0, key@));
                        }
                    }
                    assert(self.wf());
                    assert forall|k2: Seq<char>| sv_has_key(s1, k2) implies sv_map(s1)[k2]
                        == old(self)@.insert(key@, value@)[k2] by {
                        let w = sv_key_index(s1, k2);
                        assert(0 <= w < s1.len() && s1[w].0 == k2);
                        lemma_sv_entry(s1, w);
                        if w < s1.len() - 1 {
                            assert(s0[w].0 == s1[w].0 && s0[w].1 == s1[w].1);
                            lemma_sv_entry(s0, w);
                            if k2 == key@ {
                                assert(sv_has_key(s0, key@));
                                assert(false);
                            }
                        }
                    }
                    assert forall|k2: Seq<char>| true implies #[trigger] sv_has_key(s1, k2)
                        == (sv_has_key(s0, k2) || k2 == key@) by {
                        if sv_has_key(s1, k2) {
                            let w = choose|w: int| 0 <= w < s1.len() && s1[w].0 == k2;
                            if w < s1.len() - 1 {
                                assert(s0[w].0 == k2);
                            }
                        }
                        if sv_has_key(s0, k2) {
                            let w = choose|w: int| 0 <= w < s0.len() && s0[w].0 == k2;
                            assert(s1[w].0 == k2);
                        }
                        if k2 == key@ {
                            assert(s1[s1.len() - 1].0 == k2);
                        }
                    }
                    assert(self@ =~= old(self)@.insert(key@, value@));
                }
            },
        }
    }
}

} // verus!
