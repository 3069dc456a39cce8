//! A string-keyed field map with unique keys, the raw input of the
//! validation pipeline. It is modelled as an ordered sequence of
//! (key, value) pairs whose keys are pairwise distinct; inserting an
//! existing key overwrites its value in place, as map semantics demand.
use vstd::prelude::*;

verus! {

use crate::text::str_eq;

/// The key of every entry is distinct from every other.
pub open spec fn map_wf(s: Seq<(Seq<char>, Seq<char>)>) -> bool {
    forall|i: int, j: int| 0 <= i < j < s.len() ==> (#[trigger] s[i]).0 != (#[trigger] s[j]).0
}

/// Some entry carries the key `k`.
pub open spec fn map_has_key(s: Seq<(Seq<char>, Seq<char>)>, k: Seq<char>) -> bool {
    exists|i: int| 0 <= i < s.len() && (#[trigger] s[i]).0 == k
}

/// The index of an entry carrying the key `k`.
pub open spec fn map_key_index(s: Seq<(Seq<char>, Seq<char>)>, k: Seq<char>) -> int
    recommends
        map_has_key(s, k),
{
    choose|i: int| 0 <= i < s.len() && (#[trigger] s[i]).0 == k
}

/// The value stored under the key `k`.
pub open spec fn map_value_of(s: Seq<(Seq<char>, Seq<char>)>, k: Seq<char>) -> Seq<char>
    recommends
        map_has_key(s, k),
{
    s[map_key_index(s, k)].1
}

/// Binding `k` to `v`: overwrites the entry already carrying `k`, or
/// appends a new entry at the end.
pub open spec fn map_insert(
    s: Seq<(Seq<char>, Seq<char>)>,
    k: Seq<char>,
    v: Seq<char>,
) -> Seq<(Seq<char>, Seq<char>)> {
    if map_has_key(s, k) {
        s.update(map_key_index(s, k), (k, v))
    } else {
        s.push((k, v))
    }
}

/// Inserting never breaks key uniqueness.
pub proof fn lemma_map_insert_wf(s: Seq<(Seq<char>, Seq<char>)>, k: Seq<char>, v: Seq<char>)
    requires
        map_wf(s),
    ensures
        map_wf(map_insert(s, k, v)),
{
    if map_has_key(s, k) {
        let idx = map_key_index(s, k);
        assert(s[idx].0 == k);
        assert forall|i: int, j: int|
            0 <= i < j < map_insert(s, k, v).len() implies (#[trigger] map_insert(s, k, v)[i]).0
            != (#[trigger] map_insert(s, k, v)[j]).0 by {
            assert(map_insert(s, k, v)[i].0 == s[i].0);
            assert(map_insert(s, k, v)[j].0 == s[j].0);
        }
    }
}

pub struct FieldMap {
    entries: Vec<(String, String)>,
}

impl View for FieldMap {
    type V = Seq<(Seq<char>, Seq<char>)>;

    closed spec fn view(&self) -> Seq<(Seq<char>, Seq<char>)> {
        Seq::new(self.entries@.len(), |i: int| (self.entries@[i].0@, self.entries@[i].1@))
    }
}

impl FieldMap {
    /// Key uniqueness, established by the constructor and preserved by
    /// every method.
    pub open spec fn wf(self) -> bool {
        map_wf(self@)
    }

    pub fn new() -> (r: FieldMap)
        ensures
            r@ =~= Seq::<(Seq<char>, Seq<char>)>::empty(),
            r.wf(),
    {
        FieldMap { entries: Vec::new() }
    }

    pub fn len(&self) -> (n: usize)
        ensures
            n == self@.len(),
    {
        self.entries.len()
    }

    pub fn key_at(&self, i: usize) -> (k: &String)
        requires
            i < self@.len(),
        ensures
            k@ == self@[i as int].0,
    {
        &self.entries[i].0
    }

    pub fn value_at(&self, i: usize) -> (v: &String)
        requires
            i < self@.len(),
        ensures
            v@ == self@[i as int].1,
    {
        &self.entries[i].1
    }

    /// The index of the entry carrying `key`, if one does.
    fn find_key(&self, key: &str) -> (r: Option<usize>)
        ensures
            match r {
                Some(i) => i < self@.len() && self@[i as int].0 == key@,
                None => !map_has_key(self@, key@),
            },
    {
        let n = self.entries.len();
        let mut i: usize = 0;
        while i < n
            invariant
                i <= n,
                n == self@.len(),
                forall|j: int| 0 <= j < i ==> (#[trigger] self@[j]).0 != key@,
            decreases n - i,
        {
            if str_eq(self.entries[i].0.as_str(), key) {
                return Some(i);
            }
            i += 1;
        }
        None
    }

    pub fn contains_key(&self, key: &str) -> (r: bool)
        ensures
            r == map_has_key(self@, key@),
    {
        self.find_key(key).is_some()
    }

    pub fn get(&self, key: &str) -> (r: Option<&String>)
        requires
            self.wf(),
        ensures
            match r {
                Some(v) => map_has_key(self@, key@) && v@ == map_value_of(self@, key@),
                None => !map_has_key(self@, key@),
            },
    {
        match self.find_key(key) {
            Some(i) => {
                proof {
                    let idx = map_key_index(self@, key@);
                    assert(self@[idx].0 == key@);
                    assert(idx == i);
                }
                Some(&self.entries[i].1)
            },
            None => None,
        }
    }

    /// Binds `key` to `value`: overwrites in place when the key is already
    /// present, appends otherwise.
    pub fn insert(&mut self, key: String, value: String)
        requires
            old(self).wf(),
        ensures
            final(self)@ == map_insert(old(self)@, key@, value@),
            final(self).wf(),
    {
        proof {
            lemma_map_insert_wf(old(self)@, key@, value@);
        }
        match self.find_key(key.as_str()) {
            Some(i) => {
                proof {
                    let idx = map_key_index(old(self)@, key@);
                    assert(old(self)@[idx].0 == key@);
                    assert(idx == i);
                }
                self.entries.remove(i);
                self.entries.insert(i, (key, value));
                proof {
                    assert(self@ =~= map_insert(old(self)@, key@, value@));
                }
            },
            None => {
                self.entries.push((key, value));
                proof {
                    assert(self@ =~= map_insert(old(self)@, key@, value@));
                }
            },
        }
    }
}

} // verus!
