//! A small insertion-ordered map keyed by `u32`, backed by a vector of
//! entries. It stands in for hash maps where the engine needs verified
//! lookup, overwrite and enumeration: the channel table of a bank and the
//! bank tables of a device.
//!
//! Lookup and overwrite both act on the first entry carrying a key, so the
//! denoted map is well defined without a separate uniqueness invariant (and
//! the operations never create a duplicate key anyway).

use vstd::prelude::*;

verus! {

/// An insertion-ordered association of `u32` keys to values.
#[derive(Debug, Clone, PartialEq)]
pub struct IndexMap<V> {
    entries: Vec<(u32, V)>,
}

/// The map a sequence of entries denotes; the first entry for a key wins.
pub open spec fn entries_as_map<V>(s: Seq<(u32, V)>) -> Map<u32, V>
    decreases s.len(),
{
    if s.len() == 0 {
        Map::<u32, V>::empty()
    } else {
        entries_as_map(s.drop_first()).insert(s[0].0, s[0].1)
    }
}

/// No two entries share a key.
pub open spec fn entries_unique<V>(s: Seq<(u32, V)>) -> bool {
    forall|i: int, j: int|
        0 <= i < j < s.len() ==> (#[trigger] s[i]).0 != (#[trigger] s[j]).0
}

/// Where a key first occurs in an entry sequence, or the length when absent.
pub open spec fn spec_entry_index<V>(s: Seq<(u32, V)>, k: u32) -> int
    decreases s.len(),
{
    if s.len() == 0 {
        0
    } else if s[0].0 == k {
        0
    } else {
        1 + spec_entry_index(s.drop_first(), k)
    }
}

/// What `set` does to the entry sequence: overwrite in place, or append.
pub open spec fn spec_entries_after_set<V>(s: Seq<(u32, V)>, k: u32, v: V) -> Seq<(u32, V)> {
    let i = spec_entry_index(s, k);
    if i < s.len() {
        s.update(i, (k, v))
    } else {
        s.push((k, v))
    }
}

proof fn lemma_as_map_lookup<V>(s: Seq<(u32, V)>, i: int)
    requires
        0 <= i < s.len(),
        s[i].0 == (s[i]).0,
        forall|j: int| 0 <= j < i ==> (#[trigger] s[j]).0 != s[i].0,
    ensures
        entries_as_map(s).contains_key(s[i].0),
        entries_as_map(s)[s[i].0] == s[i].1,
    decreases s.len(),
{
    if i > 0 {
        let t = s.drop_first();
        assert(t[i - 1] == s[i]);
        assert(forall|j: int| 0 <= j < i - 1 ==> (#[trigger] t[j]).0 != t[i - 1].0);
        lemma_as_map_lookup(t, i - 1);
        assert(s[0].0 != s[i].0);
    }
}

proof fn lemma_as_map_absent<V>(s: Seq<(u32, V)>, k: u32)
    requires
        forall|i: int| 0 <= i < s.len() ==> (#[trigger] s[i]).0 != k,
    ensures
        !entries_as_map(s).contains_key(k),
    decreases s.len(),
{
    if s.len() > 0 {
        lemma_as_map_absent(s.drop_first(), k);
    }
}

proof fn lemma_as_map_overwrite<V>(s: Seq<(u32, V)>, i: int, k: u32, v: V)
    requires
        0 <= i < s.len(),
        s[i].0 == k,
        forall|j: int| 0 <= j < i ==> (#[trigger] s[j]).0 != k,
    ensures
        entries_as_map(s.update(i, (k, v))) == entries_as_map(s).insert(k, v),
    decreases s.len(),
{
    let s2 = s.update(i, (k, v));
    if i == 0 {
        assert(s2.drop_first() =~= s.drop_first());
        assert(entries_as_map(s2) =~= entries_as_map(s).insert(k, v));
    } else {
        let t = s.drop_first();
        assert(t[i - 1].0 == k);
        assert(forall|j: int| 0 <= j < i - 1 ==> (#[trigger] t[j]).0 != k);
        lemma_as_map_overwrite(t, i - 1, k, v);
        assert(s2.drop_first() =~= t.update(i - 1, (k, v)));
        assert(s2[0] == s[0]);
        assert(s[0].0 != k);
        assert(entries_as_map(s2) =~= entries_as_map(s).insert(k, v));
    }
}

proof fn lemma_as_map_append<V>(s: Seq<(u32, V)>, k: u32, v: V)
    requires
        forall|j: int| 0 <= j < s.len() ==> (#[trigger] s[j]).0 != k,
    ensures
        entries_as_map(s.push((k, v))) == entries_as_map(s).insert(k, v),
    decreases s.len(),
{
    let s2 = s.push((k, v));
    if s.len() == 0 {
        assert(s2[0] == (k, v));
        assert(s2.drop_first() =~= s);
        assert(entries_as_map(s2) == entries_as_map(s2.drop_first()).insert(s2[0].0, s2[0].1));
        assert(entries_as_map(s2) =~= entries_as_map(s).insert(k, v));
    } else {
        let t = s.drop_first();
        lemma_as_map_append(t, k, v);
        assert(s2.drop_first() =~= t.push((k, v)));
        assert(s2[0] == s[0]);
        assert(s[0].0 != k);
        assert(entries_as_map(s2) =~= entries_as_map(s).insert(k, v));
    }
}

proof fn lemma_as_map_remove<V>(s: Seq<(u32, V)>, i: int, k: u32)
    requires
        entries_unique(s),
        0 <= i < s.len(),
        s[i].0 == k,
    ensures
        entries_as_map(s.remove(i)) == entries_as_map(s).remove(k),
    decreases s.len(),
{
    if i == 0 {
        assert(s.remove(0) =~= s.drop_first());
        assert(forall|j: int|
            0 <= j < s.drop_first().len() ==> (#[trigger] s.drop_first()[j]).0 != k);
        lemma_as_map_absent(s.drop_first(), k);
        assert(entries_as_map(s.remove(i)) =~= entries_as_map(s).remove(k));
    } else {
        let t = s.drop_first();
        assert(entries_unique(t));
        assert(t[i - 1].0 == k);
        lemma_as_map_remove(t, i - 1, k);
        assert(s.remove(i).drop_first() =~= t.remove(i - 1));
        assert(s.remove(i)[0] == s[0]);
        assert(s[0].0 != k);
        assert(entries_as_map(s.remove(i)) =~= entries_as_map(s).remove(k));
    }
}

impl<V> IndexMap<V> {
    /// The entries in insertion order.
    pub closed spec fn entries_seq(&self) -> Seq<(u32, V)> {
        self.entries@
    }

    /// Keys are unique. Every map this module hands out maintains this.
    pub open spec fn wf(&self) -> bool {
        entries_unique(self.entries_seq())
    }

    /// An empty map.
    pub fn new() -> (r: IndexMap<V>)
        ensures
            r@ == Map::<u32, V>::empty(),
            r.entries_seq() == Seq::<(u32, V)>::empty(),
            r.wf(),
    {
        IndexMap { entries: Vec::new() }
    }

    /// Remove and return the value under a key, for read-modify-write
    /// update cycles; the caller puts the updated value back with `set`.
    pub fn take(&mut self, k: u32) -> (r: Option<V>)
        requires
            old(self).wf(),
        ensures
            final(self).wf(),
            match r {
                Some(v) => {
                    &&& old(self)@.contains_key(k)
                    &&& v == old(self)@[k]
                    &&& final(self)@ == old(self)@.remove(k)
                },
                None => {
                    &&& !old(self)@.contains_key(k)
                    &&& *final(self) == *old(self)
                },
            },
    {
        let n = self.entries.len();
        let mut i: usize = 0;
        while i < n
            invariant
                n == self.entries@.len(),
                i <= n,
                *self == *old(self),
                entries_unique(self.entries@),
                forall|j: int| 0 <= j < i ==> (#[trigger] self.entries@[j]).0 != k,
            decreases n - i,
        {
            if self.entries[i].0 == k {
                proof {
                    lemma_as_map_lookup(self.entries@, i as int);
                    lemma_as_map_remove(self.entries@, i as int, k);
                    assert(entries_unique(self.entries@.remove(i as int)));
                }
                let (_, v) = self.entries.remove(i);
                return Some(v);
            }
            i += 1;
        }
        proof {
            lemma_as_map_absent(self.entries@, k);
        }
        None
    }

    /// How many entries the map holds.
    pub fn len(&self) -> (r: usize)
        ensures
            r == self.entries_seq().len(),
    {
        self.entries.len()
    }

    /// The entry at a position, in insertion order.
    pub fn entry_at(&self, i: usize) -> (r: &(u32, V))
        requires
            i < self.entries_seq().len(),
        ensures
            *r == self.entries_seq()[i as int],
    {
        &self.entries[i]
    }

    /// Look a key up.
    pub fn get(&self, k: u32) -> (r: Option<&V>)
        ensures
            match r {
                Some(v) => self@.contains_key(k) && *v == self@[k],
                None => !self@.contains_key(k),
            },
    {
        let n = self.entries.len();
        let mut i: usize = 0;
        while i < n
            invariant
                n == self.entries@.len(),
                i <= n,
                forall|j: int| 0 <= j < i ==> (#[trigger] self.entries@[j]).0 != k,
            decreases n - i,
        {
            if self.entries[i].0 == k {
                proof {
                    lemma_as_map_lookup(self.entries@, i as int);
                }
                return Some(&self.entries[i].1);
            }
            i += 1;
        }
        proof {
            lemma_as_map_absent(self.entries@, k);
        }
        None
    }

    /// Insert or overwrite. An existing key keeps its position; a new key
    /// goes to the end.
    pub fn set(&mut self, k: u32, v: V)
        ensures
            final(self)@ == old(self)@.insert(k, v),
            final(self).entries_seq() == spec_entries_after_set(old(self).entries_seq(), k, v),
            old(self).wf() ==> final(self).wf(),
    {
        let n = self.entries.len();
        let mut i: usize = 0;
        while i < n
            invariant
                n == self.entries@.len(),
                i <= n,
                *self == *old(self),
                forall|j: int| 0 <= j < i ==> (#[trigger] self.entries@[j]).0 != k,
            decreases n - i,
        {
            if self.entries[i].0 == k {
                proof {
                    lemma_as_map_overwrite(self.entries@, i as int, k, v);
                    lemma_entry_index_found(self.entries@, k, i as int);
                }
                self.entries.set(i, (k, v));
                return ;
            }
            i += 1;
        }
        proof {
            lemma_as_map_append(self.entries@, k, v);
            lemma_entry_index_missing(self.entries@, k);
        }
        self.entries.push((k, v));
    }
}

proof fn lemma_entry_index_found<V>(s: Seq<(u32, V)>, k: u32, i: int)
    requires
        0 <= i < s.len(),
        s[i].0 == k,
        forall|j: int| 0 <= j < i ==> (#[trigger] s[j]).0 != k,
    ensures
        spec_entry_index(s, k) == i,
    decreases s.len(),
{
    if s[0].0 == k {
    } else {
        let t = s.drop_first();
        assert(t[i - 1].0 == k);
        assert(forall|j: int| 0 <= j < i - 1 ==> (#[trigger] t[j]).0 != k);
        lemma_entry_index_found(t, k, i - 1);
    }
}

proof fn lemma_entry_index_missing<V>(s: Seq<(u32, V)>, k: u32)
    requires
        forall|j: int| 0 <= j < s.len() ==> (#[trigger] s[j]).0 != k,
    ensures
        spec_entry_index(s, k) == s.len(),
    decreases s.len(),
{
    if s.len() > 0 {
        lemma_entry_index_missing(s.drop_first(), k);
    }
}

impl<V> View for IndexMap<V> {
    type V = Map<u32, V>;

    closed spec fn view(&self) -> Map<u32, V> {
        entries_as_map(self.entries@)
    }
}

} // verus!
