//! One column of the key-value store: an ordered map from byte keys to byte
//! values, kept as a vector of entries sorted strictly by the lexicographic
//! key order. Zero-length keys and zero-length values are ordinary entries.

use vstd::prelude::*;
use crate::order::{bytes_cmp, lex_lt, lemma_lex_lt_asymmetric, KeyCmp};

verus! {

/// The entry keys appear in strictly increasing lexicographic order.
pub open spec fn entries_sorted(s: Seq<(Vec<u8>, Vec<u8>)>) -> bool {
    forall|i: int, j: int|
        0 <= i < j < s.len() ==> lex_lt(#[trigger] s[i].0@, #[trigger] s[j].0@)
}

pub open spec fn seq_has_key(s: Seq<(Vec<u8>, Vec<u8>)>, k: Seq<u8>) -> bool {
    exists|i: int| 0 <= i < s.len() && (#[trigger] s[i].0@) == k
}

pub open spec fn seq_key_index(s: Seq<(Vec<u8>, Vec<u8>)>, k: Seq<u8>) -> int {
    choose|i: int| 0 <= i < s.len() && (#[trigger] s[i].0@) == k
}

/// The map a sorted entry sequence denotes.
pub open spec fn map_of(s: Seq<(Vec<u8>, Vec<u8>)>) -> Map<Seq<u8>, Seq<u8>> {
    Map::new(|k: Seq<u8>| seq_has_key(s, k), |k: Seq<u8>| s[seq_key_index(s, k)].1@)
}

/// Distinct entries of a sorted sequence carry distinct keys.
pub proof fn lemma_key_index_unique(s: Seq<(Vec<u8>, Vec<u8>)>, i: int, j: int)
    requires
        entries_sorted(s),
        0 <= i < s.len(),
        0 <= j < s.len(),
        s[i].0@ == s[j].0@,
    ensures
        i == j,
{
    if i < j || j < i {
        lemma_lex_lt_asymmetric(s[i].0@, s[j].0@);
    }
}

/// Each entry of a sorted sequence is what the map holds for its key.
pub proof fn lemma_map_of_entry(s: Seq<(Vec<u8>, Vec<u8>)>, i: int)
    requires
        entries_sorted(s),
        0 <= i < s.len(),
    ensures
        map_of(s).contains_key(s[i].0@),
        map_of(s)[s[i].0@] == s[i].1@,
{
    lemma_key_index_unique(s, seq_key_index(s, s[i].0@), i);
}

/// A sorted association table over byte strings.
pub struct Table {
    pub entries: Vec<(Vec<u8>, Vec<u8>)>,
}

impl Table {
    pub open spec fn wf(self) -> bool {
        entries_sorted(self.entries@)
    }

    /// An empty table.
    pub fn new() -> (r: Table)
        ensures
            r.wf(),
            r@ =~= Map::<Seq<u8>, Seq<u8>>::empty(),
            r.entries@.len() == 0,
    {
        Table { entries: Vec::new() }
    }

    pub fn len(&self) -> (r: usize)
        ensures
            r == self.entries@.len(),
    {
        self.entries.len()
    }

    /// Point lookup.
    pub fn get(&self, key: &Vec<u8>) -> (r: Option<&Vec<u8>>)
        requires
            self.wf(),
        ensures
            match r {
                Some(v) => self@.contains_key(key@) && v@ == self@[key@],
                None => !self@.contains_key(key@),
            },
    {
        let n = self.entries.len();
        let mut i: usize = 0;
        while i < n
            invariant
                0 <= i <= n,
                n == self.entries@.len(),
                self.wf(),
                forall|m: int| 0 <= m < i ==> (#[trigger] self.entries@[m].0@) != key@,
            decreases n - i,
        {
            let e = &self.entries[i];
            match bytes_cmp(&e.0, key) {
                KeyCmp::Equal => {
                    proof {
                        lemma_map_of_entry(self.entries@, i as int);
                    }
                    return Some(&self.entries[i].1);
                },
                _ => {},
            }
            i = i + 1;
        }
        None
    }

    /// Position of `key` among the sorted entries: the index of the first
    /// entry at or after it, and whether that entry carries `key` itself.
    fn find_at_or_after(&self, key: &Vec<u8>) -> (r: (usize, bool))
        requires
            self.wf(),
        ensures
            r.0 <= self.entries@.len(),
            forall|m: int| 0 <= m < r.0 ==> lex_lt(#[trigger] self.entries@[m].0@, key@),
            r.1 ==> r.0 < self.entries@.len() && self.entries@[r.0 as int].0@ == key@,
            !r.1 ==> forall|m: int|
                r.0 <= m < self.entries@.len()
                    ==> lex_lt(key@, #[trigger] self.entries@[m].0@),
    {
        let n = self.entries.len();
        let mut i: usize = 0;
        while i < n
            invariant
                0 <= i <= n,
                n == self.entries@.len(),
                self.wf(),
                forall|m: int| 0 <= m < i ==> lex_lt(#[trigger] self.entries@[m].0@, key@),
            decreases n - i,
        {
            let e = &self.entries[i];
            match bytes_cmp(&e.0, key) {
                KeyCmp::Less => {
                    i = i + 1;
                },
                KeyCmp::Equal => {
                    return (i, true);
                },
                KeyCmp::Greater => {
                    proof {
                        assert forall|m: int| i <= m < n implies
                            lex_lt(key@, #[trigger] self.entries@[m].0@) by {
                            if m > i {
                                crate::order::lemma_lex_lt_transitive(
                                    key@,
                                    self.entries@[i as int].0@,
                                    self.entries@[m].0@,
                                );
                            }
                        }
                    }
                    return (i, false);
                },
            }
        }
        (i, false)
    }

    /// Inserts or replaces; the table stays sorted.
    pub fn insert(&mut self, key: Vec<u8>, value: Vec<u8>)
        requires
            old(self).wf(),
        ensures
            final(self).wf(),
            final(self)@ =~= old(self)@.insert(key@, value@),
    {
        let ghost old_entries = old(self).entries@;
        let (i, found) = self.find_at_or_after(&key);
        if found {
            let _ = self.entries.remove(i);
            self.entries.insert(i, (key, value));
            proof {
                lemma_splice_view(old_entries, self.entries@, i as int, true);
            }
        } else {
            self.entries.insert(i, (key, value));
            proof {
                lemma_splice_view(old_entries, self.entries@, i as int, false);
            }
        }
    }

    /// Removes a key; returns the value that was there.
    pub fn remove(&mut self, key: &Vec<u8>) -> (r: Option<Vec<u8>>)
        requires
            old(self).wf(),
        ensures
            final(self).wf(),
            final(self)@ =~= old(self)@.remove(key@),
            match r {
                Some(v) => old(self)@.contains_key(key@) && v@ == old(self)@[key@],
                None => !old(self)@.contains_key(key@),
            },
    {
        let n = self.entries.len();
        let mut i: usize = 0;
        while i < n
            invariant
                0 <= i <= n,
                n == self.entries@.len(),
                self.wf(),
                self.entries@ == old(self).entries@,
                forall|m: int| 0 <= m < i ==> (#[trigger] self.entries@[m].0@) != key@,
            decreases n - i,
        {
            let e = &self.entries[i];
            match bytes_cmp(&e.0, key) {
                KeyCmp::Equal => {
                    proof {
                        lemma_map_of_entry(self.entries@, i as int);
                    }
                    let entry = self.entries.remove(i);
                    proof {
                        lemma_remove_view(old(self).entries@, self.entries@, i as int);
                    }
                    return Some(entry.1);
                },
                _ => {},
            }
            i = i + 1;
        }
        proof {
            assert(!seq_has_key(self.entries@, key@));
            assert(self@ =~= old(self)@.remove(key@));
        }
        None
    }

    /// First entry whose key is at or after `start` in the byte order.
    pub fn seek(&self, start: &Vec<u8>) -> (r: Option<usize>)
        requires
            self.wf(),
        ensures
            match r {
                Some(i) => i < self.entries@.len()
                    && !lex_lt(self.entries@[i as int].0@, start@)
                    && forall|m: int|
                        0 <= m < i ==> lex_lt(#[trigger] self.entries@[m].0@, start@),
                None => forall|m: int|
                    0 <= m < self.entries@.len()
                        ==> lex_lt(#[trigger] self.entries@[m].0@, start@),
            },
    {
        let n = self.entries.len();
        let mut i: usize = 0;
        while i < n
            invariant
                0 <= i <= n,
                n == self.entries@.len(),
                self.wf(),
                forall|m: int| 0 <= m < i ==> lex_lt(#[trigger] self.entries@[m].0@, start@),
            decreases n - i,
        {
            let e = &self.entries[i];
            match bytes_cmp(&e.0, start) {
                KeyCmp::Less => {
                    i = i + 1;
                },
                _ => {
                    proof {
                        lemma_lex_lt_asymmetric(self.entries@[i as int].0@, start@);
                    }
                    return Some(i);
                },
            }
        }
        None
    }

    /// Borrow of the entry at an index.
    pub fn entry_at(&self, i: usize) -> (r: &(Vec<u8>, Vec<u8>))
        requires
            i < self.entries@.len(),
        ensures
            *r == self.entries@[i as int],
    {
        &self.entries[i]
    }
}

/// After replacing entry `i` in place (`replaced`), or inserting a fresh entry
/// at position `i`, the new sequence is sorted and denotes the old map with
/// the new entry's binding added.
proof fn lemma_splice_view(
    prev: Seq<(Vec<u8>, Vec<u8>)>,
    s: Seq<(Vec<u8>, Vec<u8>)>,
    i: int,
    replaced: bool,
)
    requires
        entries_sorted(prev),
        0 <= i < s.len(),
        replaced ==> s.len() == prev.len() && prev[i].0@ == s[i].0@,
        !replaced ==> s.len() == prev.len() + 1,
        forall|m: int| 0 <= m < i ==> s[m] == prev[m],
        replaced ==> forall|m: int| i < m < s.len() ==> s[m] == prev[m],
        !replaced ==> forall|m: int| i < m < s.len() ==> s[m] == prev[m - 1],
        forall|m: int| 0 <= m < i ==> lex_lt(#[trigger] prev[m].0@, s[i].0@),
        !replaced ==> forall|m: int|
            i <= m < prev.len() ==> lex_lt(s[i].0@, #[trigger] prev[m].0@),
    ensures
        entries_sorted(s),
        map_of(s) =~= map_of(prev).insert(s[i].0@, s[i].1@),
{
    let key = s[i].0@;
    let value = s[i].1@;
    assert forall|p: int, q: int| 0 <= p < q < s.len() implies
        lex_lt(s[p].0@, s[q].0@) by {
        if replaced {
            if p < i && q > i {
                assert(lex_lt(prev[p].0@, prev[q].0@));
            }
        } else {
            if p < i && q > i {
                assert(lex_lt(prev[p].0@, prev[q - 1].0@));
            }
        }
    }
    assert forall|k2: Seq<u8>| #[trigger] map_of(s).dom().contains(k2)
            || map_of(prev).insert(key, value).dom().contains(k2) implies
        (map_of(prev).insert(key, value).contains_key(k2) <==> map_of(s).contains_key(k2))
            && (map_of(s).contains_key(k2)
                ==> map_of(s)[k2] == map_of(prev).insert(key, value)[k2]) by {
        if k2 == key {
            lemma_map_of_entry(s, i);
        } else {
            if seq_has_key(prev, k2) {
                let m = seq_key_index(prev, k2);
                if m < i {
                    assert(s[m].0@ == k2);
                } else if replaced {
                    assert(m != i);
                    assert(s[m].0@ == k2);
                } else {
                    assert(s[m + 1].0@ == k2);
                }
                assert(seq_has_key(s, k2));
            }
            if seq_has_key(s, k2) {
                let m = seq_key_index(s, k2);
                lemma_key_index_unique(s, m, m);
                assert(m != i);
                let mp = if m < i || replaced { m } else { m - 1 };
                assert(prev[mp].0@ == k2);
                assert(prev[mp].1@ == s[m].1@);
                lemma_map_of_entry(prev, mp);
                lemma_map_of_entry(s, m);
            }
        }
    }
    assert(map_of(s) =~= map_of(prev).insert(key, value));
}

/// Removing the entry at `i` keeps the sequence sorted and removes exactly its
/// key from the denoted map.
proof fn lemma_remove_view(prev: Seq<(Vec<u8>, Vec<u8>)>, s: Seq<(Vec<u8>, Vec<u8>)>, i: int)
    requires
        entries_sorted(prev),
        0 <= i < prev.len(),
        s.len() + 1 == prev.len(),
        forall|m: int| 0 <= m < i ==> s[m] == prev[m],
        forall|m: int| i <= m < s.len() ==> s[m] == prev[m + 1],
    ensures
        entries_sorted(s),
        map_of(s) =~= map_of(prev).remove(prev[i].0@),
{
    let key = prev[i].0@;
    assert forall|p: int, q: int| 0 <= p < q < s.len() implies
        lex_lt(s[p].0@, s[q].0@) by {
        if p < i && q >= i {
            assert(lex_lt(prev[p].0@, prev[q + 1].0@));
        } else if p >= i {
            assert(lex_lt(prev[p + 1].0@, prev[q + 1].0@));
        }
    }
    assert forall|k2: Seq<u8>| #[trigger] map_of(s).dom().contains(k2)
            || map_of(prev).remove(key).dom().contains(k2) implies
        (map_of(prev).remove(key).contains_key(k2) <==> map_of(s).contains_key(k2))
            && (map_of(s).contains_key(k2)
                ==> map_of(s)[k2] == map_of(prev).remove(key)[k2]) by {
        if seq_has_key(s, k2) {
            let m = seq_key_index(s, k2);
            let mp = if m < i { m } else { m + 1 };
            assert(prev[mp].0@ == k2);
            if k2 == key {
                lemma_key_index_unique(prev, mp, i);
            }
            lemma_map_of_entry(prev, mp);
            lemma_map_of_entry(s, m);
        }
        if seq_has_key(prev, k2) && k2 != key {
            let m = seq_key_index(prev, k2);
            assert(m != i);
            if m < i {
                assert(s[m].0@ == k2);
            } else {
                assert(m > i);
                assert(s[m - 1].0@ == k2);
            }
            assert(seq_has_key(s, k2));
        }
    }
    assert(map_of(s) =~= map_of(prev).remove(key));
}

impl View for Table {
    type V = Map<Seq<u8>, Seq<u8>>;

    open spec fn view(&self) -> Map<Seq<u8>, Seq<u8>> {
        map_of(self.entries@)
    }
}

} // verus!
