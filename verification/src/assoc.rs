//! A small association map with unsigned 128-bit keys, used for the
//! executor's typed tables. Compound identifiers pack injectively into the
//! key space.

use vstd::prelude::*;

verus! {

/// An association map from packed identifiers to values; each key occurs at
/// most once.
pub struct AssocMap<V> {
    pub entries: Vec<(u128, V)>,
}

pub open spec fn keys_unique<V>(s: Seq<(u128, V)>) -> bool {
    forall|i: int, j: int|
        0 <= i < j < s.len() ==> (#[trigger] s[i]).0 != (#[trigger] s[j]).0
}

pub open spec fn assoc_has<V>(s: Seq<(u128, V)>, k: u128) -> bool {
    exists|i: int| 0 <= i < s.len() && (#[trigger] s[i]).0 == k
}

pub open spec fn assoc_at<V>(s: Seq<(u128, V)>, k: u128) -> int {
    choose|i: int| 0 <= i < s.len() && (#[trigger] s[i]).0 == k
}

pub open spec fn assoc_map_of<V>(s: Seq<(u128, V)>) -> Map<u128, V> {
    Map::new(|k: u128| assoc_has(s, k), |k: u128| s[assoc_at(s, k)].1)
}

pub proof fn lemma_assoc_entry<V>(s: Seq<(u128, V)>, i: int)
    requires
        keys_unique(s),
        0 <= i < s.len(),
    ensures
        assoc_map_of(s).contains_key(s[i].0),
        assoc_map_of(s)[s[i].0] == s[i].1,
{
}

impl<V> AssocMap<V> {
    pub open spec fn wf(self) -> bool {
        keys_unique(self.entries@)
    }

    pub fn new() -> (r: AssocMap<V>)
        ensures
            r.wf(),
            r@ =~= Map::<u128, V>::empty(),
            r.entries@.len() == 0,
    {
        AssocMap { entries: Vec::new() }
    }

    pub fn len(&self) -> (r: usize)
        ensures
            r == self.entries@.len(),
    {
        self.entries.len()
    }

    /// Point lookup.
    pub fn get(&self, key: u128) -> (r: Option<&V>)
        requires
            self.wf(),
        ensures
            match r {
                Some(v) => self@.contains_key(key) && *v == self@[key],
                None => !self@.contains_key(key),
            },
    {
        let n = self.entries.len();
        let mut i: usize = 0;
        while i < n
            invariant
                0 <= i <= n,
                n == self.entries@.len(),
                self.wf(),
                forall|m: int| 0 <= m < i ==> (#[trigger] self.entries@[m]).0 != key,
            decreases n - i,
        {
            if self.entries[i].0 == key {
                proof {
                    lemma_assoc_entry(self.entries@, i as int);
                }
                return Some(&self.entries[i].1);
            }
            i = i + 1;
        }
        None
    }

    pub fn contains_key(&self, key: u128) -> (r: bool)
        requires
            self.wf(),
        ensures
            r <==> self@.contains_key(key),
    {
        self.get(key).is_some()
    }

    /// Inserts or replaces; hands back what the key held before.
    pub fn insert(&mut self, key: u128, value: V) -> (r: Option<V>)
        requires
            old(self).wf(),
        ensures
            final(self).wf(),
            final(self)@ =~= old(self)@.insert(key, value),
            match r {
                Some(v) => old(self)@.contains_key(key) && v == old(self)@[key],
                None => !old(self)@.contains_key(key),
            },
    {
        let ghost prev = old(self).entries@;
        let n = self.entries.len();
        let mut i: usize = 0;
        while i < n
            invariant
                0 <= i <= n,
                n == self.entries@.len(),
                self.wf(),
                self.entries@ == prev,
                prev == old(self).entries@,
                forall|m: int| 0 <= m < i ==> (#[trigger] self.entries@[m]).0 != key,
            decreases n - i,
        {
            if self.entries[i].0 == key {
                proof {
                    lemma_assoc_entry(self.entries@, i as int);
                }
                let entry = self.entries.remove(i);
                self.entries.insert(i, (key, value));
                proof {
                    let s = self.entries@;
                    assert forall|m: int| 0 <= m < s.len() && m != i implies
                        s[m] == prev[m] by {
                        assert(s[m] == prev.remove(i as int).insert(i as int, s[i as int])[m]);
                    }
                    assert forall|p: int, q: int| 0 <= p < q < s.len() implies
                        (#[trigger] s[p]).0 != (#[trigger] s[q]).0 by {
                        if p != i && q != i {
                            assert(s[p] == prev[p]);
                            assert(s[q] == prev[q]);
                        }
                    }
                    assert forall|k2: u128| #[trigger] assoc_map_of(s).dom().contains(k2)
                        || assoc_map_of(prev).insert(key, value).dom().contains(k2) implies
                        (assoc_map_of(s).contains_key(k2)
                            <==> assoc_map_of(prev).insert(key, value).contains_key(k2))
                            && (assoc_map_of(s).contains_key(k2)
                                ==> assoc_map_of(s)[k2]
                                    == assoc_map_of(prev).insert(key, value)[k2]) by {
                        if k2 == key {
                            lemma_assoc_entry(s, i as int);
                        } else {
                            if assoc_has(prev, k2) {
                                let m = assoc_at(prev, k2);
                                assert(m != i);
                                assert(s[m].0 == k2);
                            }
                            if assoc_has(s, k2) {
                                let m = assoc_at(s, k2);
                                lemma_assoc_entry(s, m);
                                assert(m != i);
                                assert(prev[m].0 == k2);
                                lemma_assoc_entry(prev, m);
                            }
                        }
                    }
                    assert(assoc_map_of(s) =~= assoc_map_of(prev).insert(key, value));
                }
                return Some(entry.1);
            }
            i = i + 1;
        }
        self.entries.push((key, value));
        proof {
            let s = self.entries@;
            assert forall|k2: u128| #[trigger] assoc_map_of(s).dom().contains(k2)
                || assoc_map_of(prev).insert(key, value).dom().contains(k2) implies
                (assoc_map_of(s).contains_key(k2)
                    <==> assoc_map_of(prev).insert(key, value).contains_key(k2))
                    && (assoc_map_of(s).contains_key(k2)
                        ==> assoc_map_of(s)[k2]
                            == assoc_map_of(prev).insert(key, value)[k2]) by {
                if k2 == key {
                    lemma_assoc_entry(s, n as int);
                } else {
                    if assoc_has(prev, k2) {
                        let m = assoc_at(prev, k2);
                        assert(s[m].0 == k2);
                    }
                    if assoc_has(s, k2) {
                        let m = assoc_at(s, k2);
                        lemma_assoc_entry(s, m);
                        assert(m != n);
                        assert(prev[m].0 == k2);
                        lemma_assoc_entry(prev, m);
                    }
                }
            }
            assert(assoc_map_of(s) =~= assoc_map_of(prev).insert(key, value));
        }
        None
    }

    /// Removes a key; hands back what it held.
    pub fn remove(&mut self, key: u128) -> (r: Option<V>)
        requires
            old(self).wf(),
        ensures
            final(self).wf(),
            final(self)@ =~= old(self)@.remove(key),
            match r {
                Some(v) => old(self)@.contains_key(key) && v == old(self)@[key],
                None => !old(self)@.contains_key(key),
            },
    {
        let ghost prev = old(self).entries@;
        let n = self.entries.len();
        let mut i: usize = 0;
        while i < n
            invariant
                0 <= i <= n,
                n == self.entries@.len(),
                self.wf(),
                self.entries@ == prev,
                prev == old(self).entries@,
                forall|m: int| 0 <= m < i ==> (#[trigger] self.entries@[m]).0 != key,
            decreases n - i,
        {
            if self.entries[i].0 == key {
                proof {
                    lemma_assoc_entry(self.entries@, i as int);
                }
                let entry = self.entries.remove(i);
                proof {
                    let s = self.entries@;
                    assert forall|p: int, q: int| 0 <= p < q < s.len() implies
                        (#[trigger] s[p]).0 != (#[trigger] s[q]).0 by {
                        let pp = if p < i { p } else { p + 1 };
                        let qq = if q < i { q } else { q + 1 };
                        assert(s[p] == prev[pp]);
                        assert(s[q] == prev[qq]);
                    }
                    assert forall|k2: u128| #[trigger] assoc_map_of(s).dom().contains(k2)
                        || assoc_map_of(prev).remove(key).dom().contains(k2) implies
                        (assoc_map_of(s).contains_key(k2)
                            <==> assoc_map_of(prev).remove(key).contains_key(k2))
                            && (assoc_map_of(s).contains_key(k2)
                                ==> assoc_map_of(s)[k2]
                                    == assoc_map_of(prev).remove(key)[k2]) by {
                        if assoc_has(s, k2) {
                            let m = assoc_at(s, k2);
                            let mm = if m < i { m } else { m + 1 };
                            assert(prev[mm].0 == k2);
                            assert(prev[mm].1 == s[m].1);
                            lemma_assoc_entry(s, m);
                            lemma_assoc_entry(prev, mm);
                            if k2 == key {
                                assert(prev[i as int].0 == k2);
                            }
                        }
                        if assoc_has(prev, k2) && k2 != key {
                            let m = assoc_at(prev, k2);
                            assert(m != i);
                            if m < i {
                                assert(s[m].0 == k2);
                            } else {
                                assert(s[m - 1].0 == k2);
                            }
                        }
                    }
                    assert(assoc_map_of(s) =~= assoc_map_of(prev).remove(key));
                }
                return Some(entry.1);
            }
            i = i + 1;
        }
        proof {
            assert(self@ =~= old(self)@.remove(key));
        }
        None
    }

    pub fn entry_at(&self, i: usize) -> (r: &(u128, V))
        requires
            i < self.entries@.len(),
        ensures
            *r == self.entries@[i as int],
    {
        &self.entries[i]
    }
}

impl<V: Copy> AssocMap<V> {
    /// A copy of a table of plain values.
    pub fn duplicate(&self) -> (r: AssocMap<V>)
        requires
            self.wf(),
        ensures
            r.wf(),
            r@ == self@,
            r.entries@ == self.entries@,
    {
        let n = self.entries.len();
        let mut entries: Vec<(u128, V)> = Vec::new();
        let mut i: usize = 0;
        while i < n
            invariant
                0 <= i <= n,
                n == self.entries@.len(),
                entries@ == self.entries@.take(i as int),
            decreases n - i,
        {
            let e = &self.entries[i];
            entries.push((e.0, e.1));
            proof {
                assert(entries@ =~= self.entries@.take(i + 1));
            }
            i = i + 1;
        }
        proof {
            assert(self.entries@.take(n as int) =~= self.entries@);
        }
        AssocMap { entries }
    }
}

impl<V> View for AssocMap<V> {
    type V = Map<u128, V>;

    open spec fn view(&self) -> Map<u128, V> {
        assoc_map_of(self.entries@)
    }
}

/// Packs a coin's identifier into the table key space.
pub open spec fn utxo_key_spec(u: crate::tx::UtxoId) -> u128 {
    ((u.tx_id as int) * 0x10000 + (u.output_index as int)) as u128
}

pub fn utxo_key(u: crate::tx::UtxoId) -> (r: u128)
    ensures
        r == utxo_key_spec(u),
{
    (u.tx_id as u128) * 0x10000 + (u.output_index as u128)
}

pub proof fn lemma_utxo_key_injective(a: crate::tx::UtxoId, b: crate::tx::UtxoId)
    requires
        utxo_key_spec(a) == utxo_key_spec(b),
    ensures
        a == b,
{
    assert((a.tx_id as int) * 0x10000 + (a.output_index as int) < 0x100000000000000000000) by (nonlinear_arith)
        requires
            a.tx_id <= 0xffffffffffffffffu64,
            a.output_index < 0x10000,
    ;
    assert((b.tx_id as int) * 0x10000 + (b.output_index as int) < 0x100000000000000000000) by (nonlinear_arith)
        requires
            b.tx_id <= 0xffffffffffffffffu64,
            b.output_index < 0x10000,
    ;
    assert(a.tx_id == b.tx_id && a.output_index == b.output_index) by (nonlinear_arith)
        requires
            (a.tx_id as int) * 0x10000 + (a.output_index as int) == (b.tx_id as int) * 0x10000
                + (b.output_index as int),
            a.output_index < 0x10000,
            b.output_index < 0x10000,
    ;
}

/// Packs a contract-and-asset pair into the table key space.
pub open spec fn asset_key_spec(contract_id: u64, asset_id: u64) -> u128 {
    ((contract_id as int) * 0x10000000000000000 + (asset_id as int)) as u128
}

pub fn asset_key(contract_id: u64, asset_id: u64) -> (r: u128)
    ensures
        r == asset_key_spec(contract_id, asset_id),
{
    (contract_id as u128) * 0x10000000000000000 + (asset_id as u128)
}

pub proof fn lemma_asset_key_injective(c1: u64, a1: u64, c2: u64, a2: u64)
    requires
        asset_key_spec(c1, a1) == asset_key_spec(c2, a2),
    ensures
        c1 == c2,
        a1 == a2,
{
    assert((c1 as int) * 0x10000000000000000 + (a1 as int)
        < 0x100000000000000000000000000000000) by (nonlinear_arith)
        requires
            c1 <= 0xffffffffffffffffu64,
            a1 < 0x10000000000000000,
    ;
    assert((c2 as int) * 0x10000000000000000 + (a2 as int)
        < 0x100000000000000000000000000000000) by (nonlinear_arith)
        requires
            c2 <= 0xffffffffffffffffu64,
            a2 < 0x10000000000000000,
    ;
    assert(c1 == c2 && a1 == a2) by (nonlinear_arith)
        requires
            (c1 as int) * 0x10000000000000000 + (a1 as int) == (c2 as int)
                * 0x10000000000000000 + (a2 as int),
            a1 < 0x10000000000000000,
            a2 < 0x10000000000000000,
    ;
}

} // verus!
