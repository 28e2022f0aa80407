//! The historical overlay: a store that records, per block height, the value
//! every touched cell held before the commit at that height, so that a
//! read-only view rooted at any past height reconstructs the state visible at
//! that height, and the latest block can be rolled back.
//!
//! A commit at height `H` writes, for each `(column, key)` cell it touches,
//! an entry into the column's historical duplicate under the key
//! `key ++ be(H)` whose value encodes the cell's prior state. A view rooted
//! at height `H` seeks the duplicate column forward from `key ++ be(H + 1)`:
//! the first entry still carrying the `key` prefix belongs to the earliest
//! commit after `H` that touched the key, so its recorded prior value is the
//! state at `H`; if no such entry exists the key was never touched after `H`
//! and the original column already holds the answer.

use vstd::prelude::*;
use crate::kv::{
    col_after, changes_map, Changes, Column, MemoryStore, PlainColumn, StorageError, WriteOp,
    WriteOperation,
};
use crate::order::{be8, clone_bytes, concat_bytes, enc_be8, lex_lt};
use crate::table::Table;

verus! {

/// How far back the store keeps history. Entries outside a bounded window may
/// be pruned lazily; this store keeps them until they are rolled back.
#[derive(PartialEq, Eq, Structural, Clone, Copy, Debug)]
pub enum StateRewindPolicy {
    /// No history is recorded; historical views and rollback are unavailable.
    NoRewind,
    /// History is kept for the given number of past heights.
    RewindRange { size: u64 },
    /// History is kept for every height.
    RewindFullRange,
}

impl StateRewindPolicy {
    /// Does this policy record history at all?
    pub open spec fn records(self) -> bool {
        self != StateRewindPolicy::NoRewind
    }
}

/// One recorded commit: its height and the change map it applied.
pub ghost struct HCommit {
    pub height: u64,
    pub changes: Map<(PlainColumn, Seq<u8>), WriteOp>,
}

pub open spec fn heights_increasing(hist: Seq<HCommit>) -> bool {
    forall|i: int, j: int|
        0 <= i < j < hist.len()
            ==> (#[trigger] hist[i]).height < (#[trigger] hist[j]).height
}

/// The state of one plain column after a history of commits, starting empty.
pub open spec fn state_after(hist: Seq<HCommit>, c: PlainColumn) -> Map<Seq<u8>, Seq<u8>>
    decreases hist.len(),
{
    if hist.len() == 0 {
        Map::empty()
    } else {
        col_after(state_after(hist.drop_last(), c), hist.last().changes, c)
    }
}

/// A point lookup in a column map.
pub open spec fn lookup(m: Map<Seq<u8>, Seq<u8>>, k: Seq<u8>) -> Option<Seq<u8>> {
    if m.contains_key(k) {
        Some(m[k])
    } else {
        None
    }
}

/// `n` splits the history into the commits at or under height `h` and those
/// above it.
pub open spec fn is_cut(hist: Seq<HCommit>, h: u64, n: int) -> bool {
    &&& 0 <= n <= hist.len()
    &&& forall|i: int| 0 <= i < n ==> (#[trigger] hist[i]).height <= h
    &&& forall|i: int| n <= i < hist.len() ==> (#[trigger] hist[i]).height > h
}

/// How many leading commits have height at or under `h`.
pub open spec fn cut(hist: Seq<HCommit>, h: u64) -> int {
    choose|n: int| is_cut(hist, h, n)
}

pub proof fn lemma_cut_exists(hist: Seq<HCommit>, h: u64)
    requires
        heights_increasing(hist),
    ensures
        is_cut(hist, h, cut(hist, h)),
    decreases hist.len(),
{
    if hist.len() == 0 {
        assert(is_cut(hist, h, 0));
    } else if hist.last().height <= h {
        assert(is_cut(hist, h, hist.len() as int));
    } else {
        let rest = hist.drop_last();
        assert(heights_increasing(rest)) by {
            assert forall|i: int, j: int| 0 <= i < j < rest.len() implies
                (#[trigger] rest[i]).height < (#[trigger] rest[j]).height by {
                assert(hist[i] == rest[i]);
                assert(hist[j] == rest[j]);
            }
        }
        lemma_cut_exists(rest, h);
        let n = cut(rest, h);
        assert(is_cut(hist, h, n)) by {
            assert forall|i: int| 0 <= i < n implies (#[trigger] hist[i]).height <= h by {
                assert(rest[i] == hist[i]);
            }
            assert forall|i: int| n <= i < hist.len() implies
                (#[trigger] hist[i]).height > h by {
                if i < hist.len() - 1 {
                    assert(rest[i] == hist[i]);
                }
            }
        }
    }
}

/// The state a fresh node reaches by applying only the commits at heights up
/// to `h`.
pub open spec fn state_at_height(hist: Seq<HCommit>, h: u64, c: PlainColumn) -> Map<
    Seq<u8>,
    Seq<u8>,
> {
    state_after(hist.take(cut(hist, h)), c)
}

/// The prior state of cell `(c, k)` as the commit at index `i` saw it.
pub open spec fn prior_op(hist: Seq<HCommit>, i: int, c: PlainColumn, k: Seq<u8>) -> WriteOp {
    match lookup(state_after(hist.take(i), c), k) {
        Some(v) => WriteOp::Insert(v),
        None => WriteOp::Remove,
    }
}

/// The byte encoding of a recorded operation: a tag byte, then the payload.
pub open spec fn enc_op_spec(op: WriteOp) -> Seq<u8> {
    match op {
        WriteOp::Insert(v) => seq![1u8] + v,
        WriteOp::Remove => seq![0u8],
    }
}

pub open spec fn dec_op_spec(s: Seq<u8>) -> Option<WriteOp> {
    if s.len() >= 1 && s[0] == 1 {
        Some(WriteOp::Insert(s.skip(1)))
    } else if s.len() == 1 && s[0] == 0 {
        Some(WriteOp::Remove)
    } else {
        None
    }
}

pub proof fn lemma_op_round_trip(op: WriteOp)
    ensures
        dec_op_spec(enc_op_spec(op)) == Some(op),
{
    match op {
        WriteOp::Insert(v) => {
            assert((seq![1u8] + v).skip(1) =~= v);
        },
        WriteOp::Remove => {},
    }
}

/// Encodes a recorded operation.
pub fn enc_op(op: &WriteOperation) -> (r: Vec<u8>)
    ensures
        r@ == enc_op_spec(op.view_op()),
{
    match op {
        WriteOperation::Insert(v) => {
            let mut r: Vec<u8> = Vec::new();
            r.push(1u8);
            let n = v.len();
            let mut i: usize = 0;
            while i < n
                invariant
                    0 <= i <= n,
                    n == v@.len(),
                    r@ == seq![1u8] + v@.take(i as int),
                decreases n - i,
            {
                r.push(v[i]);
                proof {
                    assert(r@ =~= seq![1u8] + v@.take(i + 1));
                }
                i = i + 1;
            }
            proof {
                assert(seq![1u8] + v@.take(n as int) =~= seq![1u8] + v@);
            }
            r
        },
        WriteOperation::Remove => {
            let mut r: Vec<u8> = Vec::new();
            r.push(0u8);
            proof {
                assert(r@ =~= seq![0u8]);
            }
            r
        },
    }
}

/// Decodes a recorded operation.
pub fn dec_op(v: &Vec<u8>) -> (r: Option<WriteOperation>)
    ensures
        match r {
            Some(op) => dec_op_spec(v@) == Some(op.view_op()),
            None => dec_op_spec(v@) is None,
        },
{
    if v.len() >= 1 {
        let tag = v[0];
        if tag == 1 {
            let mut payload: Vec<u8> = Vec::new();
            let n = v.len();
            let mut i: usize = 1;
            while i < n
                invariant
                    1 <= i <= n,
                    n == v@.len(),
                    payload@ == v@.skip(1).take(i - 1),
                decreases n - i,
            {
                payload.push(v[i]);
                proof {
                    assert(v@.skip(1)[i - 1] == v@[i as int]);
                    assert(payload@ =~= v@.skip(1).take(i as int));
                }
                i = i + 1;
            }
            proof {
                assert(v@.skip(1).take(n - 1) =~= v@.skip(1));
            }
            Some(WriteOperation::Insert(payload))
        } else if tag == 0 && v.len() == 1 {
            Some(WriteOperation::Remove)
        } else {
            None
        }
    } else {
        None
    }
}

/// Is `k2` a duplicate-column key of column `c` recorded by some commit?
pub open spec fn dup_entry(
    hist: Seq<HCommit>,
    c: PlainColumn,
    i: int,
    k: Seq<u8>,
    k2: Seq<u8>,
) -> bool {
    &&& 0 <= i < hist.len()
    &&& hist[i].changes.contains_key((c, k))
    &&& k2 == k + be8(hist[i].height)
}

pub open spec fn dup_has(hist: Seq<HCommit>, c: PlainColumn, k2: Seq<u8>) -> bool {
    exists|i: int, k: Seq<u8>| dup_entry(hist, c, i, k, k2)
}

pub open spec fn dup_value(hist: Seq<HCommit>, c: PlainColumn, k2: Seq<u8>) -> Seq<u8> {
    let (i, k) = choose|i: int, k: Seq<u8>| dup_entry(hist, c, i, k, k2);
    enc_op_spec(prior_op(hist, i, c, k))
}

/// What the duplicate column of `c` must hold after a history of commits.
pub open spec fn dup_map(hist: Seq<HCommit>, c: PlainColumn) -> Map<Seq<u8>, Seq<u8>> {
    Map::new(|k2: Seq<u8>| dup_has(hist, c, k2), |k2: Seq<u8>| dup_value(hist, c, k2))
}

/// A duplicate key decomposes uniquely into its cell key and height suffix.
pub proof fn lemma_dup_entry_unique(
    hist: Seq<HCommit>,
    c: PlainColumn,
    i1: int,
    k1: Seq<u8>,
    i2: int,
    k2: Seq<u8>,
    kk: Seq<u8>,
)
    requires
        heights_increasing(hist),
        dup_entry(hist, c, i1, k1, kk),
        dup_entry(hist, c, i2, k2, kk),
    ensures
        i1 == i2,
        k1 == k2,
{
    crate::order::lemma_be_bytes_len(hist[i1].height as nat, 8);
    crate::order::lemma_be_bytes_len(hist[i2].height as nat, 8);
    assert(k1.len() + 8 == kk.len());
    assert(k2.len() + 8 == kk.len());
    assert(k1 =~= kk.take(k1.len() as int)) by {
        assert forall|m: int| 0 <= m < k1.len() implies kk[m] == k1[m] by {
            assert((k1 + be8(hist[i1].height))[m] == k1[m]);
        }
    }
    assert(k2 =~= kk.take(k2.len() as int));
    assert(be8(hist[i1].height) =~= kk.skip(k1.len() as int)) by {
        assert forall|m: int| 0 <= m < 8 implies
            kk[k1.len() + m] == be8(hist[i1].height)[m] by {
            assert((k1 + be8(hist[i1].height))[k1.len() + m]
                == be8(hist[i1].height)[m]);
        }
    }
    assert(be8(hist[i2].height) =~= kk.skip(k2.len() as int)) by {
        assert forall|m: int| 0 <= m < 8 implies
            kk[k2.len() + m] == be8(hist[i2].height)[m] by {
            assert((k2 + be8(hist[i2].height))[k2.len() + m]
                == be8(hist[i2].height)[m]);
        }
    }
    {
        reveal(vstd::arithmetic::power::pow);
        assert(vstd::arithmetic::power::pow(256, 8) > u64::MAX) by {
            assert(vstd::arithmetic::power::pow(256, 8)
                == 256 * vstd::arithmetic::power::pow(256, 7));
            assert(vstd::arithmetic::power::pow(256, 7)
                == 256 * vstd::arithmetic::power::pow(256, 6));
            assert(vstd::arithmetic::power::pow(256, 6)
                == 256 * vstd::arithmetic::power::pow(256, 5));
            assert(vstd::arithmetic::power::pow(256, 5)
                == 256 * vstd::arithmetic::power::pow(256, 4));
            assert(vstd::arithmetic::power::pow(256, 4)
                == 256 * vstd::arithmetic::power::pow(256, 3));
            assert(vstd::arithmetic::power::pow(256, 3)
                == 256 * vstd::arithmetic::power::pow(256, 2));
            assert(vstd::arithmetic::power::pow(256, 2)
                == 256 * vstd::arithmetic::power::pow(256, 1));
            assert(vstd::arithmetic::power::pow(256, 1)
                == 256 * vstd::arithmetic::power::pow(256, 0));
            assert(vstd::arithmetic::power::pow(256, 0) == 1);
        }
        crate::order::lemma_be_bytes_injective(
            hist[i1].height as nat,
            hist[i2].height as nat,
            8,
        );
    }
    if i1 < i2 || i2 < i1 {
        assert(hist[i1].height != hist[i2].height);
    }
}

/// The reverse change set of commit `i`: for every touched cell, its prior
/// state.
pub open spec fn reverse_map(hist: Seq<HCommit>, i: int) -> Map<(PlainColumn, Seq<u8>), WriteOp> {
    Map::new(
        |pk: (PlainColumn, Seq<u8>)| hist[i].changes.contains_key(pk),
        |pk: (PlainColumn, Seq<u8>)| prior_op(hist, i, pk.0, pk.1),
    )
}

/// An untouched cell reads the same before and after a run of change entries.
pub proof fn lemma_entries_untouched(
    m: Map<Seq<u8>, Seq<u8>>,
    s: Seq<crate::kv::ChangeEntry>,
    c: PlainColumn,
    k: Seq<u8>,
    n: int,
)
    requires
        0 <= n <= s.len(),
        !crate::kv::changes_has(s.take(n), c, k),
    ensures
        lookup(crate::kv::col_after_entries(m, s, c, n), k) == lookup(m, k),
    decreases n,
{
    if n > 0 {
        assert(!crate::kv::changes_has(s.take(n - 1), c, k)) by {
            if crate::kv::changes_has(s.take(n - 1), c, k) {
                let w = crate::kv::changes_at(s.take(n - 1), c, k);
                assert(s.take(n)[w] == s.take(n - 1)[w]);
                assert(crate::kv::changes_has(s.take(n), c, k));
            }
        }
        lemma_entries_untouched(m, s, c, k, n - 1);
        let e = s[n - 1];
        if e.column == c && e.key@ == k {
            assert(s.take(n)[n - 1] == e);
            assert(crate::kv::changes_has(s.take(n), c, k));
        }
    }
}

/// Is `k2` the duplicate key that the change map `ch` adds for cell key `k`
/// at height `h` in column `c`?
pub open spec fn added_key(
    ch: Map<(PlainColumn, Seq<u8>), WriteOp>,
    h: u64,
    c: PlainColumn,
    k: Seq<u8>,
    k2: Seq<u8>,
) -> bool {
    ch.contains_key((c, k)) && k2 == k + be8(h)
}

/// The prior state of a cell, read from a column map.
pub open spec fn prior_of(base: Map<Seq<u8>, Seq<u8>>, k: Seq<u8>) -> WriteOp {
    match lookup(base, k) {
        Some(v) => WriteOp::Insert(v),
        None => WriteOp::Remove,
    }
}

/// The duplicate-column entries one commit adds for column `c`, with `base`
/// the column's state just before the commit.
pub open spec fn added_dups(
    ch: Map<(PlainColumn, Seq<u8>), WriteOp>,
    h: u64,
    base: Map<Seq<u8>, Seq<u8>>,
    c: PlainColumn,
) -> Map<Seq<u8>, Seq<u8>> {
    Map::new(
        |k2: Seq<u8>| exists|k: Seq<u8>| added_key(ch, h, c, k, k2),
        |k2: Seq<u8>|
            {
                let k = choose|k: Seq<u8>| added_key(ch, h, c, k, k2);
                enc_op_spec(prior_of(base, k))
            },
    )
}

/// A duplicate key of one commit determines its cell key.
pub proof fn lemma_added_key_unique(
    ch: Map<(PlainColumn, Seq<u8>), WriteOp>,
    h: u64,
    c: PlainColumn,
    k1: Seq<u8>,
    k2: Seq<u8>,
    kk: Seq<u8>,
)
    requires
        added_key(ch, h, c, k1, kk),
        added_key(ch, h, c, k2, kk),
    ensures
        k1 == k2,
{
    crate::order::lemma_be_bytes_len(h as nat, 8);
    assert(be8(h).len() == 8);
    assert(kk == k1 + be8(h));
    assert(kk == k2 + be8(h));
    assert(kk.len() == k1.len() + 8);
    assert(kk.len() == k2.len() + 8);
    assert(k1 =~= k2) by {
        assert(k1.len() == k2.len());
        assert forall|m: int| 0 <= m < k1.len() implies k1[m] == k2[m] by {
            assert((k1 + be8(h))[m] == k1[m]);
            assert((k2 + be8(h))[m] == k2[m]);
        }
    }
}

/// Inserting one cell into a change map adds exactly its duplicate key.
pub proof fn lemma_added_dups_insert(
    ch: Map<(PlainColumn, Seq<u8>), WriteOp>,
    h: u64,
    base: Map<Seq<u8>, Seq<u8>>,
    c: PlainColumn,
    ec: PlainColumn,
    k: Seq<u8>,
    op: WriteOp,
)
    ensures
        ec == c ==> added_dups(ch.insert((ec, k), op), h, base, c)
            =~= added_dups(ch, h, base, c).insert(k + be8(h), enc_op_spec(prior_of(base, k))),
        ec != c ==> added_dups(ch.insert((ec, k), op), h, base, c)
            =~= added_dups(ch, h, base, c),
{
    let ch2 = ch.insert((ec, k), op);
    if ec == c {
        let kk_new = k + be8(h);
        assert forall|k2: Seq<u8>|
            #[trigger] added_dups(ch2, h, base, c).dom().contains(k2)
                || added_dups(ch, h, base, c).insert(
                    kk_new, enc_op_spec(prior_of(base, k))).dom().contains(k2) implies
            (added_dups(ch2, h, base, c).dom().contains(k2)
                <==> added_dups(ch, h, base, c).insert(
                    kk_new, enc_op_spec(prior_of(base, k))).dom().contains(k2))
                && (added_dups(ch2, h, base, c).dom().contains(k2)
                    ==> added_dups(ch2, h, base, c)[k2]
                        == added_dups(ch, h, base, c).insert(
                            kk_new, enc_op_spec(prior_of(base, k)))[k2]) by {
            if k2 == kk_new {
                assert(added_key(ch2, h, c, k, k2));
                let kw = choose|kw: Seq<u8>| added_key(ch2, h, c, kw, k2);
                lemma_added_key_unique(ch2, h, c, kw, k, k2);
            } else {
                if exists|kw: Seq<u8>| added_key(ch2, h, c, kw, k2) {
                    let kw = choose|kw: Seq<u8>| added_key(ch2, h, c, kw, k2);
                    assert(kw != k);
                    assert(added_key(ch, h, c, kw, k2));
                    let kw2 = choose|kw2: Seq<u8>| added_key(ch, h, c, kw2, k2);
                    lemma_added_key_unique(ch, h, c, kw2, kw, k2);
                }
                if exists|kw: Seq<u8>| added_key(ch, h, c, kw, k2) {
                    let kw = choose|kw: Seq<u8>| added_key(ch, h, c, kw, k2);
                    assert(kw != k) by {
                        if kw == k {
                            assert(k2 == kk_new);
                        }
                    }
                    assert(added_key(ch2, h, c, kw, k2));
                    let kw2 = choose|kw2: Seq<u8>| added_key(ch2, h, c, kw2, k2);
                    lemma_added_key_unique(ch2, h, c, kw2, kw, k2);
                }
            }
        }
        assert(added_dups(ch2, h, base, c)
            =~= added_dups(ch, h, base, c).insert(kk_new, enc_op_spec(prior_of(base, k))));
    } else {
        assert forall|k2: Seq<u8>|
            #[trigger] added_dups(ch2, h, base, c).dom().contains(k2)
                || added_dups(ch, h, base, c).dom().contains(k2) implies
            (added_dups(ch2, h, base, c).dom().contains(k2)
                <==> added_dups(ch, h, base, c).dom().contains(k2))
                && (added_dups(ch2, h, base, c).dom().contains(k2)
                    ==> added_dups(ch2, h, base, c)[k2]
                        == added_dups(ch, h, base, c)[k2]) by {
            if exists|kw: Seq<u8>| added_key(ch2, h, c, kw, k2) {
                let kw = choose|kw: Seq<u8>| added_key(ch2, h, c, kw, k2);
                assert(added_key(ch, h, c, kw, k2));
                let kw2 = choose|kw2: Seq<u8>| added_key(ch, h, c, kw2, k2);
                lemma_added_key_unique(ch, h, c, kw2, kw, k2);
            }
            if exists|kw: Seq<u8>| added_key(ch, h, c, kw, k2) {
                let kw = choose|kw: Seq<u8>| added_key(ch, h, c, kw, k2);
                assert(added_key(ch2, h, c, kw, k2));
                let kw2 = choose|kw2: Seq<u8>| added_key(ch2, h, c, kw2, k2);
                lemma_added_key_unique(ch2, h, c, kw2, kw, k2);
            }
        }
        assert(added_dups(ch2, h, base, c) =~= added_dups(ch, h, base, c));
    }
}

/// Appending a commit extends each duplicate column by exactly the entries of
/// that commit, keyed at its height, valued with the prior state.
pub proof fn lemma_dup_map_push(hist: Seq<HCommit>, hc: HCommit, c: PlainColumn)
    requires
        heights_increasing(hist.push(hc)),
    ensures
        dup_map(hist.push(hc), c)
            =~= dup_map(hist, c).union_prefer_right(
                added_dups(hc.changes, hc.height, state_after(hist, c), c)),
{
    let hist2 = hist.push(hc);
    let added = added_dups(hc.changes, hc.height, state_after(hist, c), c);
    let n = hist.len() as int;
    assert(hist2.take(n) =~= hist);
    assert forall|k2: Seq<u8>|
        #[trigger] dup_map(hist2, c).dom().contains(k2)
            || dup_map(hist, c).union_prefer_right(added).dom().contains(k2) implies
        (dup_map(hist2, c).dom().contains(k2)
            <==> dup_map(hist, c).union_prefer_right(added).dom().contains(k2))
            && (dup_map(hist2, c).dom().contains(k2)
                ==> dup_map(hist2, c)[k2]
                    == dup_map(hist, c).union_prefer_right(added)[k2]) by {
        // Forward: an entry of the extended history is an old entry or an
        // added one, and its value agrees.
        if dup_has(hist2, c, k2) {
            let (i, k) = choose|i: int, k: Seq<u8>| dup_entry(hist2, c, i, k, k2);
            let (iw, kw) = choose|iw: int, kw: Seq<u8>| dup_entry(hist2, c, iw, kw, k2);
            lemma_dup_entry_unique(hist2, c, iw, kw, i, k, k2);
            if i < n {
                assert(hist2[i] == hist[i]);
                assert(dup_entry(hist, c, i, k, k2));
                let (io, ko) = choose|io: int, ko: Seq<u8>| dup_entry(hist, c, io, ko, k2);
                assert(dup_entry(hist2, c, io, ko, k2)) by {
                    assert(hist2[io] == hist[io]);
                }
                lemma_dup_entry_unique(hist2, c, io, ko, i, k, k2);
                assert(hist2.take(i) =~= hist.take(i));
                // No added entry shares this key: the added height differs.
                if added.dom().contains(k2) {
                    let ka = choose|ka: Seq<u8>| added_key(hc.changes, hc.height, c, ka, k2);
                    assert(dup_entry(hist2, c, n, ka, k2)) by {
                        assert(hist2[n] == hc);
                    }
                    lemma_dup_entry_unique(hist2, c, n, ka, i, k, k2);
                }
                assert(dup_map(hist2, c)[k2] == dup_map(hist, c)[k2]);
            } else {
                assert(hist2[n] == hc);
                assert(added_key(hc.changes, hc.height, c, k, k2));
                assert(added.dom().contains(k2));
                let ka = choose|ka: Seq<u8>| added_key(hc.changes, hc.height, c, ka, k2);
                lemma_added_key_unique(hc.changes, hc.height, c, ka, k, k2);
                assert(prior_op(hist2, n, c, k) == prior_of(state_after(hist, c), k));
                assert(dup_map(hist2, c)[k2] == added[k2]);
            }
        }
        // Backward: old entries and added entries appear in the extension.
        if dup_has(hist, c, k2) {
            let (i, k) = choose|i: int, k: Seq<u8>| dup_entry(hist, c, i, k, k2);
            assert(dup_entry(hist2, c, i, k, k2)) by {
                assert(hist2[i] == hist[i]);
            }
            assert(dup_has(hist2, c, k2));
        }
        if added.dom().contains(k2) {
            let ka = choose|ka: Seq<u8>| added_key(hc.changes, hc.height, c, ka, k2);
            assert(dup_entry(hist2, c, n, ka, k2)) by {
                assert(hist2[n] == hc);
            }
            assert(dup_has(hist2, c, k2));
        }
    }
    assert(dup_map(hist2, c) =~= dup_map(hist, c).union_prefer_right(added));
}

/// The prior states of the cells a prefix of change entries touches, read
/// from the store as it stood before the commit.
pub open spec fn rev_prefix(
    all: Seq<crate::kv::ChangeEntry>,
    store: MemoryStore,
    n: int,
) -> Map<(PlainColumn, Seq<u8>), WriteOp> {
    Map::new(
        |pk: (PlainColumn, Seq<u8>)| crate::kv::changes_has(all.take(n), pk.0, pk.1),
        |pk: (PlainColumn, Seq<u8>)| prior_of(store.col(Column::Original(pk.0)), pk.1),
    )
}

/// The store that records history: a plain store underneath, one duplicate
/// column per original column, and a typed undo log per committed height.
pub struct HistoricalStore {
    pub inner: MemoryStore,
    pub policy: StateRewindPolicy,
    pub undo: Vec<(u64, Changes)>,
    pub latest: Option<u64>,
    pub history: Ghost<Seq<HCommit>>,
}

impl HistoricalStore {
    pub open spec fn hist(self) -> Seq<HCommit> {
        self.history@
    }

    pub open spec fn wf(self) -> bool {
        &&& self.inner.wf()
        &&& heights_increasing(self.hist())
        &&& self.latest == (if self.hist().len() == 0 {
            None::<u64>
        } else {
            Some(self.hist().last().height)
        })
        &&& forall|p: PlainColumn| #[trigger] self.inner.col(Column::Original(p))
            == state_after(self.hist(), p)
        &&& self.policy.records() ==> {
            &&& forall|p: PlainColumn| #[trigger] self.inner.col(Column::HistoricalDuplicate(p))
                == dup_map(self.hist(), p)
            &&& self.undo@.len() == self.hist().len()
            &&& forall|i: int| 0 <= i < self.undo@.len()
                ==> (#[trigger] self.undo@[i]).0 == self.hist()[i].height
            &&& forall|i: int| 0 <= i < self.undo@.len()
                ==> (#[trigger] self.undo@[i]).1.wf()
            &&& forall|i: int| 0 <= i < self.undo@.len()
                ==> (#[trigger] self.undo@[i]).1@ == reverse_map(self.hist(), i)
        }
        &&& !self.policy.records() ==> {
            &&& self.undo@.len() == 0
        }
    }

    /// An empty historical store.
    pub fn new(policy: StateRewindPolicy) -> (r: HistoricalStore)
        ensures
            r.wf(),
            r.policy == policy,
            r.hist() == Seq::<HCommit>::empty(),
            r.latest is None,
    {
        let inner = MemoryStore::new();
        let r = HistoricalStore {
            inner,
            policy,
            undo: Vec::new(),
            latest: None,
            history: Ghost(Seq::empty()),
        };
        proof {
            assert forall|p: PlainColumn| #[trigger] r.inner.col(Column::Original(p))
                == state_after(r.hist(), p) by {
                assert(r.inner.col(Column::Original(p)) =~= Map::<Seq<u8>, Seq<u8>>::empty());
            }
            assert forall|p: PlainColumn|
                #[trigger] r.inner.col(Column::HistoricalDuplicate(p))
                    == dup_map(r.hist(), p) by {
                assert forall|k2: Seq<u8>| !dup_has(r.hist(), p, k2) by {
                    if dup_has(r.hist(), p, k2) {
                        let (i, k) = choose|i: int, k: Seq<u8>|
                            dup_entry(r.hist(), p, i, k, k2);
                    }
                }
                assert(r.inner.col(Column::HistoricalDuplicate(p))
                    =~= dup_map(r.hist(), p));
            }
        }
        r
    }

    /// The latest committed height, if any block was committed.
    pub fn latest_height(&self) -> (r: Option<u64>)
        ensures
            r == self.latest,
    {
        self.latest
    }

    /// Point lookup in the latest state of an original column.
    pub fn get(&self, column: PlainColumn, key: &Vec<u8>) -> (r: Option<&Vec<u8>>)
        requires
            self.wf(),
        ensures
            match r {
                Some(v) => state_after(self.hist(), column).contains_key(key@)
                    && v@ == state_after(self.hist(), column)[key@],
                None => !state_after(self.hist(), column).contains_key(key@),
            },
    {
        self.inner.get(Column::Original(column), key)
    }

    /// Commits a change set at a height, updating the original columns,
    /// recording each touched cell's prior state in the duplicate columns,
    /// and keeping the reverse change set for rollback. The height must lie
    /// above every height committed before.
    pub fn commit_changes(&mut self, height: u64, changes: Changes) -> (r: Result<
        (),
        StorageError,
    >)
        requires
            old(self).wf(),
            changes.wf(),
        ensures
            final(self).wf(),
            final(self).policy == old(self).policy,
            match r {
                Ok(()) => (match old(self).latest {
                    Some(l) => height > l,
                    None => true,
                }) && final(self).hist()
                    == old(self).hist().push(HCommit { height, changes: changes@ }),
                Err(e) => (match old(self).latest {
                    Some(l) => height <= l,
                    None => false,
                }) && e is NonMonotonicHeight && *final(self) == *old(self),
            },
    {
        match self.latest {
            Some(l) => {
                if height <= l {
                    return Err(StorageError::NonMonotonicHeight { prev: l, next: height });
                }
            },
            None => {},
        }
        let records = match self.policy {
            StateRewindPolicy::NoRewind => false,
            _ => true,
        };
        let ghost hc = HCommit { height, changes: changes@ };
        let ghost all = changes.entries@;
        let height_suffix = enc_be8(height);
        let mut rev = Changes::new();
        let mut rest = changes;
        let mut processed: usize = 0;
        let total = rest.entries.len();
        while processed < total
            invariant
                0 <= processed <= total,
                total == all.len(),
                all == changes.entries@,
                changes.wf(),
                rest.entries@ == all.skip(processed as int),
                height_suffix@ == be8(height),
                old(self).wf(),
                records == old(self).policy.records(),
                self.policy == old(self).policy,
                self.latest == old(self).latest,
                self.undo == old(self).undo,
                self.history == old(self).history,
                self.inner.wf(),
                forall|p: PlainColumn| #[trigger] self.inner.col(Column::Original(p))
                    == crate::kv::col_after_entries(
                        old(self).inner.col(Column::Original(p)), all, p, processed as int),
                records ==> forall|p: PlainColumn|
                    #[trigger] self.inner.col(Column::HistoricalDuplicate(p))
                        =~= old(self).inner.col(Column::HistoricalDuplicate(p))
                            .union_prefer_right(added_dups(
                                crate::kv::changes_map(all.take(processed as int)),
                                height,
                                old(self).inner.col(Column::Original(p)),
                                p,
                            )),
                !records ==> forall|p: PlainColumn|
                    #[trigger] self.inner.col(Column::HistoricalDuplicate(p))
                        == old(self).inner.col(Column::HistoricalDuplicate(p)),
                rev.wf(),
                rev@ =~= rev_prefix(all, old(self).inner, processed as int),
            decreases total - processed,
        {
            let e = rest.entries.remove(0);
            proof {
                assert(all.skip(processed as int)[0] == all[processed as int]);
                assert(rest.entries@ =~= all.skip(processed + 1));
                assert(!crate::kv::changes_has(all.take(processed as int), e.column, e.key@)) by {
                    if crate::kv::changes_has(all.take(processed as int), e.column, e.key@) {
                        let w = crate::kv::changes_at(
                            all.take(processed as int), e.column, e.key@);
                        assert(all[w] == all.take(processed as int)[w]);
                        crate::kv::lemma_changes_at_unique(all, w, processed as int);
                    }
                }
                lemma_entries_untouched(
                    old(self).inner.col(Column::Original(e.column)),
                    all,
                    e.column,
                    e.key@,
                    processed as int,
                );
            }
            let prior: WriteOperation = match self.inner.get(Column::Original(e.column), &e.key) {
                Some(v) => WriteOperation::Insert(clone_bytes(v)),
                None => WriteOperation::Remove,
            };
            proof {
                assert(prior.view_op() == prior_of(
                    old(self).inner.col(Column::Original(e.column)), e.key@));
            }
            if records {
                let hk = concat_bytes(&e.key, &height_suffix);
                let encv = enc_op(&prior);
                let ghost dup_before = self.inner.col(
                    Column::HistoricalDuplicate(e.column));
                self.inner.put(Column::HistoricalDuplicate(e.column), hk, encv);
            }
            let rev_key = clone_bytes(&e.key);
            rev.set(e.column, rev_key, prior);
            self.inner.apply(Column::Original(e.column), e.key, e.op);
            proof {
                let ghost e0 = all[processed as int];
                crate::kv::lemma_changes_splice(
                    all.take(processed as int),
                    all.take(processed as int + 1),
                    processed as int,
                    false,
                );
                assert forall|p: PlainColumn| #[trigger] self.inner.col(Column::Original(p))
                    == crate::kv::col_after_entries(
                        old(self).inner.col(Column::Original(p)), all, p, processed + 1) by {
                    if p != e0.column {
                        assert(Column::Original(p) != Column::Original(e0.column));
                        assert(Column::Original(p) != Column::HistoricalDuplicate(e0.column));
                    }
                }
                if records {
                    assert forall|p: PlainColumn|
                        #[trigger] self.inner.col(Column::HistoricalDuplicate(p))
                            =~= old(self).inner.col(Column::HistoricalDuplicate(p))
                                .union_prefer_right(added_dups(
                                    crate::kv::changes_map(all.take(processed + 1)),
                                    height,
                                    old(self).inner.col(Column::Original(p)),
                                    p,
                                )) by {
                        lemma_added_dups_insert(
                            crate::kv::changes_map(all.take(processed as int)),
                            height,
                            old(self).inner.col(Column::Original(p)),
                            p,
                            e0.column,
                            e0.key@,
                            e0.op.view_op(),
                        );
                        if p != e0.column {
                            assert(Column::HistoricalDuplicate(p)
                                != Column::HistoricalDuplicate(e0.column));
                            assert(Column::HistoricalDuplicate(p)
                                != Column::Original(e0.column));
                        }
                    }
                }
                assert(rev@ =~= rev_prefix(all, old(self).inner, processed + 1));
            }
            processed = processed + 1;
        }
        if records {
            self.undo.push((height, rev));
        }
        self.latest = Some(height);
        let ghost old_hist = self.history@;
        proof {
            self.history@ = self.history@.push(hc);
        }
        proof {
            let hist2 = self.hist();
            assert(all.take(total as int) =~= all);
            assert(heights_increasing(hist2)) by {
                assert forall|i: int, j: int| 0 <= i < j < hist2.len() implies
                    (#[trigger] hist2[i]).height < (#[trigger] hist2[j]).height by {
                    if j < hist2.len() - 1 {
                        assert(hist2[i] == old_hist[i]);
                        assert(hist2[j] == old_hist[j]);
                    } else {
                        assert(hist2[j] == hc);
                        if old_hist.len() > 0 && i < old_hist.len() {
                            assert(hist2[i] == old_hist[i]);
                            if i < old_hist.len() - 1 {
                                assert(old_hist[i].height
                                    < old_hist[old_hist.len() - 1].height);
                            }
                        }
                    }
                }
            }
            assert(hist2.drop_last() =~= old_hist);
            assert(hist2.last() == hc);
            assert forall|p: PlainColumn| #[trigger] self.inner.col(Column::Original(p))
                == state_after(hist2, p) by {
                crate::kv::lemma_col_after_all(
                    old(self).inner.col(Column::Original(p)), all, p);
                assert(self.inner.col(Column::Original(p))
                    =~= col_after(state_after(old_hist, p), hc.changes, p));
            }
            if self.policy.records() {
                assert forall|p: PlainColumn|
                    #[trigger] self.inner.col(Column::HistoricalDuplicate(p))
                        == dup_map(hist2, p) by {
                    lemma_dup_map_push(old_hist, hc, p);
                    assert(self.inner.col(Column::HistoricalDuplicate(p))
                        =~= dup_map(hist2, p));
                }
                assert forall|i: int| 0 <= i < self.undo@.len() implies
                    (#[trigger] self.undo@[i]).1@ == reverse_map(hist2, i) by {
                    if i < self.undo@.len() - 1 {
                        assert(self.undo@[i] == old(self).undo@[i]);
                        assert(old(self).undo@[i].1@ == reverse_map(old_hist, i));
                        assert(hist2[i] == old_hist[i]);
                        assert(hist2.take(i) =~= old_hist.take(i));
                        assert(reverse_map(old_hist, i) =~= reverse_map(hist2, i));
                    } else {
                        let n = hist2.len() - 1;
                        assert(hist2.take(n) =~= old_hist);
                        assert(rev@ =~= rev_prefix(all, old(self).inner, total as int));
                        assert(rev_prefix(all, old(self).inner, total as int)
                            =~= reverse_map(hist2, n)) by {
                            assert(hist2[n] == hc);
                            assert forall|pk: (PlainColumn, Seq<u8>)|
                                crate::kv::changes_has(
                                    all.take(total as int), pk.0, pk.1)
                                    <==> hc.changes.contains_key(pk) by {
                            }
                        }
                    }
                }
                assert forall|i: int| 0 <= i < self.undo@.len() implies
                    (#[trigger] self.undo@[i]).0 == hist2[i].height by {
                    if i < self.undo@.len() - 1 {
                        assert(self.undo@[i] == old(self).undo@[i]);
                        assert(hist2[i] == old_hist[i]);
                    }
                }
                assert forall|i: int| 0 <= i < self.undo@.len() implies
                    (#[trigger] self.undo@[i]).1.wf() by {
                    if i < self.undo@.len() - 1 {
                        assert(self.undo@[i] == old(self).undo@[i]);
                    }
                }
            }
        }
        Ok(())
    }
}

/// Every unsigned 64-bit value fits in eight base-256 digits.
pub proof fn lemma_u64_fits_eight_bytes()
    ensures
        (u64::MAX as nat) < vstd::arithmetic::power::pow(256, 8),
{
    reveal(vstd::arithmetic::power::pow);
    assert(vstd::arithmetic::power::pow(256, 8)
        == 256 * vstd::arithmetic::power::pow(256, 7));
    assert(vstd::arithmetic::power::pow(256, 7)
        == 256 * vstd::arithmetic::power::pow(256, 6));
    assert(vstd::arithmetic::power::pow(256, 6)
        == 256 * vstd::arithmetic::power::pow(256, 5));
    assert(vstd::arithmetic::power::pow(256, 5)
        == 256 * vstd::arithmetic::power::pow(256, 4));
    assert(vstd::arithmetic::power::pow(256, 4)
        == 256 * vstd::arithmetic::power::pow(256, 3));
    assert(vstd::arithmetic::power::pow(256, 3)
        == 256 * vstd::arithmetic::power::pow(256, 2));
    assert(vstd::arithmetic::power::pow(256, 2)
        == 256 * vstd::arithmetic::power::pow(256, 1));
    assert(vstd::arithmetic::power::pow(256, 1)
        == 256 * vstd::arithmetic::power::pow(256, 0));
    assert(vstd::arithmetic::power::pow(256, 0) == 1);
}

/// The height suffixes order like the heights themselves.
pub proof fn lemma_be8_order(h1: u64, h2: u64)
    requires
        h1 < h2,
    ensures
        lex_lt(be8(h1), be8(h2)),
{
    lemma_u64_fits_eight_bytes();
    crate::order::lemma_be_bytes_order(h1 as nat, h2 as nat, 8);
}

/// The height a view is rooted at, advanced to the first height the view must
/// not see; saturates at the largest height.
pub open spec fn next_height(h: u64) -> u64 {
    if h == u64::MAX {
        u64::MAX
    } else {
        (h + 1) as u64
    }
}

/// Some entry key sits at or after `start` in the byte order.
pub open spec fn has_at_or_after(s: Seq<(Vec<u8>, Vec<u8>)>, start: Seq<u8>) -> bool {
    exists|i: int| 0 <= i < s.len() && !lex_lt((#[trigger] s[i]).0@, start)
}

pub open spec fn is_first_at_or_after(s: Seq<(Vec<u8>, Vec<u8>)>, start: Seq<u8>, i: int) -> bool {
    &&& 0 <= i < s.len()
    &&& !lex_lt(s[i].0@, start)
    &&& forall|m: int| 0 <= m < i ==> lex_lt((#[trigger] s[m]).0@, start)
}

/// The index of the first entry at or after `start`.
pub open spec fn first_at_or_after(s: Seq<(Vec<u8>, Vec<u8>)>, start: Seq<u8>) -> int {
    choose|i: int| is_first_at_or_after(s, start, i)
}

pub proof fn lemma_first_unique(s: Seq<(Vec<u8>, Vec<u8>)>, start: Seq<u8>, i1: int, i2: int)
    requires
        is_first_at_or_after(s, start, i1),
        is_first_at_or_after(s, start, i2),
    ensures
        i1 == i2,
{
    if i1 < i2 {
        assert(lex_lt(s[i1].0@, start));
    } else if i2 < i1 {
        assert(lex_lt(s[i2].0@, start));
    }
}

pub proof fn lemma_first_exists_from(s: Seq<(Vec<u8>, Vec<u8>)>, start: Seq<u8>, j: int)
    requires
        0 <= j <= s.len(),
        exists|i: int| j <= i < s.len() && !lex_lt((#[trigger] s[i]).0@, start),
    ensures
        exists|i0: int|
            j <= i0 < s.len() && !lex_lt((#[trigger] s[i0]).0@, start)
                && forall|m: int| j <= m < i0 ==> lex_lt((#[trigger] s[m]).0@, start),
    decreases s.len() - j,
{
    if j < s.len() {
        if !lex_lt(s[j].0@, start) {
            assert(j <= j < s.len() && !lex_lt(s[j].0@, start)
                && forall|m: int| j <= m < j ==> lex_lt((#[trigger] s[m]).0@, start));
        } else {
            assert(exists|i: int| j + 1 <= i < s.len() && !lex_lt((#[trigger] s[i]).0@, start)) by {
                let i = choose|i: int| j <= i < s.len() && !lex_lt((#[trigger] s[i]).0@, start);
                assert(i != j);
            }
            lemma_first_exists_from(s, start, j + 1);
            let i0 = choose|i0: int|
                j + 1 <= i0 < s.len() && !lex_lt((#[trigger] s[i0]).0@, start)
                    && forall|m: int| j + 1 <= m < i0 ==> lex_lt((#[trigger] s[m]).0@, start);
            assert(forall|m: int| j <= m < i0 ==> lex_lt((#[trigger] s[m]).0@, start));
        }
    }
}

/// When some entry sits at or after `start`, the chosen first entry is one.
pub proof fn lemma_first_is_first(s: Seq<(Vec<u8>, Vec<u8>)>, start: Seq<u8>)
    requires
        has_at_or_after(s, start),
    ensures
        is_first_at_or_after(s, start, first_at_or_after(s, start)),
{
    lemma_first_exists_from(s, start, 0);
    let i0 = choose|i0: int|
        0 <= i0 < s.len() && !lex_lt((#[trigger] s[i0]).0@, start)
            && forall|m: int| 0 <= m < i0 ==> lex_lt((#[trigger] s[m]).0@, start);
    assert(is_first_at_or_after(s, start, i0));
}

/// What a view rooted at height `h` answers for a cell, as a function of the
/// backing store's contents: seek the duplicate column forward from
/// `key ++ be(h + 1)`; if the entry found still carries the key as prefix,
/// its recorded prior state is the answer, else the original column decides.
pub open spec fn view_resolve(db: MemoryStore, h: u64, c: PlainColumn, k: Seq<u8>) -> Option<
    Seq<u8>,
> {
    let dup = db.table_of(Column::HistoricalDuplicate(c)).entries@;
    let start = k + be8(next_height(h));
    if has_at_or_after(dup, start) {
        let i = first_at_or_after(dup, start);
        let fk = dup[i].0@;
        if fk.len() >= k.len() && fk.take(k.len() as int) == k {
            match dec_op_spec(dup[i].1@) {
                Some(WriteOp::Insert(v)) => Some(v),
                _ => None,
            }
        } else {
            lookup(db.col(Column::Original(c)), k)
        }
    } else {
        lookup(db.col(Column::Original(c)), k)
    }
}

/// A read-only view of the store as it stood right after the block at a given
/// height.
pub struct ViewAtHeight {
    pub height: u64,
    pub read_db: MemoryStore,
}

impl ViewAtHeight {
    pub open spec fn wf(self) -> bool {
        self.read_db.wf()
    }

    /// Wraps a consistent snapshot of a historical store.
    pub fn new(height: u64, read_db: MemoryStore) -> (r: ViewAtHeight)
        ensures
            r.height == height,
            r.read_db == read_db,
    {
        ViewAtHeight { height, read_db }
    }

    /// Point lookup at this view's height.
    pub fn get(&self, column: PlainColumn, key: &Vec<u8>) -> (r: Option<Vec<u8>>)
        requires
            self.wf(),
        ensures
            match r {
                Some(v) => view_resolve(self.read_db, self.height, column, key@) == Some(v@),
                None => view_resolve(self.read_db, self.height, column, key@) is None,
            },
    {
        let bound = if self.height == u64::MAX {
            u64::MAX
        } else {
            self.height + 1
        };
        let suffix = enc_be8(bound);
        let start = concat_bytes(key, &suffix);
        let idx = crate::kv::column_index(Column::HistoricalDuplicate(column));
        let t = &self.read_db.tables[idx];
        let ghost dup = t.entries@;
        match t.seek(&start) {
            Some(i) => {
                proof {
                    assert(has_at_or_after(dup, start@));
                    lemma_first_is_first(dup, start@);
                    lemma_first_unique(
                        dup, start@, first_at_or_after(dup, start@), i as int);
                }
                let e = t.entry_at(i);
                if e.0.len() >= key.len() && crate::order::starts_with(&e.0, key) {
                    match dec_op(&e.1) {
                        Some(op) => match op {
                            WriteOperation::Insert(v) => Some(v),
                            WriteOperation::Remove => None,
                        },
                        None => None,
                    }
                } else {
                    match self.read_db.get(Column::Original(column), key) {
                        Some(v) => Some(clone_bytes(v)),
                        None => None,
                    }
                }
            },
            None => {
                proof {
                    assert(!has_at_or_after(dup, start@)) by {
                        if has_at_or_after(dup, start@) {
                            let w = choose|w: int|
                                0 <= w < dup.len() && !lex_lt((#[trigger] dup[w]).0@, start@);
                        }
                    }
                }
                match self.read_db.get(Column::Original(column), key) {
                    Some(v) => Some(clone_bytes(v)),
                    None => None,
                }
            },
        }
    }
}

impl HistoricalStore {
    /// A read-only view rooted at a height, over a consistent snapshot.
    /// Unavailable when no history is recorded.
    pub fn create_view_at(&self, height: u64) -> (r: Result<ViewAtHeight, StorageError>)
        requires
            self.wf(),
        ensures
            match r {
                Ok(v) => self.policy.records() && v.wf() && v.height == height
                    && (forall|c: Column| #[trigger] v.read_db.col(c) == self.inner.col(c)),
                Err(e) => !self.policy.records() && e is HistoryNotAvailable,
            },
    {
        match self.policy {
            StateRewindPolicy::NoRewind => Err(StorageError::HistoryNotAvailable),
            _ => Ok(ViewAtHeight::new(height, self.inner.snapshot())),
        }
    }
}

/// An untouched cell reads the same across a span of commits.
pub proof fn lemma_hist_untouched(hist: Seq<HCommit>, c: PlainColumn, k: Seq<u8>, a: int, b: int)
    requires
        0 <= a <= b <= hist.len(),
        forall|j: int| a <= j < b ==> !(#[trigger] hist[j]).changes.contains_key((c, k)),
    ensures
        lookup(state_after(hist.take(b), c), k) == lookup(state_after(hist.take(a), c), k),
    decreases b - a,
{
    if b > a {
        lemma_hist_untouched(hist, c, k, a, b - 1);
        assert(hist.take(b).drop_last() =~= hist.take(b - 1));
        assert(hist.take(b).last() == hist[b - 1]);
    }
}

/// The earliest commit in a span that touches a cell.
pub proof fn lemma_least_touch(hist: Seq<HCommit>, c: PlainColumn, k: Seq<u8>, j: int)
    requires
        0 <= j <= hist.len(),
        exists|i: int| j <= i < hist.len() && (#[trigger] hist[i]).changes.contains_key((c, k)),
    ensures
        exists|i0: int|
            j <= i0 < hist.len() && (#[trigger] hist[i0]).changes.contains_key((c, k))
                && forall|m: int| j <= m < i0
                    ==> !(#[trigger] hist[m]).changes.contains_key((c, k)),
    decreases hist.len() - j,
{
    if j < hist.len() {
        if hist[j].changes.contains_key((c, k)) {
            assert(j <= j < hist.len() && hist[j].changes.contains_key((c, k))
                && forall|m: int| j <= m < j
                    ==> !(#[trigger] hist[m]).changes.contains_key((c, k)));
        } else {
            assert(exists|i: int| j + 1 <= i < hist.len()
                && (#[trigger] hist[i]).changes.contains_key((c, k))) by {
                let i = choose|i: int| j <= i < hist.len()
                    && (#[trigger] hist[i]).changes.contains_key((c, k));
                assert(i != j);
            }
            lemma_least_touch(hist, c, k, j + 1);
            let i0 = choose|i0: int|
                j + 1 <= i0 < hist.len() && (#[trigger] hist[i0]).changes.contains_key((c, k))
                    && forall|m: int| j + 1 <= m < i0
                        ==> !(#[trigger] hist[m]).changes.contains_key((c, k));
            assert(forall|m: int| j <= m < i0
                ==> !(#[trigger] hist[m]).changes.contains_key((c, k)));
        }
    }
}

/// Historical point reads are exact: a view rooted at height `h` answers, for
/// every cell, precisely what a fresh node that applied only the commits at
/// heights up to `h` would hold. The hypothesis asks that every key the
/// column's history records has the length of the key read, as fixed-width
/// table keys do; keys of unequal lengths could collide with a key-and-height
/// compound of another cell.
#[verifier::rlimit(60)]
pub proof fn lemma_view_at_height_agrees_with_replay(
    db: MemoryStore,
    hist: Seq<HCommit>,
    h: u64,
    c: PlainColumn,
    k: Seq<u8>,
)
    requires
        db.wf(),
        heights_increasing(hist),
        db.col(Column::Original(c)) == state_after(hist, c),
        db.col(Column::HistoricalDuplicate(c)) == dup_map(hist, c),
        forall|i: int| 0 <= i < hist.len() ==> (#[trigger] hist[i]).height < u64::MAX,
        forall|i: int, k2: Seq<u8>|
            0 <= i < hist.len() && #[trigger] hist[i].changes.contains_key((c, k2))
                ==> k2.len() == k.len(),
    ensures
        view_resolve(db, h, c, k) == lookup(state_at_height(hist, h, c), k),
{
    lemma_cut_exists(hist, h);
    let n = cut(hist, h);
    let t = db.table_of(Column::HistoricalDuplicate(c));
    let dup = t.entries@;
    let start = k + be8(next_height(h));
    assert(t.wf()) by {
        assert(db.tables@[crate::kv::column_index_spec(Column::HistoricalDuplicate(c))].wf());
    }
    assert(t@ == dup_map(hist, c));
    crate::order::lemma_be_bytes_len(next_height(h) as nat, 8);
    let touched_after = exists|i: int|
        n <= i < hist.len() && (#[trigger] hist[i]).changes.contains_key((c, k));
    if touched_after {
        // Some later commit touched the key; the seek finds the earliest one,
        // whose recorded prior value is the state at `h`.
        lemma_least_touch(hist, c, k, n);
        let i0 = choose|i0: int|
            n <= i0 < hist.len() && (#[trigger] hist[i0]).changes.contains_key((c, k))
                && forall|m: int| n <= m < i0
                    ==> !(#[trigger] hist[m]).changes.contains_key((c, k));
        let h0 = hist[i0].height;
        assert(h0 > h);
        assert(h < u64::MAX);
        assert(next_height(h) == h + 1);
        let kk0 = k + be8(h0);
        assert(dup_entry(hist, c, i0, k, kk0));
        assert(dup_map(hist, c).contains_key(kk0));
        assert(crate::table::seq_has_key(dup, kk0)) by {
            assert(crate::table::map_of(dup).dom().contains(kk0));
        }
        let e0 = crate::table::seq_key_index(dup, kk0);
        assert(dup[e0].0@ == kk0);
        // The target entry sits at or after the seek start.
        assert(!lex_lt(kk0, start)) by {
            if h0 == h + 1 {
                crate::order::lemma_lex_lt_asymmetric(kk0, start);
            } else {
                lemma_be8_order((h + 1) as u64, h0);
                crate::order::lemma_lex_lt_common_prefix(k, be8((h + 1) as u64), be8(h0));
                crate::order::lemma_lex_lt_asymmetric(kk0, start);
            }
        }
        assert(has_at_or_after(dup, start));
        lemma_first_is_first(dup, start);
        let ifc = first_at_or_after(dup, start);
        let fk = dup[ifc].0@;
        // The found entry is recorded history, so it decomposes.
        assert(dup_map(hist, c).contains_key(fk)) by {
            crate::table::lemma_map_of_entry(dup, ifc);
        }
        let (iw, kw) = choose|iw: int, kw: Seq<u8>| dup_entry(hist, c, iw, kw, fk);
        assert(kw.len() == k.len());
        // Its cell key is `k` itself: a smaller cell key would sort before the
        // seek start, a larger one after the target entry.
        assert(kw =~= k) by {
            crate::order::lemma_lex_lt_total(kw, k);
            crate::order::lemma_be_bytes_len(hist[iw].height as nat, 8);
            if lex_lt(kw, k) {
                crate::order::lemma_lex_lt_append_when_lt(
                    kw, k, be8(hist[iw].height), be8(next_height(h)));
                crate::order::lemma_lex_lt_asymmetric(fk, start);
            } else if lex_lt(k, kw) {
                // The target entry would come first, contradicting minimality.
                assert(e0 >= ifc) by {
                    if e0 < ifc {
                        assert(lex_lt(dup[e0].0@, start));
                        crate::order::lemma_lex_lt_asymmetric(kk0, start);
                    }
                }
                assert(!lex_lt(kk0, fk)) by {
                    if e0 == ifc {
                        crate::order::lemma_lex_lt_asymmetric(kk0, fk);
                    } else {
                        assert(lex_lt(dup[ifc].0@, dup[e0].0@));
                        crate::order::lemma_lex_lt_asymmetric(fk, kk0);
                    }
                }
                crate::order::lemma_lex_lt_append_when_lt(
                    k, kw, be8(h0), be8(hist[iw].height));
            }
        }
        assert(fk == k + be8(hist[iw].height));
        // The found commit is a touch after `h`, so it is at or after the
        // least one; minimality of the seek makes it exactly the least one.
        assert(iw == i0) by {
            assert(hist[iw].height > h) by {
                if hist[iw].height <= h {
                    lemma_be8_order(hist[iw].height, (h + 1) as u64);
                    crate::order::lemma_lex_lt_common_prefix(
                        k, be8(hist[iw].height), be8((h + 1) as u64));
                }
            }
            assert(iw >= n) by {
                if iw < n {
                    assert(hist[iw].height <= h);
                }
            }
            assert(iw >= i0);
            if iw > i0 {
                assert(hist[i0].height < hist[iw].height);
                // Then the target entry sorts strictly before the found one,
                // contradicting the seek's minimality.
                lemma_be8_order(h0, hist[iw].height);
                crate::order::lemma_lex_lt_common_prefix(
                    k, be8(h0), be8(hist[iw].height));
                assert(lex_lt(kk0, fk));
                assert(e0 >= ifc) by {
                    if e0 < ifc {
                        assert(lex_lt(dup[e0].0@, start));
                        crate::order::lemma_lex_lt_asymmetric(kk0, start);
                    }
                }
                if e0 == ifc {
                    crate::order::lemma_lex_lt_asymmetric(kk0, fk);
                } else {
                    assert(lex_lt(dup[ifc].0@, dup[e0].0@));
                    crate::order::lemma_lex_lt_asymmetric(kk0, fk);
                    crate::order::lemma_lex_lt_transitive(kk0, fk, kk0);
                }
            }
        }
        // The entry's value is the encoded prior state of the least touch.
        assert(dup[ifc].1@ == enc_op_spec(prior_op(hist, i0, c, k))) by {
            crate::table::lemma_map_of_entry(dup, ifc);
            let (ic, kc) = choose|ic: int, kc: Seq<u8>| dup_entry(hist, c, ic, kc, fk);
            lemma_dup_entry_unique(hist, c, ic, kc, iw, kw, fk);
        }
        // The prefix check passes.
        assert(fk.take(k.len() as int) =~= k) by {
            crate::order::lemma_be_bytes_len(h0 as nat, 8);
            assert forall|m: int| 0 <= m < k.len() implies fk[m] == k[m] by {
                assert((k + be8(h0))[m] == k[m]);
            }
        }
        crate::order::lemma_be_bytes_len(h0 as nat, 8);
        lemma_op_round_trip(prior_op(hist, i0, c, k));
        // The prior state of the least touch is the state at `h`.
        lemma_hist_untouched(hist, c, k, n, i0);
        assert(lookup(state_after(hist.take(i0), c), k)
            == lookup(state_at_height(hist, h, c), k));
        match prior_op(hist, i0, c, k) {
            WriteOp::Insert(v) => {
                assert(view_resolve(db, h, c, k) == Some(v));
            },
            WriteOp::Remove => {
                assert(view_resolve(db, h, c, k) is None);
            },
        }
    } else {
        // No later commit touched the key: the state at `h` is the latest
        // state, and the seek either finds nothing or an entry of another key.
        assert(hist.take(hist.len() as int) =~= hist);
        lemma_hist_untouched(hist, c, k, n, hist.len() as int);
        assert(lookup(state_at_height(hist, h, c), k)
            == lookup(state_after(hist, c), k));
        if has_at_or_after(dup, start) {
            lemma_first_is_first(dup, start);
            let ifc = first_at_or_after(dup, start);
            let fk = dup[ifc].0@;
            assert(dup_map(hist, c).contains_key(fk)) by {
                crate::table::lemma_map_of_entry(dup, ifc);
            }
            let (iw, kw) = choose|iw: int, kw: Seq<u8>| dup_entry(hist, c, iw, kw, fk);
            assert(kw.len() == k.len());
            crate::order::lemma_be_bytes_len(hist[iw].height as nat, 8);
            // The found entry cannot carry `k` itself.
            assert(kw != k) by {
                if kw == k {
                    if h == u64::MAX {
                        lemma_be8_order(hist[iw].height, u64::MAX);
                        crate::order::lemma_lex_lt_common_prefix(
                            k, be8(hist[iw].height), be8(u64::MAX));
                    } else {
                        assert(hist[iw].height > h) by {
                            if hist[iw].height <= h {
                                lemma_be8_order(hist[iw].height, (h + 1) as u64);
                                crate::order::lemma_lex_lt_common_prefix(
                                    k, be8(hist[iw].height), be8((h + 1) as u64));
                            }
                        }
                        assert(iw >= n) by {
                            if iw < n {
                                assert(hist[iw].height <= h);
                            }
                        }
                    }
                }
            }
            // Equal lengths make the prefix check fail for another key.
            assert(!(fk.len() >= k.len() && fk.take(k.len() as int) == k)) by {
                if fk.take(k.len() as int) == k {
                    assert(kw =~= k) by {
                        assert forall|m: int| 0 <= m < kw.len() implies kw[m] == k[m] by {
                            assert((kw + be8(hist[iw].height))[m] == kw[m]);
                            assert(fk.take(k.len() as int)[m] == fk[m]);
                        }
                    }
                }
            }
            assert(view_resolve(db, h, c, k) == lookup(db.col(Column::Original(c)), k));
        }
    }
}

/// Applying a change set and then its reverse restores the column.
pub proof fn lemma_apply_reverse(
    m: Map<Seq<u8>, Seq<u8>>,
    ch: Map<(PlainColumn, Seq<u8>), WriteOp>,
    rev: Map<(PlainColumn, Seq<u8>), WriteOp>,
    c: PlainColumn,
)
    requires
        forall|k: Seq<u8>| #[trigger] rev.contains_key((c, k)) <==> ch.contains_key((c, k)),
        forall|k: Seq<u8>| #[trigger] ch.contains_key((c, k)) ==> rev[(c, k)] == prior_of(m, k),
    ensures
        col_after(col_after(m, ch, c), rev, c) =~= m,
{
    assert forall|k: Seq<u8>|
        #[trigger] col_after(col_after(m, ch, c), rev, c).dom().contains(k)
            || m.dom().contains(k) implies
        (col_after(col_after(m, ch, c), rev, c).contains_key(k) <==> m.contains_key(k))
            && (m.contains_key(k)
                ==> col_after(col_after(m, ch, c), rev, c)[k] == m[k]) by {
        if ch.contains_key((c, k)) {
            assert(rev.contains_key((c, k)));
            assert(rev[(c, k)] == prior_of(m, k));
        } else {
            assert(!rev.contains_key((c, k)));
        }
    }
}

/// The duplicate keys the first `n` reverse entries at height `h` cover in
/// column `c`.
pub open spec fn removed_prefix(
    all: Seq<crate::kv::ChangeEntry>,
    h: u64,
    c: PlainColumn,
    n: int,
) -> Set<Seq<u8>> {
    Set::new(
        |k2: Seq<u8>|
            exists|j: int|
                0 <= j < n && (#[trigger] all[j]).column == c && k2 == all[j].key@ + be8(h),
    )
}

impl HistoricalStore {
    /// Undoes the most recent block: the store must hold history, and the
    /// requested height must be the one right under the latest committed
    /// height. Applies the recorded reverse change set and deletes the
    /// latest height's duplicate entries.
    pub fn rollback_block_to(&mut self, height: u64) -> (r: Result<(), StorageError>)
        requires
            old(self).wf(),
        ensures
            final(self).wf(),
            final(self).policy == old(self).policy,
            match r {
                Ok(()) => old(self).policy.records() && height < u64::MAX
                    && old(self).latest == Some((height + 1) as u64)
                    && final(self).hist() == old(self).hist().drop_last(),
                Err(e) => *final(self) == *old(self)
                    && (!old(self).policy.records() && e is HistoryNotAvailable
                        || old(self).policy.records() && e is HeightNotRecorded
                            && !(height < u64::MAX
                                && old(self).latest == Some((height + 1) as u64))),
            },
    {
        let records = match self.policy {
            StateRewindPolicy::NoRewind => false,
            _ => true,
        };
        if !records {
            return Err(StorageError::HistoryNotAvailable);
        }
        let adjacent = match self.latest {
            Some(l) => height < u64::MAX && l == height + 1,
            None => false,
        };
        if !adjacent {
            return Err(StorageError::HeightNotRecorded { height });
        }
        let ghost hist = self.hist();
        let ghost n = hist.len() as int;
        let ghost last = hist.last();
        let popped = match self.undo.pop() {
            Some(p) => p,
            None => {
                proof {
                    assert(false);
                }
                return Err(StorageError::HistoryNotAvailable);
            },
        };
        let h_last = popped.0;
        let rev = popped.1;
        proof {
            assert(h_last == last.height);
            assert(rev@ == reverse_map(hist, n - 1));
            assert(rev.wf());
        }
        let height_suffix = enc_be8(h_last);
        let ghost all = rev.entries@;
        let mut rest = rev;
        let mut processed: usize = 0;
        let total = rest.entries.len();
        while processed < total
            invariant
                0 <= processed <= total,
                total == all.len(),
                all == rev.entries@,
                rev.wf(),
                rev@ == reverse_map(hist, n - 1),
                rest.entries@ == all.skip(processed as int),
                height_suffix@ == be8(h_last),
                hist == old(self).hist(),
                n == hist.len(),
                n > 0,
                last == hist.last(),
                h_last == last.height,
                old(self).wf(),
                old(self).policy.records(),
                self.policy == old(self).policy,
                self.latest == old(self).latest,
                self.history == old(self).history,
                self.undo@ == old(self).undo@.drop_last(),
                self.inner.wf(),
                forall|p: PlainColumn| #[trigger] self.inner.col(Column::Original(p))
                    == crate::kv::col_after_entries(
                        old(self).inner.col(Column::Original(p)), all, p, processed as int),
                forall|p: PlainColumn|
                    #[trigger] self.inner.col(Column::HistoricalDuplicate(p))
                        =~= dup_map(hist, p).remove_keys(
                            removed_prefix(all, h_last, p, processed as int)),
            decreases total - processed,
        {
            let e = rest.entries.remove(0);
            proof {
                assert(all.skip(processed as int)[0] == all[processed as int]);
                assert(rest.entries@ =~= all.skip(processed + 1));
            }
            let hk = concat_bytes(&e.key, &height_suffix);
            self.inner.delete(Column::HistoricalDuplicate(e.column), &hk);
            self.inner.apply(Column::Original(e.column), e.key, e.op);
            proof {
                let e0 = all[processed as int];
                assert forall|p: PlainColumn| #[trigger] self.inner.col(Column::Original(p))
                    == crate::kv::col_after_entries(
                        old(self).inner.col(Column::Original(p)), all, p, processed + 1) by {
                    if p != e0.column {
                        assert(Column::Original(p) != Column::Original(e0.column));
                        assert(Column::Original(p)
                            != Column::HistoricalDuplicate(e0.column));
                    }
                }
                assert forall|p: PlainColumn|
                    #[trigger] self.inner.col(Column::HistoricalDuplicate(p))
                        =~= dup_map(hist, p).remove_keys(
                            removed_prefix(all, h_last, p, processed + 1)) by {
                    assert forall|k2: Seq<u8>|
                        removed_prefix(all, h_last, p, processed + 1).contains(k2)
                            <==> (removed_prefix(all, h_last, p, processed as int)
                                .contains(k2)
                                || (p == e0.column && k2 == e0.key@ + be8(h_last))) by {
                        if removed_prefix(all, h_last, p, processed + 1).contains(k2) {
                            let j = choose|j: int|
                                0 <= j < processed + 1 && (#[trigger] all[j]).column == p
                                    && k2 == all[j].key@ + be8(h_last);
                            if j < processed {
                                assert(removed_prefix(
                                    all, h_last, p, processed as int).contains(k2));
                            }
                        }
                    }
                    if p == e0.column {
                        assert(self.inner.col(Column::HistoricalDuplicate(p))
                            =~= dup_map(hist, p).remove_keys(
                                removed_prefix(all, h_last, p, processed as int))
                                .remove(e0.key@ + be8(h_last)));
                    } else {
                        assert(Column::HistoricalDuplicate(p)
                            != Column::HistoricalDuplicate(e0.column));
                        assert(Column::HistoricalDuplicate(p)
                            != Column::Original(e0.column));
                    }
                }
            }
            processed = processed + 1;
        }
        self.latest = if height == 0 && self.undo.len() == 0 {
            None
        } else {
            match self.undo.len() {
                0 => None,
                _ => {
                    let idx = self.undo.len() - 1;
                    Some(self.undo[idx].0)
                },
            }
        };
        let ghost old_hist = self.history@;
        proof {
            self.history@ = self.history@.drop_last();
        }
        proof {
            let hist2 = self.hist();
            assert(hist2 =~= hist.drop_last());
            assert(all.take(total as int) =~= all);
            assert(heights_increasing(hist2)) by {
                assert forall|i: int, j: int| 0 <= i < j < hist2.len() implies
                    (#[trigger] hist2[i]).height < (#[trigger] hist2[j]).height by {
                    assert(hist2[i] == hist[i]);
                    assert(hist2[j] == hist[j]);
                }
            }
            // The reverse change set mirrors the last commit's cells.
            assert forall|p: PlainColumn, k: Seq<u8>|
                #[trigger] crate::kv::changes_has(all, p, k)
                    <==> last.changes.contains_key((p, k)) by {
                if crate::kv::changes_has(all, p, k) {
                    let w = crate::kv::changes_at(all, p, k);
                    crate::kv::lemma_changes_map_entry(all, w);
                    assert(rev@.contains_key((p, k)));
                }
                if last.changes.contains_key((p, k)) {
                    assert(rev@.contains_key((p, k)));
                    let w = crate::kv::changes_at(all, p, k);
                }
            }
            // Originals roll back to the state before the last commit.
            assert forall|p: PlainColumn| #[trigger] self.inner.col(Column::Original(p))
                == state_after(hist2, p) by {
                crate::kv::lemma_col_after_all(
                    old(self).inner.col(Column::Original(p)), all, p);
                assert(hist.take(n - 1) =~= hist2);
                assert(hist.drop_last() =~= hist2);
                assert(state_after(hist, p)
                    == col_after(state_after(hist2, p), last.changes, p));
                assert forall|k: Seq<u8>| #[trigger] rev@.contains_key((p, k))
                    <==> last.changes.contains_key((p, k)) by {}
                assert forall|k: Seq<u8>| #[trigger] last.changes.contains_key((p, k))
                    implies rev@[(p, k)] == prior_of(state_after(hist2, p), k) by {
                    assert(rev@[(p, k)] == prior_op(hist, n - 1, p, k));
                }
                lemma_apply_reverse(state_after(hist2, p), last.changes, rev@, p);
                assert(self.inner.col(Column::Original(p)) =~= state_after(hist2, p));
            }
            // Duplicates lose exactly the last height's entries.
            assert forall|p: PlainColumn|
                #[trigger] self.inner.col(Column::HistoricalDuplicate(p))
                    == dup_map(hist2, p) by {
                lemma_dup_map_push(hist2, last, p);
                assert(hist2.push(last) =~= hist);
                let added = added_dups(last.changes, h_last, state_after(hist2, p), p);
                let removed = removed_prefix(all, h_last, p, total as int);
                assert forall|k2: Seq<u8>| #[trigger] added.dom().contains(k2)
                    <==> removed.contains(k2) by {
                    if added.dom().contains(k2) {
                        let ka = choose|ka: Seq<u8>|
                            added_key(last.changes, h_last, p, ka, k2);
                        assert(crate::kv::changes_has(all, p, ka));
                        let w = crate::kv::changes_at(all, p, ka);
                        assert(all[w].column == p && all[w].key@ == ka);
                        assert(removed.contains(k2));
                    }
                    if removed.contains(k2) {
                        let j = choose|j: int|
                            0 <= j < total && (#[trigger] all[j]).column == p
                                && k2 == all[j].key@ + be8(h_last);
                        assert(crate::kv::changes_has(all, p, all[j].key@));
                        assert(last.changes.contains_key((p, all[j].key@)));
                        assert(added_key(last.changes, h_last, p, all[j].key@, k2));
                    }
                }
                assert forall|k2: Seq<u8>| #[trigger] dup_map(hist2, p).dom().contains(k2)
                    implies !added.dom().contains(k2) by {
                    if added.dom().contains(k2) {
                        let ka = choose|ka: Seq<u8>|
                            added_key(last.changes, h_last, p, ka, k2);
                        let (iw, kw) = choose|iw: int, kw: Seq<u8>|
                            dup_entry(hist2, p, iw, kw, k2);
                        assert(dup_entry(hist, p, iw, kw, k2)) by {
                            assert(hist[iw] == hist2[iw]);
                        }
                        assert(dup_entry(hist, p, n - 1, ka, k2)) by {
                            assert(hist[n - 1] == last);
                        }
                        lemma_dup_entry_unique(hist, p, iw, kw, n - 1, ka, k2);
                    }
                }
                assert(self.inner.col(Column::HistoricalDuplicate(p))
                    =~= dup_map(hist2, p));
            }
            // The undo log shrinks in step with the history.
            assert forall|i: int| 0 <= i < self.undo@.len() implies
                (#[trigger] self.undo@[i]).0 == hist2[i].height
                    && self.undo@[i].1.wf()
                    && self.undo@[i].1@ == reverse_map(hist2, i) by {
                assert(self.undo@[i] == old(self).undo@[i]);
                assert(hist2[i] == hist[i]);
                assert(hist2.take(i) =~= hist.take(i));
                assert(reverse_map(hist, i) =~= reverse_map(hist2, i));
            }
            assert(self.latest == (if hist2.len() == 0 {
                None::<u64>
            } else {
                Some(hist2.last().height)
            })) by {
                if hist2.len() > 0 {
                    assert(old(self).undo@[hist2.len() - 1].0
                        == hist[hist2.len() - 1].height);
                }
            }
        }
        Ok(())
    }
}

/// Universal law: rolling the latest block back and committing its change
/// set again at its height restores every observable column byte for byte,
/// along with the undo log and the latest-height marker. `s1` is the store
/// after `rollback_block_to`, `s2` the store after the renewed
/// `commit_changes`; their contracts pin their histories to the ones assumed
/// here.
pub proof fn lemma_rollback_commit_round_trip(
    s0: HistoricalStore,
    s1: HistoricalStore,
    s2: HistoricalStore,
    h: u64,
    ch: Map<(PlainColumn, Seq<u8>), WriteOp>,
)
    requires
        s0.wf(),
        s1.wf(),
        s2.wf(),
        s0.policy.records(),
        s1.policy == s0.policy,
        s2.policy == s0.policy,
        s0.hist().len() > 0,
        s0.hist().last() == (HCommit { height: h, changes: ch }),
        s1.hist() == s0.hist().drop_last(),
        s2.hist() == s1.hist().push(HCommit { height: h, changes: ch }),
    ensures
        forall|col: Column| #[trigger] s2.inner.col(col) == s0.inner.col(col),
        s2.latest == s0.latest,
        s2.undo@.len() == s0.undo@.len(),
        forall|i: int| 0 <= i < s2.undo@.len()
            ==> (#[trigger] s2.undo@[i]).0 == s0.undo@[i].0
                && s2.undo@[i].1@ == s0.undo@[i].1@,
{
    assert(s2.hist() =~= s0.hist());
    assert forall|col: Column| #[trigger] s2.inner.col(col) == s0.inner.col(col) by {
        match col {
            Column::Original(p) => {
                assert(s2.inner.col(col) == state_after(s2.hist(), p));
                assert(s0.inner.col(col) == state_after(s0.hist(), p));
            },
            Column::HistoricalDuplicate(p) => {
                assert(s2.inner.col(col) == dup_map(s2.hist(), p));
                assert(s0.inner.col(col) == dup_map(s0.hist(), p));
            },
        }
    }
    assert forall|i: int| 0 <= i < s2.undo@.len() implies
        (#[trigger] s2.undo@[i]).0 == s0.undo@[i].0
            && s2.undo@[i].1@ == s0.undo@[i].1@ by {
        assert(s2.undo@[i].1@ == reverse_map(s2.hist(), i));
        assert(s0.undo@[i].1@ == reverse_map(s0.hist(), i));
    }
}

/// The historical-read law at the store: reading any cell through a view the
/// store hands out for height `h` answers exactly what a fresh node that
/// applied only the commits at heights up to `h` would hold, whenever the
/// keys the column's history records share the read key's length.
pub proof fn lemma_store_reads_history_exactly(
    store: HistoricalStore,
    view: ViewAtHeight,
    c: PlainColumn,
    k: Seq<u8>,
)
    requires
        store.wf(),
        store.policy.records(),
        view.wf(),
        forall|col: Column| #[trigger] view.read_db.col(col) == store.inner.col(col),
        forall|i: int| 0 <= i < store.hist().len()
            ==> (#[trigger] store.hist()[i]).height < u64::MAX,
        forall|i: int, k2: Seq<u8>|
            0 <= i < store.hist().len()
                && #[trigger] store.hist()[i].changes.contains_key((c, k2))
                ==> k2.len() == k.len(),
    ensures
        view_resolve(view.read_db, view.height, c, k)
            == lookup(state_at_height(store.hist(), view.height, c), k),
{
    lemma_view_at_height_agrees_with_replay(
        view.read_db, store.hist(), view.height, c, k);
}

} // verus!
