//! Column-keyed key-value backend: an ordered byte map per column with
//! atomic multi-column commits, point lookups and range iteration.

use vstd::prelude::*;
use crate::order::{bytes_cmp, clone_bytes, lex_lt, starts_with, KeyCmp};
use crate::table::{map_of, Table};

verus! {

/// A namespace of the store that callers read and write directly.
#[derive(PartialEq, Eq, Structural, Clone, Copy, Debug)]
pub enum PlainColumn {
    Metadata,
    Coins,
    Messages,
    ContractsLatestUtxo,
    ContractsState,
    ContractsAssets,
    ProcessedTransactions,
    ConsensusParametersVersions,
    FuelBlocks,
}

/// A namespace of the store as the historical overlay sees it: either an
/// original column, or the duplicate column that records, per height, the
/// value a key held before the commit at that height.
#[derive(PartialEq, Eq, Structural, Clone, Copy, Debug)]
pub enum Column {
    Original(PlainColumn),
    HistoricalDuplicate(PlainColumn),
}

pub open spec fn plain_index_spec(c: PlainColumn) -> int {
    match c {
        PlainColumn::Metadata => 0,
        PlainColumn::Coins => 1,
        PlainColumn::Messages => 2,
        PlainColumn::ContractsLatestUtxo => 3,
        PlainColumn::ContractsState => 4,
        PlainColumn::ContractsAssets => 5,
        PlainColumn::ProcessedTransactions => 6,
        PlainColumn::ConsensusParametersVersions => 7,
        PlainColumn::FuelBlocks => 8,
    }
}

pub open spec fn column_index_spec(c: Column) -> int {
    match c {
        Column::Original(p) => plain_index_spec(p),
        Column::HistoricalDuplicate(p) => 9 + plain_index_spec(p),
    }
}

/// How many columns the store has in all.
pub const COLUMN_COUNT: usize = 18;

pub fn plain_index(c: PlainColumn) -> (r: usize)
    ensures
        r == plain_index_spec(c),
{
    match c {
        PlainColumn::Metadata => 0,
        PlainColumn::Coins => 1,
        PlainColumn::Messages => 2,
        PlainColumn::ContractsLatestUtxo => 3,
        PlainColumn::ContractsState => 4,
        PlainColumn::ContractsAssets => 5,
        PlainColumn::ProcessedTransactions => 6,
        PlainColumn::ConsensusParametersVersions => 7,
        PlainColumn::FuelBlocks => 8,
    }
}

pub fn column_index(c: Column) -> (r: usize)
    ensures
        r == column_index_spec(c),
        r < COLUMN_COUNT,
{
    match c {
        Column::Original(p) => plain_index(p),
        Column::HistoricalDuplicate(p) => 9 + plain_index(p),
    }
}

pub proof fn lemma_column_index_injective(c1: Column, c2: Column)
    requires
        column_index_spec(c1) == column_index_spec(c2),
    ensures
        c1 == c2,
{
}

/// The latest effect applied to a cell.
#[derive(Debug)]
pub enum WriteOperation {
    Insert(Vec<u8>),
    Remove,
}

/// The ghost image of a `WriteOperation`.
pub ghost enum WriteOp {
    Insert(Seq<u8>),
    Remove,
}

impl WriteOperation {
    pub open spec fn view_op(self) -> WriteOp {
        match self {
            WriteOperation::Insert(v) => WriteOp::Insert(v@),
            WriteOperation::Remove => WriteOp::Remove,
        }
    }
}

/// One recorded write of a change set.
pub struct ChangeEntry {
    pub column: PlainColumn,
    pub key: Vec<u8>,
    pub op: WriteOperation,
}

/// A change set: the output of a storage transaction and the input of a
/// commit. Each `(column, key)` cell carries at most one operation.
pub struct Changes {
    pub entries: Vec<ChangeEntry>,
}

pub open spec fn changes_unique(s: Seq<ChangeEntry>) -> bool {
    forall|i: int, j: int|
        0 <= i < j < s.len()
            ==> !((#[trigger] s[i]).column == (#[trigger] s[j]).column
                && s[i].key@ == s[j].key@)
}

pub open spec fn changes_has(s: Seq<ChangeEntry>, c: PlainColumn, k: Seq<u8>) -> bool {
    exists|i: int| 0 <= i < s.len() && (#[trigger] s[i]).column == c && s[i].key@ == k
}

pub open spec fn changes_at(s: Seq<ChangeEntry>, c: PlainColumn, k: Seq<u8>) -> int {
    choose|i: int| 0 <= i < s.len() && (#[trigger] s[i]).column == c && s[i].key@ == k
}

/// The map a change set denotes, keyed by column and key.
pub open spec fn changes_map(s: Seq<ChangeEntry>) -> Map<(PlainColumn, Seq<u8>), WriteOp> {
    Map::new(
        |p: (PlainColumn, Seq<u8>)| changes_has(s, p.0, p.1),
        |p: (PlainColumn, Seq<u8>)| s[changes_at(s, p.0, p.1)].op.view_op(),
    )
}

pub proof fn lemma_changes_at_unique(s: Seq<ChangeEntry>, i: int, j: int)
    requires
        changes_unique(s),
        0 <= i < s.len(),
        0 <= j < s.len(),
        s[i].column == s[j].column,
        s[i].key@ == s[j].key@,
    ensures
        i == j,
{
}

/// Each entry of a unique change set is what its map holds for its cell.
pub proof fn lemma_changes_map_entry(s: Seq<ChangeEntry>, i: int)
    requires
        changes_unique(s),
        0 <= i < s.len(),
    ensures
        changes_map(s).contains_key((s[i].column, s[i].key@)),
        changes_map(s)[(s[i].column, s[i].key@)] == s[i].op.view_op(),
{
    lemma_changes_at_unique(s, changes_at(s, s[i].column, s[i].key@), i);
}

impl Changes {
    pub open spec fn wf(self) -> bool {
        changes_unique(self.entries@)
    }

    pub fn new() -> (r: Changes)
        ensures
            r.wf(),
            r@ =~= Map::<(PlainColumn, Seq<u8>), WriteOp>::empty(),
            r.entries@.len() == 0,
    {
        Changes { entries: Vec::new() }
    }

    pub fn len(&self) -> (r: usize)
        ensures
            r == self.entries@.len(),
    {
        self.entries.len()
    }

    pub fn entry_at(&self, i: usize) -> (r: &ChangeEntry)
        requires
            i < self.entries@.len(),
        ensures
            *r == self.entries@[i as int],
    {
        &self.entries[i]
    }

    /// The operation this change set holds for a cell, if any.
    pub fn get(&self, column: PlainColumn, key: &Vec<u8>) -> (r: Option<&WriteOperation>)
        requires
            self.wf(),
        ensures
            match r {
                Some(op) => self@.contains_key((column, key@))
                    && op.view_op() == self@[(column, key@)],
                None => !self@.contains_key((column, key@)),
            },
    {
        let n = self.entries.len();
        let mut i: usize = 0;
        while i < n
            invariant
                0 <= i <= n,
                n == self.entries@.len(),
                self.wf(),
                forall|m: int|
                    0 <= m < i
                        ==> !((#[trigger] self.entries@[m]).column == column
                            && self.entries@[m].key@ == key@),
            decreases n - i,
        {
            let e = &self.entries[i];
            if e.column == column {
                match bytes_cmp(&e.key, key) {
                    KeyCmp::Equal => {
                        proof {
                            lemma_changes_map_entry(self.entries@, i as int);
                        }
                        return Some(&self.entries[i].op);
                    },
                    _ => {},
                }
            }
            i = i + 1;
        }
        None
    }

    /// Records an operation for a cell, replacing any earlier one.
    pub fn set(&mut self, column: PlainColumn, key: Vec<u8>, op: WriteOperation)
        requires
            old(self).wf(),
        ensures
            final(self).wf(),
            final(self)@ =~= old(self)@.insert((column, key@), op.view_op()),
    {
        let ghost old_entries = old(self).entries@;
        let n = self.entries.len();
        let mut i: usize = 0;
        while i < n
            invariant
                0 <= i <= n,
                n == self.entries@.len(),
                self.wf(),
                self.entries@ == old_entries,
                old_entries == old(self).entries@,
                forall|m: int|
                    0 <= m < i
                        ==> !((#[trigger] self.entries@[m]).column == column
                            && self.entries@[m].key@ == key@),
            decreases n - i,
        {
            let e = &self.entries[i];
            let mut hit = false;
            if e.column == column {
                match bytes_cmp(&e.key, &key) {
                    KeyCmp::Equal => {
                        hit = true;
                    },
                    _ => {},
                }
            }
            if hit {
                let entry = ChangeEntry { column, key, op };
                let ghost entry_snap = entry;
                let _ = self.entries.remove(i);
                self.entries.insert(i, entry);
                proof {
                    let s = self.entries@;
                    assert(s[i as int] == entry_snap);
                    assert(entry_snap.column == column);
                    assert(entry_snap.key@ == key@);
                    assert(entry_snap.op == op);
                    assert forall|m: int| 0 <= m < s.len() && m != i implies
                        s[m] == old_entries[m] by {
                        assert(s[m] == old_entries.remove(i as int).insert(
                            i as int, s[i as int])[m]);
                    }
                    lemma_changes_splice(old_entries, s, i as int, true);
                }
                return;
            }
            i = i + 1;
        }
        let entry = ChangeEntry { column, key, op };
        let ghost entry_snap = entry;
        self.entries.push(entry);
        proof {
            assert(self.entries@[n as int] == entry_snap);
            lemma_changes_splice(old_entries, self.entries@, n as int, false);
        }
    }
}

/// After replacing entry `i` in place (`replaced`) or pushing a fresh entry at
/// the end, the change set denotes the old map with the new binding added.
pub(crate) proof fn lemma_changes_splice(prev: Seq<ChangeEntry>, s: Seq<ChangeEntry>, i: int, replaced: bool)
    requires
        changes_unique(prev),
        0 <= i < s.len(),
        replaced ==> s.len() == prev.len() && prev[i].column == s[i].column
            && prev[i].key@ == s[i].key@,
        !replaced ==> s.len() == prev.len() + 1 && i == prev.len()
            && !changes_has(prev, s[i].column, s[i].key@),
        forall|m: int| 0 <= m < s.len() && m != i ==> s[m] == prev[m],
    ensures
        changes_unique(s),
        changes_map(s) =~= changes_map(prev).insert((s[i].column, s[i].key@), s[i].op.view_op()),
{
    let c = s[i].column;
    let k = s[i].key@;
    assert forall|p: int, q: int| 0 <= p < q < s.len() implies
        !(s[p].column == s[q].column && s[p].key@ == s[q].key@) by {
        if p == i || q == i {
            if replaced {
                if p == i {
                    assert(s[q] == prev[q]);
                } else {
                    assert(s[p] == prev[p]);
                }
            } else {
                if q == i && s[p].column == s[q].column && s[p].key@ == s[q].key@ {
                    assert(changes_has(prev, s[i].column, s[i].key@));
                }
            }
        } else {
            assert(s[p] == prev[p]);
            assert(s[q] == prev[q]);
        }
    }
    assert forall|p2: (PlainColumn, Seq<u8>)| #[trigger] changes_map(s).dom().contains(p2)
            || changes_map(prev).insert((c, k), s[i].op.view_op()).dom().contains(p2) implies
        (changes_map(s).contains_key(p2)
            <==> changes_map(prev).insert((c, k), s[i].op.view_op()).contains_key(p2))
            && (changes_map(s).contains_key(p2)
                ==> changes_map(s)[p2]
                    == changes_map(prev).insert((c, k), s[i].op.view_op())[p2]) by {
        if p2 == (c, k) {
            lemma_changes_map_entry(s, i);
        } else {
            if changes_has(prev, p2.0, p2.1) {
                let m = changes_at(prev, p2.0, p2.1);
                assert(m != i || replaced);
                if m == i && replaced {
                    assert(prev[m].column == c && prev[m].key@ == k);
                } else {
                    assert(s[m] == prev[m]);
                    assert(changes_has(s, p2.0, p2.1));
                }
            }
            if changes_has(s, p2.0, p2.1) {
                let m = changes_at(s, p2.0, p2.1);
                lemma_changes_at_unique(s, m, m);
                assert(m != i);
                assert(s[m] == prev[m]);
                assert(changes_has(prev, p2.0, p2.1));
                lemma_changes_map_entry(prev, m);
                lemma_changes_map_entry(s, m);
            }
        }
    }
    assert(changes_map(s) =~= changes_map(prev).insert((c, k), s[i].op.view_op()));
}

impl View for Changes {
    type V = Map<(PlainColumn, Seq<u8>), WriteOp>;

    open spec fn view(&self) -> Map<(PlainColumn, Seq<u8>), WriteOp> {
        changes_map(self.entries@)
    }
}

/// Failures of the storage layer.
#[derive(Debug)]
pub enum StorageError {
    /// Two change sets of one commit touch the same cell.
    ConflictingChanges { column: PlainColumn, key: Vec<u8> },
    /// A commit's height does not follow the last committed height.
    NonMonotonicHeight { prev: u64, next: u64 },
    /// The store keeps no history under its rewind policy.
    HistoryNotAvailable,
    /// The requested height is not covered by the kept history.
    HeightNotRecorded { height: u64 },
    /// The metadata cell was written by an incompatible version.
    InvalidDatabaseVersion { found: u32, expected: u32 },
}

/// One cell after one operation.
pub open spec fn apply_op_to_map(
    m: Map<Seq<u8>, Seq<u8>>,
    k: Seq<u8>,
    op: WriteOp,
) -> Map<Seq<u8>, Seq<u8>> {
    match op {
        WriteOp::Insert(v) => m.insert(k, v),
        WriteOp::Remove => m.remove(k),
    }
}

/// One plain column after a whole change map is applied to it.
pub open spec fn col_after(
    m: Map<Seq<u8>, Seq<u8>>,
    ch: Map<(PlainColumn, Seq<u8>), WriteOp>,
    c: PlainColumn,
) -> Map<Seq<u8>, Seq<u8>> {
    Map::new(
        |k: Seq<u8>|
            if ch.contains_key((c, k)) {
                ch[(c, k)] is Insert
            } else {
                m.contains_key(k)
            },
        |k: Seq<u8>|
            if ch.contains_key((c, k)) && ch[(c, k)] is Insert {
                ch[(c, k)]->Insert_0
            } else {
                m[k]
            },
    )
}

/// One plain column after one change entry.
pub open spec fn entry_step(
    m: Map<Seq<u8>, Seq<u8>>,
    e: ChangeEntry,
    c: PlainColumn,
) -> Map<Seq<u8>, Seq<u8>> {
    if e.column == c {
        apply_op_to_map(m, e.key@, e.op.view_op())
    } else {
        m
    }
}

/// One plain column after the first `n` change entries, applied in order.
pub open spec fn col_after_entries(
    m: Map<Seq<u8>, Seq<u8>>,
    s: Seq<ChangeEntry>,
    c: PlainColumn,
    n: int,
) -> Map<Seq<u8>, Seq<u8>>
    decreases n,
{
    if n <= 0 {
        m
    } else {
        entry_step(col_after_entries(m, s, c, n - 1), s[n - 1], c)
    }
}

/// Applying the entries of a unique change set one by one reaches the state
/// that the change map describes in one step.
pub proof fn lemma_col_after_entries(
    m: Map<Seq<u8>, Seq<u8>>,
    s: Seq<ChangeEntry>,
    c: PlainColumn,
    n: int,
)
    requires
        changes_unique(s),
        0 <= n <= s.len(),
    ensures
        col_after_entries(m, s, c, n) =~= col_after(m, changes_map(s.take(n)), c),
    decreases n,
{
    if n == 0 {
        assert forall|k: Seq<u8>| !changes_map(s.take(0)).contains_key((c, k)) by {
            if changes_has(s.take(0), c, k) {
                let i = changes_at(s.take(0), c, k);
            }
        }
    } else {
        lemma_col_after_entries(m, s, c, n - 1);
        let e = s[n - 1];
        let prev_map = changes_map(s.take(n - 1));
        let cur_map = changes_map(s.take(n));
        assert(s.take(n - 1) =~= s.take(n).take(n - 1));
        assert forall|mm: int| 0 <= mm < n implies s.take(n)[mm] == s[mm] by {}
        assert(changes_unique(s.take(n))) by {
            assert forall|p: int, q: int| 0 <= p < q < n implies
                !(s.take(n)[p].column == s.take(n)[q].column
                    && s.take(n)[p].key@ == s.take(n)[q].key@) by {
                assert(s[p] == s.take(n)[p]);
                assert(s[q] == s.take(n)[q]);
            }
        }
        assert(!changes_has(s.take(n - 1), e.column, e.key@)) by {
            if changes_has(s.take(n - 1), e.column, e.key@) {
                let i = changes_at(s.take(n - 1), e.column, e.key@);
                assert(s[i] == s.take(n - 1)[i]);
            }
        }
        lemma_changes_splice(s.take(n - 1), s.take(n), n - 1, false);
        assert(cur_map == prev_map.insert((e.column, e.key@), e.op.view_op()));
        let before = col_after(m, prev_map, c);
        assert(entry_step(before, e, c) =~= col_after(m, cur_map, c));
    }
}

/// The whole change set applied entry by entry equals the change map applied
/// at once.
pub proof fn lemma_col_after_all(m: Map<Seq<u8>, Seq<u8>>, s: Seq<ChangeEntry>, c: PlainColumn)
    requires
        changes_unique(s),
    ensures
        col_after_entries(m, s, c, s.len() as int) =~= col_after(m, changes_map(s), c),
{
    lemma_col_after_entries(m, s, c, s.len() as int);
    assert(s.take(s.len() as int) =~= s);
}

/// Two sorted tables whose entries carry the same keys and values in the same
/// order denote the same map.
pub proof fn lemma_map_of_pointwise(s1: Seq<(Vec<u8>, Vec<u8>)>, s2: Seq<(Vec<u8>, Vec<u8>)>)
    requires
        s1.len() == s2.len(),
        crate::table::entries_sorted(s1),
        forall|i: int| 0 <= i < s1.len()
            ==> (#[trigger] s1[i]).0@ == (#[trigger] s2[i]).0@ && s1[i].1@ == s2[i].1@,
    ensures
        crate::table::entries_sorted(s2),
        map_of(s1) =~= map_of(s2),
{
    assert forall|i: int, j: int| 0 <= i < j < s2.len() implies
        lex_lt((#[trigger] s2[i]).0@, (#[trigger] s2[j]).0@) by {
        assert(lex_lt(s1[i].0@, s1[j].0@));
    }
    assert forall|k: Seq<u8>|
        crate::table::seq_has_key(s1, k) <==> crate::table::seq_has_key(s2, k) by {
        if crate::table::seq_has_key(s1, k) {
            let i = crate::table::seq_key_index(s1, k);
            assert(s2[i].0@ == k);
        }
        if crate::table::seq_has_key(s2, k) {
            let i = crate::table::seq_key_index(s2, k);
            assert(s1[i].0@ == k);
        }
    }
    assert forall|k: Seq<u8>| crate::table::seq_has_key(s1, k) implies
        map_of(s1)[k] == map_of(s2)[k] by {
        let i1 = crate::table::seq_key_index(s1, k);
        let i2 = crate::table::seq_key_index(s2, k);
        assert(s1[i2].0@ == k);
        assert(s2[i1].0@ == k);
        crate::table::lemma_key_index_unique(s1, i1, i2);
    }
    assert(map_of(s1) =~= map_of(s2));
}

/// The column-keyed in-memory backend: one sorted table per column.
pub struct MemoryStore {
    pub tables: Vec<Table>,
}

impl MemoryStore {
    pub open spec fn wf(self) -> bool {
        &&& self.tables@.len() == COLUMN_COUNT
        &&& forall|i: int| 0 <= i < self.tables@.len() ==> (#[trigger] self.tables@[i]).wf()
    }

    /// The table backing a column.
    pub open spec fn table_of(self, c: Column) -> Table {
        self.tables@[column_index_spec(c)]
    }

    /// The map a column holds.
    pub open spec fn col(self, c: Column) -> Map<Seq<u8>, Seq<u8>> {
        self.table_of(c)@
    }

    /// An empty store.
    pub fn new() -> (r: MemoryStore)
        ensures
            r.wf(),
            forall|c: Column| #[trigger] r.col(c) =~= Map::<Seq<u8>, Seq<u8>>::empty(),
    {
        let mut tables: Vec<Table> = Vec::new();
        let mut i: usize = 0;
        while i < COLUMN_COUNT
            invariant
                0 <= i <= COLUMN_COUNT,
                tables@.len() == i,
                forall|m: int| 0 <= m < i ==> (#[trigger] tables@[m]).wf(),
                forall|m: int| 0 <= m < i
                    ==> (#[trigger] tables@[m])@ =~= Map::<Seq<u8>, Seq<u8>>::empty(),
            decreases COLUMN_COUNT - i,
        {
            tables.push(Table::new());
            i = i + 1;
        }
        MemoryStore { tables }
    }

    /// Point lookup.
    pub fn get(&self, column: Column, key: &Vec<u8>) -> (r: Option<&Vec<u8>>)
        requires
            self.wf(),
        ensures
            match r {
                Some(v) => self.col(column).contains_key(key@)
                    && v@ == self.col(column)[key@],
                None => !self.col(column).contains_key(key@),
            },
    {
        let idx = column_index(column);
        self.tables[idx].get(key)
    }

    pub fn contains_key(&self, column: Column, key: &Vec<u8>) -> (r: bool)
        requires
            self.wf(),
        ensures
            r <==> self.col(column).contains_key(key@),
    {
        self.get(column, key).is_some()
    }

    /// Applies one operation to one column, leaving every other column alone.
    pub fn apply(&mut self, column: Column, key: Vec<u8>, op: WriteOperation)
        requires
            old(self).wf(),
        ensures
            final(self).wf(),
            final(self).col(column)
                =~= apply_op_to_map(old(self).col(column), key@, op.view_op()),
            forall|c2: Column| c2 != column
                ==> #[trigger] final(self).col(c2) == old(self).col(c2),
            forall|c2: Column| c2 != column
                ==> #[trigger] final(self).table_of(c2) == old(self).table_of(c2),
    {
        let idx = column_index(column);
        let mut t = self.tables.remove(idx);
        match op {
            WriteOperation::Insert(value) => {
                t.insert(key, value);
            },
            WriteOperation::Remove => {
                let _ = t.remove(&key);
            },
        }
        self.tables.insert(idx, t);
        proof {
            assert forall|c2: Column| c2 != column implies
                #[trigger] final(self).table_of(c2) == old(self).table_of(c2) by {
                if column_index_spec(c2) == column_index_spec(column) {
                    lemma_column_index_injective(c2, column);
                }
                assert(self.tables@[column_index_spec(c2)]
                    == old(self).tables@[column_index_spec(c2)]);
            }
        }
    }

    /// Writes one cell.
    pub fn put(&mut self, column: Column, key: Vec<u8>, value: Vec<u8>)
        requires
            old(self).wf(),
        ensures
            final(self).wf(),
            final(self).col(column) =~= old(self).col(column).insert(key@, value@),
            forall|c2: Column| c2 != column
                ==> #[trigger] final(self).col(c2) == old(self).col(c2),
    {
        self.apply(column, key, WriteOperation::Insert(value));
    }

    /// Deletes one cell.
    pub fn delete(&mut self, column: Column, key: &Vec<u8>)
        requires
            old(self).wf(),
        ensures
            final(self).wf(),
            final(self).col(column) =~= old(self).col(column).remove(key@),
            forall|c2: Column| c2 != column
                ==> #[trigger] final(self).col(c2) == old(self).col(c2),
    {
        let k = clone_bytes(key);
        self.apply(column, k, WriteOperation::Remove);
    }

    /// Reads and deletes one cell.
    pub fn take(&mut self, column: Column, key: &Vec<u8>) -> (r: Option<Vec<u8>>)
        requires
            old(self).wf(),
        ensures
            final(self).wf(),
            final(self).col(column) =~= old(self).col(column).remove(key@),
            forall|c2: Column| c2 != column
                ==> #[trigger] final(self).col(c2) == old(self).col(c2),
            match r {
                Some(v) => old(self).col(column).contains_key(key@)
                    && v@ == old(self).col(column)[key@],
                None => !old(self).col(column).contains_key(key@),
            },
    {
        let idx = column_index(column);
        let mut t = self.tables.remove(idx);
        let r = t.remove(key);
        self.tables.insert(idx, t);
        proof {
            assert forall|c2: Column| c2 != column implies
                #[trigger] final(self).col(c2) == old(self).col(c2) by {
                if column_index_spec(c2) == column_index_spec(column) {
                    lemma_column_index_injective(c2, column);
                }
                assert(self.tables@[column_index_spec(c2)]
                    == old(self).tables@[column_index_spec(c2)]);
            }
        }
        r
    }
}

/// Clones one table; keys and values are copied byte for byte.
pub fn clone_table(src: &Table) -> (r: Table)
    requires
        src.wf(),
    ensures
        r.wf(),
        r@ =~= src@,
{
    let n = src.entries.len();
    let mut entries: Vec<(Vec<u8>, Vec<u8>)> = Vec::new();
    let mut i: usize = 0;
    while i < n
        invariant
            0 <= i <= n,
            n == src.entries@.len(),
            src.wf(),
            entries@.len() == i,
            forall|m: int| 0 <= m < i
                ==> (#[trigger] entries@[m]).0@ == src.entries@[m].0@
                    && entries@[m].1@ == src.entries@[m].1@,
        decreases n - i,
    {
        let e = &src.entries[i];
        let k = clone_bytes(&e.0);
        let v = clone_bytes(&e.1);
        entries.push((k, v));
        i = i + 1;
    }
    proof {
        lemma_map_of_pointwise(src.entries@, entries@);
    }
    Table { entries }
}

/// The direction of a range scan.
#[derive(PartialEq, Eq, Structural, Clone, Copy, Debug)]
pub enum IterDirection {
    Forward,
    Reverse,
}

/// Does a key fall inside the requested scan range?
pub open spec fn key_in_range(
    k: Seq<u8>,
    prefix: Option<Seq<u8>>,
    start: Option<Seq<u8>>,
    direction: IterDirection,
) -> bool {
    &&& match prefix {
        Some(p) => k.len() >= p.len() && k.take(p.len() as int) == p,
        None => true,
    }
    &&& match start {
        Some(st) => match direction {
            IterDirection::Forward => !lex_lt(k, st),
            IterDirection::Reverse => !lex_lt(st, k),
        },
        None => true,
    }
}

/// The first `n` entries of a table, kept when they fall in the range, in
/// stored order.
pub open spec fn range_entries(
    s: Seq<(Vec<u8>, Vec<u8>)>,
    prefix: Option<Seq<u8>>,
    start: Option<Seq<u8>>,
    direction: IterDirection,
    n: int,
) -> Seq<(Seq<u8>, Seq<u8>)>
    decreases n,
{
    if n <= 0 {
        Seq::empty()
    } else {
        let rest = range_entries(s, prefix, start, direction, n - 1);
        if key_in_range(s[n - 1].0@, prefix, start, direction) {
            rest.push((s[n - 1].0@, s[n - 1].1@))
        } else {
            rest
        }
    }
}

impl MemoryStore {
    /// A consistent read-only copy of the whole store, as `latest_view`
    /// hands out: every column is copied under one critical section.
    pub fn snapshot(&self) -> (r: MemoryStore)
        requires
            self.wf(),
        ensures
            r.wf(),
            forall|c: Column| #[trigger] r.col(c) == self.col(c),
    {
        let n = self.tables.len();
        let mut tables: Vec<Table> = Vec::new();
        let mut i: usize = 0;
        while i < n
            invariant
                0 <= i <= n,
                n == self.tables@.len(),
                self.wf(),
                tables@.len() == i,
                forall|m: int| 0 <= m < i ==> (#[trigger] tables@[m]).wf(),
                forall|m: int| 0 <= m < i ==> (#[trigger] tables@[m])@ == self.tables@[m]@,
            decreases n - i,
        {
            let t = clone_table(&self.tables[i]);
            tables.push(t);
            i = i + 1;
        }
        MemoryStore { tables }
    }

    /// Applies every entry of one change set to the original columns.
    fn apply_changes(&mut self, changes: Changes)
        requires
            old(self).wf(),
            changes.wf(),
        ensures
            final(self).wf(),
            forall|p: PlainColumn| #[trigger] final(self).col(Column::Original(p))
                =~= col_after(old(self).col(Column::Original(p)), changes@, p),
            forall|p: PlainColumn| #[trigger] final(self).col(Column::HistoricalDuplicate(p))
                == old(self).col(Column::HistoricalDuplicate(p)),
    {
        let ghost all = changes.entries@;
        let mut rest = changes;
        let ghost done: int = 0;
        let mut processed: usize = 0;
        let total = rest.entries.len();
        while processed < total
            invariant
                0 <= processed <= total,
                total == all.len(),
                rest.entries@ == all.skip(processed as int),
                changes_unique(all),
                self.wf(),
                forall|p: PlainColumn| #[trigger] self.col(Column::Original(p))
                    == col_after_entries(
                        old(self).col(Column::Original(p)), all, p, processed as int),
                forall|p: PlainColumn| #[trigger] self.col(Column::HistoricalDuplicate(p))
                    == old(self).col(Column::HistoricalDuplicate(p)),
            decreases total - processed,
        {
            let e = rest.entries.remove(0);
            proof {
                assert(all.skip(processed as int)[0] == all[processed as int]);
                assert(rest.entries@ =~= all.skip(processed + 1));
            }
            let ghost before = self.col(Column::Original(e.column));
            self.apply(Column::Original(e.column), e.key, e.op);
            proof {
                assert forall|p: PlainColumn| #[trigger] self.col(Column::Original(p))
                    == col_after_entries(
                        old(self).col(Column::Original(p)), all, p, processed + 1) by {
                    let e0 = all[processed as int];
                    if p == e0.column {
                        assert(self.col(Column::Original(p))
                            =~= entry_step(before, e0, p));
                        assert(self.col(Column::Original(p))
                            =~= col_after_entries(
                                old(self).col(Column::Original(p)), all, p, processed + 1));
                    } else {
                        assert(Column::Original(p) != Column::Original(e0.column));
                    }
                }
            }
            processed = processed + 1;
        }
        proof {
            assert(all.skip(total as int) =~= Seq::<ChangeEntry>::empty());
            assert forall|p: PlainColumn| #[trigger] self.col(Column::Original(p))
                =~= col_after(old(self).col(Column::Original(p)), changes@, p) by {
                lemma_col_after_all(old(self).col(Column::Original(p)), all, p);
            }
        }
    }
}

/// Change sets pairwise touch no common cell.
pub open spec fn list_disjoint(l: Seq<Changes>) -> bool {
    forall|i: int, j: int|
        0 <= i < j < l.len()
            ==> (#[trigger] l[i])@.dom().disjoint((#[trigger] l[j])@.dom())
}

/// All change sets of a list, merged; later sets win, though commits demand
/// disjointness.
pub open spec fn list_merged(l: Seq<Changes>) -> Map<(PlainColumn, Seq<u8>), WriteOp>
    decreases l.len(),
{
    if l.len() == 0 {
        Map::empty()
    } else {
        list_merged(l.drop_last()).union_prefer_right(l.last()@)
    }
}

/// The input of a commit: one change set, or several that the backend must
/// check against one another.
pub enum StorageChanges {
    Changes(Changes),
    ChangesList(Vec<Changes>),
}

impl StorageChanges {
    pub open spec fn wf(self) -> bool {
        match self {
            StorageChanges::Changes(c) => c.wf(),
            StorageChanges::ChangesList(l) => forall|i: int|
                0 <= i < l@.len() ==> (#[trigger] l@[i]).wf(),
        }
    }

    /// Everything this commit writes, as one map.
    pub open spec fn merged(self) -> Map<(PlainColumn, Seq<u8>), WriteOp> {
        match self {
            StorageChanges::Changes(c) => c@,
            StorageChanges::ChangesList(l) => list_merged(l@),
        }
    }

    /// Does the commit pass the cross-batch uniqueness check?
    pub open spec fn conflict_free(self) -> bool {
        match self {
            StorageChanges::Changes(c) => true,
            StorageChanges::ChangesList(l) => list_disjoint(l@),
        }
    }
}

impl MemoryStore {
    /// Merges the second change set into the first; any shared cell is a
    /// conflict and aborts the merge.
    pub(crate) fn merge_into(dst: &mut Changes, src: Changes) -> (r: Result<(), StorageError>)
        requires
            old(dst).wf(),
            src.wf(),
        ensures
            final(dst).wf(),
            match r {
                Ok(()) => old(dst)@.dom().disjoint(src@.dom())
                    && final(dst)@ =~= old(dst)@.union_prefer_right(src@),
                Err(e) => !old(dst)@.dom().disjoint(src@.dom())
                    && e is ConflictingChanges,
            },
    {
        let ghost all = src.entries@;
        let mut rest = src;
        let mut processed: usize = 0;
        let total = rest.entries.len();
        while processed < total
            invariant
                0 <= processed <= total,
                total == all.len(),
                all == src.entries@,
                src.wf(),
                rest.entries@ == all.skip(processed as int),
                changes_unique(all),
                dst.wf(),
                old(dst).wf(),
                dst@ =~= old(dst)@.union_prefer_right(changes_map(all.take(processed as int))),
                old(dst)@.dom().disjoint(changes_map(all.take(processed as int)).dom()),
            decreases total - processed,
        {
            let e = rest.entries.remove(0);
            proof {
                assert(all.skip(processed as int)[0] == all[processed as int]);
                assert(rest.entries@ =~= all.skip(processed + 1));
            }
            let ghost e0 = all[processed as int];
            let present = match dst.get(e.column, &e.key) {
                Some(_) => true,
                None => false,
            };
            if present {
                proof {
                    assert(changes_unique(all.take(processed as int + 1))) by {
                        assert forall|p: int, q: int| 0 <= p < q < processed + 1 implies
                            !((#[trigger] all.take(processed as int + 1)[p]).column
                                == (#[trigger] all.take(processed as int + 1)[q]).column
                                && all.take(processed as int + 1)[p].key@
                                    == all.take(processed as int + 1)[q].key@) by {
                            assert(all[p] == all.take(processed as int + 1)[p]);
                            assert(all[q] == all.take(processed as int + 1)[q]);
                        }
                    }
                    assert(changes_map(all).contains_key((e0.column, e0.key@))) by {
                        lemma_changes_map_entry(all, processed as int);
                    }
                    assert(old(dst)@.contains_key((e0.column, e0.key@))) by {
                        if changes_map(all.take(processed as int))
                            .contains_key((e0.column, e0.key@)) {
                            let w = changes_at(all.take(processed as int), e0.column, e0.key@);
                            assert(all[w] == all.take(processed as int)[w]);
                        }
                    }
                    assert(!old(dst)@.dom().disjoint(src@.dom())) by {
                        assert(old(dst)@.dom().contains((e0.column, e0.key@)));
                        assert(src@.dom().contains((e0.column, e0.key@)));
                    }
                }
                return Err(StorageError::ConflictingChanges { column: e.column, key: e.key });
            }
            proof {
                assert(!changes_has(all.take(processed as int), e0.column, e0.key@)) by {
                    if changes_has(all.take(processed as int), e0.column, e0.key@) {
                        let w = changes_at(all.take(processed as int), e0.column, e0.key@);
                        assert(all[w] == all.take(processed as int)[w]);
                        lemma_changes_at_unique(all, w, processed as int);
                    }
                }
                lemma_changes_splice(
                    all.take(processed as int),
                    all.take(processed as int + 1),
                    processed as int,
                    false,
                );
            }
            dst.set(e.column, e.key, e.op);
            processed = processed + 1;
        }
        proof {
            assert(all.take(total as int) =~= all);
        }
        Ok(())
    }

    /// Applies a commit atomically: on a conflict between the change sets of
    /// a list nothing is written, else every operation is.
    pub fn commit_changes(&mut self, changes: StorageChanges) -> (r: Result<(), StorageError>)
        requires
            old(self).wf(),
            changes.wf(),
        ensures
            final(self).wf(),
            match r {
                Ok(()) => changes.conflict_free()
                    && (forall|p: PlainColumn| #[trigger] final(self).col(Column::Original(p))
                        =~= col_after(old(self).col(Column::Original(p)), changes.merged(), p))
                    && (forall|p: PlainColumn|
                        #[trigger] final(self).col(Column::HistoricalDuplicate(p))
                            == old(self).col(Column::HistoricalDuplicate(p))),
                Err(e) => !changes.conflict_free() && e is ConflictingChanges
                    && forall|c: Column| #[trigger] final(self).col(c) == old(self).col(c),
            },
    {
        match changes {
            StorageChanges::Changes(ch) => {
                self.apply_changes(ch);
                Ok(())
            },
            StorageChanges::ChangesList(list) => {
                let ghost all = list@;
                let mut rest = list;
                let mut merged = Changes::new();
                let mut processed: usize = 0;
                let total = rest.len();
                while processed < total
                    invariant
                        0 <= processed <= total,
                        total == all.len(),
                        *self == *old(self),
                        old(self).wf(),
                        changes == StorageChanges::ChangesList(list),
                        all == list@,
                        rest@ == all.skip(processed as int),
                        forall|i: int| 0 <= i < all.len() ==> (#[trigger] all[i]).wf(),
                        merged.wf(),
                        merged@ =~= list_merged(all.take(processed as int)),
                        list_disjoint(all.take(processed as int)),
                        forall|j: int| 0 <= j < processed
                            ==> (#[trigger] all[j])@.dom() <= merged@.dom(),
                    decreases total - processed,
                {
                    let set = rest.remove(0);
                    proof {
                        assert(all.skip(processed as int)[0] == all[processed as int]);
                        assert(rest@ =~= all.skip(processed + 1));
                    }
                    let ghost merged_before = merged@;
                    match Self::merge_into(&mut merged, set) {
                        Ok(()) => {},
                        Err(e) => {
                            proof {
                                let s0 = all[processed as int];
                                let p2 = choose|p2: (PlainColumn, Seq<u8>)|
                                    merged_before.dom().contains(p2)
                                        && s0@.dom().contains(p2);
                                assert(merged_before.dom().contains(p2)
                                    && s0@.dom().contains(p2));
                                assert(list_merged(
                                    all.take(processed as int)).contains_key(p2));
                                lemma_list_merged_source(all.take(processed as int), p2);
                                let j = choose|j: int| 0 <= j < processed
                                    && (#[trigger] all.take(processed as int)[j])@
                                        .dom().contains(p2);
                                assert(all[j] == all.take(processed as int)[j]);
                                assert(!(all[j]@.dom().disjoint(
                                    all[processed as int]@.dom())));
                                assert(!list_disjoint(all));
                            }
                            return Err(e);
                        },
                    }
                    proof {
                        assert(all.take(processed + 1).drop_last()
                            =~= all.take(processed as int));
                        assert(all.take(processed + 1).last() == all[processed as int]);
                        assert(merged@ =~= list_merged(all.take(processed + 1)));
                        assert(list_disjoint(all.take(processed + 1))) by {
                            assert forall|i: int, j: int| 0 <= i < j < processed + 1 implies
                                (#[trigger] all.take(processed + 1)[i])@.dom().disjoint(
                                    (#[trigger] all.take(processed + 1)[j])@.dom()) by {
                                assert(all.take(processed + 1)[i] == all[i]);
                                assert(all.take(processed + 1)[j] == all[j]);
                                if j < processed {
                                    assert(all.take(processed as int)[i] == all[i]);
                                    assert(all.take(processed as int)[j] == all[j]);
                                } else {
                                    assert(all[i]@.dom() <= merged_before.dom());
                                    assert(merged_before.dom().disjoint(
                                        all[processed as int]@.dom()));
                                }
                            }
                        }
                        assert forall|j: int| 0 <= j < processed + 1 implies
                            (#[trigger] all[j])@.dom() <= merged@.dom() by {
                            if j < processed {
                                assert(all[j]@.dom() <= merged_before.dom());
                                assert(merged@ == merged_before.union_prefer_right(
                                    all[processed as int]@));
                            }
                        }
                    }
                    processed = processed + 1;
                }
                proof {
                    assert(all.take(total as int) =~= all);
                }
                self.apply_changes(merged);
                Ok(())
            },
        }
    }
}

/// Every cell of a merged list comes from one of its change sets.
pub proof fn lemma_list_merged_source(l: Seq<Changes>, p: (PlainColumn, Seq<u8>))
    requires
        list_merged(l).contains_key(p),
    ensures
        exists|j: int| 0 <= j < l.len() && (#[trigger] l[j])@.dom().contains(p),
    decreases l.len(),
{
    if l.len() > 0 {
        if l.last()@.contains_key(p) {
            assert(l[l.len() - 1]@.dom().contains(p));
        } else {
            lemma_list_merged_source(l.drop_last(), p);
            let j = choose|j: int| 0 <= j < l.len() - 1
                && (#[trigger] l.drop_last()[j])@.dom().contains(p);
            assert(l[j]@.dom().contains(p));
        }
    }
}

/// Merges the second change set into the first; on a shared cell the second
/// set's operation wins.
pub(crate) fn merge_overwrite(dst: &mut Changes, src: Changes)
    requires
        old(dst).wf(),
        src.wf(),
    ensures
        final(dst).wf(),
        final(dst)@ =~= old(dst)@.union_prefer_right(src@),
{
    let ghost all = src.entries@;
    let mut rest = src;
    let mut processed: usize = 0;
    let total = rest.entries.len();
    while processed < total
        invariant
            0 <= processed <= total,
            total == all.len(),
            all == src.entries@,
            src.wf(),
            rest.entries@ == all.skip(processed as int),
            changes_unique(all),
            dst.wf(),
            dst@ =~= old(dst)@.union_prefer_right(changes_map(all.take(processed as int))),
        decreases total - processed,
    {
        let e = rest.entries.remove(0);
        proof {
            assert(all.skip(processed as int)[0] == all[processed as int]);
            assert(rest.entries@ =~= all.skip(processed + 1));
            let ghost e0 = all[processed as int];
            assert(!changes_has(all.take(processed as int), e0.column, e0.key@)) by {
                if changes_has(all.take(processed as int), e0.column, e0.key@) {
                    let w = changes_at(all.take(processed as int), e0.column, e0.key@);
                    assert(all[w] == all.take(processed as int)[w]);
                    lemma_changes_at_unique(all, w, processed as int);
                }
            }
            lemma_changes_splice(
                all.take(processed as int),
                all.take(processed as int + 1),
                processed as int,
                false,
            );
        }
        dst.set(e.column, e.key, e.op);
        processed = processed + 1;
    }
    proof {
        assert(all.take(total as int) =~= all);
    }
}

impl MemoryStore {
    /// Every entry of a column that falls in the requested range, in the
    /// direction asked for. `prefix` filters; `start` only positions the scan.
    pub fn iter_all(
        &self,
        column: Column,
        prefix: Option<&Vec<u8>>,
        start: Option<&Vec<u8>>,
        direction: IterDirection,
    ) -> (r: Vec<(Vec<u8>, Vec<u8>)>)
        requires
            self.wf(),
        ensures
            ({
                let entries = self.table_of(column).entries@;
                let kept = range_entries(
                    entries,
                    match prefix { Some(p) => Some(p@), None => None },
                    match start { Some(st) => Some(st@), None => None },
                    direction,
                    entries.len() as int,
                );
                let ordered = if direction == IterDirection::Forward {
                    kept
                } else {
                    kept.reverse()
                };
                r@.len() == ordered.len()
                    && forall|i: int| 0 <= i < r@.len()
                        ==> (#[trigger] r@[i]).0@ == ordered[i].0
                            && r@[i].1@ == ordered[i].1
            }),
    {
        let ghost prefix_spec: Option<Seq<u8>> = match prefix {
            Some(p) => Some(p@),
            None => None,
        };
        let ghost start_spec: Option<Seq<u8>> = match start {
            Some(st) => Some(st@),
            None => None,
        };
        let idx = column_index(column);
        let t = &self.tables[idx];
        let n = t.entries.len();
        let mut kept: Vec<(Vec<u8>, Vec<u8>)> = Vec::new();
        let mut i: usize = 0;
        while i < n
            invariant
                0 <= i <= n,
                n == t.entries@.len(),
                t.wf(),
                t == self.tables@[column_index_spec(column)],
                self.wf(),
                prefix_spec == (match prefix { Some(p) => Some(p@), None => None::<Seq<u8>> }),
                start_spec == (match start { Some(st) => Some(st@), None => None::<Seq<u8>> }),
                ({
                    let f = range_entries(
                        t.entries@, prefix_spec, start_spec, direction, i as int);
                    kept@.len() == f.len()
                        && forall|m: int| 0 <= m < kept@.len()
                            ==> (#[trigger] kept@[m]).0@ == f[m].0
                                && kept@[m].1@ == f[m].1
                }),
            decreases n - i,
        {
            let e = &t.entries[i];
            let mut in_range = true;
            match prefix {
                Some(p) => {
                    if !starts_with(&e.0, p) {
                        in_range = false;
                    }
                },
                None => {},
            }
            if in_range {
                match start {
                    Some(st) => {
                        match direction {
                            IterDirection::Forward => {
                                match bytes_cmp(&e.0, st) {
                                    KeyCmp::Less => {
                                        in_range = false;
                                    },
                                    _ => {},
                                }
                            },
                            IterDirection::Reverse => {
                                match bytes_cmp(st, &e.0) {
                                    KeyCmp::Less => {
                                        in_range = false;
                                    },
                                    _ => {},
                                }
                            },
                        }
                    },
                    None => {},
                }
            }
            proof {
                assert(in_range == key_in_range(
                    t.entries@[i as int].0@, prefix_spec, start_spec, direction));
            }
            if in_range {
                let k = clone_bytes(&e.0);
                let v = clone_bytes(&e.1);
                kept.push((k, v));
            }
            i = i + 1;
        }
        if matches!(direction, IterDirection::Forward) {
            kept
        } else {
            let ghost kept_view = kept@;
            let mut rev: Vec<(Vec<u8>, Vec<u8>)> = Vec::new();
            let mut remaining = kept;
            while remaining.len() > 0
                invariant
                    remaining@.len() + rev@.len() == kept_view.len(),
                    remaining@ == kept_view.take(remaining@.len() as int),
                    forall|m: int| 0 <= m < rev@.len()
                        ==> (#[trigger] rev@[m]) == kept_view[kept_view.len() - 1 - m],
                decreases remaining@.len(),
            {
                let e = remaining.pop().unwrap();
                proof {
                    assert(kept_view.take(remaining@.len() as int + 1).last()
                        == kept_view[remaining@.len() as int]);
                    assert(kept_view.take(remaining@.len() as int + 1).drop_last()
                        =~= kept_view.take(remaining@.len() as int));
                }
                rev.push(e);
            }
            proof {
                let entries = self.table_of(column).entries@;
                let kept_spec = range_entries(
                    entries, prefix_spec, start_spec, direction, entries.len() as int);
                assert forall|m: int| 0 <= m < rev@.len() implies
                    (#[trigger] rev@[m]).0@ == kept_spec.reverse()[m].0
                        && rev@[m].1@ == kept_spec.reverse()[m].1 by {
                    assert(rev@[m] == kept_view[kept_view.len() - 1 - m]);
                    assert(kept_spec.reverse()[m]
                        == kept_spec[kept_spec.len() - 1 - m]);
                }
            }
            rev
        }
    }

    /// The keys `iter_all` would yield.
    pub fn iter_all_keys(
        &self,
        column: Column,
        prefix: Option<&Vec<u8>>,
        start: Option<&Vec<u8>>,
        direction: IterDirection,
    ) -> (r: Vec<Vec<u8>>)
        requires
            self.wf(),
        ensures
            ({
                let entries = self.table_of(column).entries@;
                let kept = range_entries(
                    entries,
                    match prefix { Some(p) => Some(p@), None => None },
                    match start { Some(st) => Some(st@), None => None },
                    direction,
                    entries.len() as int,
                );
                let ordered = if direction == IterDirection::Forward {
                    kept
                } else {
                    kept.reverse()
                };
                r@.len() == ordered.len()
                    && forall|i: int| 0 <= i < r@.len()
                        ==> (#[trigger] r@[i])@ == ordered[i].0
            }),
    {
        let pairs = self.iter_all(column, prefix, start, direction);
        let ghost pairs_view = pairs@;
        let mut keys: Vec<Vec<u8>> = Vec::new();
        let mut remaining = pairs;
        let mut taken: usize = 0;
        let total = remaining.len();
        while taken < total
            invariant
                0 <= taken <= total,
                total == pairs_view.len(),
                remaining@ == pairs_view.skip(taken as int),
                keys@.len() == taken,
                forall|m: int| 0 <= m < taken
                    ==> (#[trigger] keys@[m])@ == pairs_view[m].0@,
            decreases total - taken,
        {
            let e = remaining.remove(0);
            proof {
                assert(pairs_view.skip(taken as int)[0] == pairs_view[taken as int]);
                assert(remaining@ =~= pairs_view.skip(taken + 1));
            }
            keys.push(e.0);
            taken = taken + 1;
        }
        keys
    }
}

} // verus!
