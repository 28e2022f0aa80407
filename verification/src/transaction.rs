//! A storage transaction: a buffered write set over a read-only view of the
//! backend. Reads resolve buffer first; writes only touch the buffer until
//! the materialised change set is committed.

use vstd::prelude::*;
use crate::kv::{
    merge_overwrite, Changes, Column, MemoryStore, PlainColumn, StorageError, WriteOp,
    WriteOperation,
};
use crate::order::clone_bytes;

verus! {

/// What happens when a foreign change set touches a cell this transaction
/// already buffered.
#[derive(PartialEq, Eq, Structural, Clone, Copy, Debug)]
pub enum ConflictPolicy {
    /// The merge fails with `ConflictingChanges`.
    Fail,
    /// The later write wins.
    Overwrite,
}

/// A buffered write set over a consistent snapshot of the backend.
pub struct StorageTransaction {
    pub base: MemoryStore,
    pub changes: Changes,
    pub policy: ConflictPolicy,
}

impl StorageTransaction {
    pub open spec fn wf(self) -> bool {
        &&& self.base.wf()
        &&& self.changes.wf()
    }

    /// What a read of a cell returns: the buffered operation if there is one,
    /// else the snapshot.
    pub open spec fn resolves(self, c: PlainColumn, k: Seq<u8>) -> Option<Seq<u8>> {
        if self.changes@.contains_key((c, k)) {
            match self.changes@[(c, k)] {
                WriteOp::Insert(v) => Some(v),
                WriteOp::Remove => None,
            }
        } else if self.base.col(Column::Original(c)).contains_key(k) {
            Some(self.base.col(Column::Original(c))[k])
        } else {
            None
        }
    }

    /// Opens a transaction over a snapshot.
    pub fn new(base: MemoryStore, policy: ConflictPolicy) -> (r: StorageTransaction)
        requires
            base.wf(),
        ensures
            r.wf(),
            r.base == base,
            r.policy == policy,
            r.changes@ =~= Map::<(PlainColumn, Seq<u8>), WriteOp>::empty(),
    {
        StorageTransaction { base, changes: Changes::new(), policy }
    }

    /// Buffer-first point lookup.
    pub fn get(&self, column: PlainColumn, key: &Vec<u8>) -> (r: Option<Vec<u8>>)
        requires
            self.wf(),
        ensures
            match r {
                Some(v) => self.resolves(column, key@) == Some(v@),
                None => self.resolves(column, key@) is None,
            },
    {
        match self.changes.get(column, key) {
            Some(op) => match op {
                WriteOperation::Insert(v) => Some(clone_bytes(v)),
                WriteOperation::Remove => None,
            },
            None => match self.base.get(Column::Original(column), key) {
                Some(v) => Some(clone_bytes(v)),
                None => None,
            },
        }
    }

    /// Buffer-first presence test.
    pub fn contains_key(&self, column: PlainColumn, key: &Vec<u8>) -> (r: bool)
        requires
            self.wf(),
        ensures
            r <==> self.resolves(column, key@) is Some,
    {
        match self.changes.get(column, key) {
            Some(op) => match op {
                WriteOperation::Insert(_) => true,
                WriteOperation::Remove => false,
            },
            None => self.base.contains_key(Column::Original(column), key),
        }
    }

    /// Buffers a write.
    pub fn put(&mut self, column: PlainColumn, key: Vec<u8>, value: Vec<u8>)
        requires
            old(self).wf(),
        ensures
            final(self).wf(),
            final(self).base == old(self).base,
            final(self).policy == old(self).policy,
            final(self).changes@
                =~= old(self).changes@.insert((column, key@), WriteOp::Insert(value@)),
    {
        self.changes.set(column, key, WriteOperation::Insert(value));
    }

    /// Buffers a deletion.
    pub fn delete(&mut self, column: PlainColumn, key: Vec<u8>)
        requires
            old(self).wf(),
        ensures
            final(self).wf(),
            final(self).base == old(self).base,
            final(self).policy == old(self).policy,
            final(self).changes@
                =~= old(self).changes@.insert((column, key@), WriteOp::Remove),
    {
        self.changes.set(column, key, WriteOperation::Remove);
    }

    /// Buffers a write and hands back what a read would have seen before it.
    pub fn replace(&mut self, column: PlainColumn, key: Vec<u8>, value: Vec<u8>) -> (r: Option<
        Vec<u8>,
    >)
        requires
            old(self).wf(),
        ensures
            final(self).wf(),
            final(self).base == old(self).base,
            final(self).policy == old(self).policy,
            final(self).changes@
                =~= old(self).changes@.insert((column, key@), WriteOp::Insert(value@)),
            match r {
                Some(v) => old(self).resolves(column, key@) == Some(v@),
                None => old(self).resolves(column, key@) is None,
            },
    {
        let prev = self.get(column, &key);
        self.changes.set(column, key, WriteOperation::Insert(value));
        prev
    }

    /// Buffers a deletion and hands back what a read would have seen.
    pub fn take(&mut self, column: PlainColumn, key: Vec<u8>) -> (r: Option<Vec<u8>>)
        requires
            old(self).wf(),
        ensures
            final(self).wf(),
            final(self).base == old(self).base,
            final(self).policy == old(self).policy,
            final(self).changes@
                =~= old(self).changes@.insert((column, key@), WriteOp::Remove),
            match r {
                Some(v) => old(self).resolves(column, key@) == Some(v@),
                None => old(self).resolves(column, key@) is None,
            },
    {
        let prev = self.get(column, &key);
        self.changes.set(column, key, WriteOperation::Remove);
        prev
    }

    /// Materialises the buffer as a change set.
    pub fn into_changes(self) -> (r: Changes)
        requires
            self.wf(),
        ensures
            r.wf(),
            r@ == self.changes@,
    {
        self.changes
    }

    /// Merges a foreign change set into the buffer under the active policy.
    /// Under `Fail` a shared cell is a `ConflictingChanges` error; under
    /// `Overwrite` the foreign write wins.
    pub fn commit_changes(&mut self, other: Changes) -> (r: Result<(), StorageError>)
        requires
            old(self).wf(),
            other.wf(),
        ensures
            final(self).wf(),
            final(self).base == old(self).base,
            final(self).policy == old(self).policy,
            match r {
                Ok(()) => final(self).changes@
                    =~= old(self).changes@.union_prefer_right(other@)
                    && (old(self).policy == ConflictPolicy::Fail
                        ==> old(self).changes@.dom().disjoint(other@.dom())),
                Err(e) => old(self).policy == ConflictPolicy::Fail
                    && !old(self).changes@.dom().disjoint(other@.dom())
                    && e is ConflictingChanges,
            },
    {
        match self.policy {
            ConflictPolicy::Overwrite => {
                merge_overwrite(&mut self.changes, other);
                Ok(())
            },
            ConflictPolicy::Fail => {
                match MemoryStore::merge_into(&mut self.changes, other) {
                    Ok(()) => Ok(()),
                    Err(e) => Err(e),
                }
            },
        }
    }
}

impl MemoryStore {
    /// Opens a transaction over a consistent snapshot of this store.
    pub fn read_transaction(&self, policy: ConflictPolicy) -> (r: StorageTransaction)
        requires
            self.wf(),
        ensures
            r.wf(),
            r.policy == policy,
            r.changes@ =~= Map::<(PlainColumn, Seq<u8>), WriteOp>::empty(),
            forall|c: Column| #[trigger] r.base.col(c) == self.col(c),
    {
        StorageTransaction::new(self.snapshot(), policy)
    }
}

} // verus!
