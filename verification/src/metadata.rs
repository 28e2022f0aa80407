//! The single-cell metadata table: the store's format version, its latest
//! height, and which indexation kinds it maintains.

use vstd::prelude::*;
use crate::kv::{Column, MemoryStore, PlainColumn, StorageError};
use crate::order::{be8, be_val, dec_be8, enc_be8};

verus! {

/// The marker of the metadata cell's table.
pub struct MetadataTable;

/// An index the store may maintain beside the chain state.
#[derive(PartialEq, Eq, Structural, Clone, Copy, Debug)]
pub enum IndexationKind {
    Balances,
    CoinsToSpend,
    AssetMetadata,
}

pub open spec fn indexation_bit(kind: IndexationKind) -> u64 {
    match kind {
        IndexationKind::Balances => 1,
        IndexationKind::CoinsToSpend => 2,
        IndexationKind::AssetMetadata => 4,
    }
}

/// What the metadata cell holds.
#[derive(PartialEq, Eq, Structural, Clone, Copy, Debug)]
pub struct DatabaseMetadata {
    pub version: u32,
    pub height: u64,
    pub indexation: u64,
}

/// The cell's byte encoding: three big-endian eight-byte fields.
pub open spec fn enc_metadata_spec(m: DatabaseMetadata) -> Seq<u8> {
    be8(m.version as u64) + be8(m.height) + be8(m.indexation)
}

pub open spec fn dec_metadata_spec(s: Seq<u8>) -> Option<DatabaseMetadata> {
    if s.len() == 24 && be_val(s.take(8)) <= u32::MAX {
        Some(DatabaseMetadata {
            version: be_val(s.take(8)) as u32,
            height: be_val(s.skip(8).take(8)) as u64,
            indexation: be_val(s.skip(16)) as u64,
        })
    } else {
        None
    }
}

/// Encodes the metadata cell.
pub fn enc_metadata(m: &DatabaseMetadata) -> (r: Vec<u8>)
    ensures
        r@ == enc_metadata_spec(*m),
{
    let mut r = enc_be8(m.version as u64);
    let mid = enc_be8(m.height);
    let tail = enc_be8(m.indexation);
    let combined = crate::order::concat_bytes(&r, &mid);
    let out = crate::order::concat_bytes(&combined, &tail);
    proof {
        assert(out@ =~= enc_metadata_spec(*m));
    }
    out
}

/// Decodes the metadata cell.
pub fn dec_metadata(s: &Vec<u8>) -> (r: Option<DatabaseMetadata>)
    ensures
        r == dec_metadata_spec(s@),
{
    if s.len() != 24 {
        return None;
    }
    let mut head: Vec<u8> = Vec::new();
    let mut mid: Vec<u8> = Vec::new();
    let mut tail: Vec<u8> = Vec::new();
    let mut i: usize = 0;
    while i < 8
        invariant
            0 <= i <= 8,
            s@.len() == 24,
            head@ == s@.take(8).take(i as int),
        decreases 8 - i,
    {
        head.push(s[i]);
        proof {
            assert(s@.take(8)[i as int] == s@[i as int]);
            assert(head@ =~= s@.take(8).take(i + 1));
        }
        i = i + 1;
    }
    let mut j: usize = 8;
    while j < 16
        invariant
            8 <= j <= 16,
            s@.len() == 24,
            mid@ == s@.skip(8).take(8).take(j - 8),
        decreases 16 - j,
    {
        mid.push(s[j]);
        proof {
            assert(s@.skip(8).take(8)[j - 8] == s@[j as int]);
            assert(mid@ =~= s@.skip(8).take(8).take(j - 8 + 1));
        }
        j = j + 1;
    }
    let mut k: usize = 16;
    while k < 24
        invariant
            16 <= k <= 24,
            s@.len() == 24,
            tail@ == s@.skip(16).take(k - 16),
        decreases 24 - k,
    {
        tail.push(s[k]);
        proof {
            assert(s@.skip(16)[k - 16] == s@[k as int]);
            assert(tail@ =~= s@.skip(16).take(k - 16 + 1));
        }
        k = k + 1;
    }
    proof {
        assert(head@ =~= s@.take(8));
        assert(mid@ =~= s@.skip(8).take(8));
        assert(tail@ =~= s@.skip(16));
        crate::order::lemma_be_val_bound(s@.skip(16));
        crate::order::lemma_be_val_bound(s@.skip(8).take(8));
        reveal(vstd::arithmetic::power::pow);
        crate::historical::lemma_u64_fits_eight_bytes();
    }
    let version_wide = dec_be8(&head);
    if version_wide > 4294967295 {
        return None;
    }
    let height = dec_be8(&mid);
    let indexation = dec_be8(&tail);
    Some(DatabaseMetadata { version: version_wide as u32, height, indexation })
}

/// Encoding and decoding the metadata cell are inverse.
pub proof fn lemma_metadata_round_trip(m: DatabaseMetadata)
    ensures
        dec_metadata_spec(enc_metadata_spec(m)) == Some(m),
{
    let s = enc_metadata_spec(m);
    crate::order::lemma_be_bytes_len(m.version as nat, 8);
    crate::order::lemma_be_bytes_len(m.height as nat, 8);
    crate::order::lemma_be_bytes_len(m.indexation as nat, 8);
    assert(s.take(8) =~= be8(m.version as u64));
    assert(s.skip(8).take(8) =~= be8(m.height));
    assert(s.skip(16) =~= be8(m.indexation));
    reveal(vstd::arithmetic::power::pow);
    crate::historical::lemma_u64_fits_eight_bytes();
    crate::order::lemma_be_val_of_be_bytes(m.version as nat, 8);
    crate::order::lemma_be_val_of_be_bytes(m.height as nat, 8);
    crate::order::lemma_be_val_of_be_bytes(m.indexation as nat, 8);
}

/// A store together with the format version this build expects of it.
pub struct Database {
    pub store: MemoryStore,
    pub expected_version: u32,
}

impl Database {
    pub open spec fn wf(self) -> bool {
        self.store.wf()
    }

    /// The decoded metadata cell, if one is stored and well formed.
    pub open spec fn metadata_spec(self) -> Option<DatabaseMetadata> {
        let col = self.store.col(Column::Original(PlainColumn::Metadata));
        if col.contains_key(Seq::empty()) {
            dec_metadata_spec(col[Seq::empty()])
        } else {
            None
        }
    }

    /// Writes the metadata cell.
    pub fn write_metadata(&mut self, m: &DatabaseMetadata)
        requires
            old(self).wf(),
        ensures
            final(self).wf(),
            final(self).expected_version == old(self).expected_version,
            final(self).metadata_spec() == Some(*m),
    {
        let key: Vec<u8> = Vec::new();
        let value = enc_metadata(m);
        self.store.put(Column::Original(PlainColumn::Metadata), key, value);
        proof {
            lemma_metadata_round_trip(*m);
        }
    }

    /// Is the metadata cell present but not decodable?
    pub open spec fn metadata_malformed(self) -> bool {
        let col = self.store.col(Column::Original(PlainColumn::Metadata));
        col.contains_key(Seq::empty()) && dec_metadata_spec(col[Seq::empty()]) is None
    }

    /// Ensures the stored version, if any, is the one this build expects:
    /// a store without a cell passes, a matching version passes, anything
    /// else is an `InvalidDatabaseVersion` error.
    pub fn check_version(&self) -> (r: Result<(), StorageError>)
        requires
            self.wf(),
        ensures
            r is Ok <==> (!self.metadata_malformed() && match self.metadata_spec() {
                Some(m) => m.version == self.expected_version,
                None => true,
            }),
            r is Err ==> r->Err_0 is InvalidDatabaseVersion
                && r->Err_0->InvalidDatabaseVersion_expected == self.expected_version
                && (match self.metadata_spec() {
                    Some(m) => r->Err_0->InvalidDatabaseVersion_found == m.version,
                    None => r->Err_0->InvalidDatabaseVersion_found == 0,
                }),
    {
        let key: Vec<u8> = Vec::new();
        match self.store.get(Column::Original(PlainColumn::Metadata), &key) {
            None => Ok(()),
            Some(raw) => match dec_metadata(raw) {
                None => Err(StorageError::InvalidDatabaseVersion {
                    found: 0,
                    expected: self.expected_version,
                }),
                Some(m) => {
                    if m.version != self.expected_version {
                        Err(StorageError::InvalidDatabaseVersion {
                            found: m.version,
                            expected: self.expected_version,
                        })
                    } else {
                        Ok(())
                    }
                },
            },
        }
    }

    /// The latest height the metadata records, if a cell is stored.
    pub fn latest_height_from_metadata(&self) -> (r: Option<u64>)
        requires
            self.wf(),
        ensures
            r == (match self.metadata_spec() {
                Some(m) => Some(m.height),
                None => None::<u64>,
            }),
    {
        let key: Vec<u8> = Vec::new();
        match self.store.get(Column::Original(PlainColumn::Metadata), &key) {
            None => None,
            Some(raw) => match dec_metadata(raw) {
                None => None,
                Some(m) => Some(m.height),
            },
        }
    }

    /// Is an indexation kind declared available by the metadata?
    pub fn indexation_available(&self, kind: IndexationKind) -> (r: bool)
        requires
            self.wf(),
        ensures
            r == (match self.metadata_spec() {
                Some(m) => m.indexation as int / indexation_bit(kind) as int % 2 == 1,
                None => false,
            }),
    {
        let key: Vec<u8> = Vec::new();
        let bit: u64 = match kind {
            IndexationKind::Balances => 1,
            IndexationKind::CoinsToSpend => 2,
            IndexationKind::AssetMetadata => 4,
        };
        match self.store.get(Column::Original(PlainColumn::Metadata), &key) {
            None => false,
            Some(raw) => match dec_metadata(raw) {
                None => false,
                Some(m) => m.indexation / bit % 2 == 1,
            },
        }
    }
}

} // verus!
