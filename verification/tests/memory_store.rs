//! The in-memory backend accepts zero-length keys and zero-length values;
//! neither collapses to an absent cell.

use fuel_core_exec::kv::{Changes, Column, IterDirection, MemoryStore, PlainColumn, StorageChanges, StorageError, WriteOperation};
use fuel_core_exec::transaction::ConflictPolicy;

#[test]
fn can_use_unit_value() {
    let key = vec![0x00];

    let mut db = MemoryStore::new();
    let expected: Vec<u8> = Vec::from([]);
    db.put(Column::Original(PlainColumn::Metadata), key.to_vec(), expected.clone());

    assert_eq!(
        db.get(Column::Original(PlainColumn::Metadata), &key).unwrap(),
        &expected
    );

    assert!(db.contains_key(Column::Original(PlainColumn::Metadata), &key));

    assert_eq!(
        db.iter_all(Column::Original(PlainColumn::Metadata), None, None, IterDirection::Forward),
        vec![(key.clone(), expected.clone())]
    );

    assert_eq!(
        db.take(Column::Original(PlainColumn::Metadata), &key).unwrap(),
        expected
    );

    assert!(!db.contains_key(Column::Original(PlainColumn::Metadata), &key));
}

#[test]
fn can_use_unit_key() {
    let key: Vec<u8> = Vec::with_capacity(0);

    let mut db = MemoryStore::new();
    let expected: Vec<u8> = Vec::from([1, 2, 3]);
    db.put(Column::Original(PlainColumn::Metadata), key.clone(), expected.clone());

    assert_eq!(
        db.get(Column::Original(PlainColumn::Metadata), &key).unwrap(),
        &expected
    );

    assert!(db.contains_key(Column::Original(PlainColumn::Metadata), &key));

    assert_eq!(
        db.iter_all(Column::Original(PlainColumn::Metadata), None, None, IterDirection::Forward),
        vec![(key.clone(), expected.clone())]
    );

    assert_eq!(
        db.take(Column::Original(PlainColumn::Metadata), &key).unwrap(),
        expected
    );

    assert!(!db.contains_key(Column::Original(PlainColumn::Metadata), &key));
}

#[test]
fn can_use_unit_key_and_value() {
    let key: Vec<u8> = Vec::with_capacity(0);

    let mut db = MemoryStore::new();
    let expected: Vec<u8> = Vec::from([]);
    db.put(Column::Original(PlainColumn::Metadata), key.clone(), expected.clone());

    assert_eq!(
        db.get(Column::Original(PlainColumn::Metadata), &key).unwrap(),
        &expected
    );

    assert!(db.contains_key(Column::Original(PlainColumn::Metadata), &key));

    assert_eq!(
        db.iter_all(Column::Original(PlainColumn::Metadata), None, None, IterDirection::Forward),
        vec![(key.clone(), expected.clone())]
    );

    assert_eq!(
        db.take(Column::Original(PlainColumn::Metadata), &key).unwrap(),
        expected
    );

    assert!(!db.contains_key(Column::Original(PlainColumn::Metadata), &key));
}

#[test]
fn iteration_respects_prefix_start_and_direction() {
    let mut db = MemoryStore::new();
    let col = Column::Original(PlainColumn::Coins);
    db.put(col, vec![1, 1], vec![10]);
    db.put(col, vec![1, 2], vec![11]);
    db.put(col, vec![2, 1], vec![12]);
    db.put(col, vec![2, 2], vec![13]);

    let prefix = vec![1u8];
    let with_prefix = db.iter_all(col, Some(&prefix), None, IterDirection::Forward);
    assert_eq!(
        with_prefix,
        vec![(vec![1, 1], vec![10]), (vec![1, 2], vec![11])]
    );

    let start = vec![1u8, 2];
    let from_start = db.iter_all(col, None, Some(&start), IterDirection::Forward);
    assert_eq!(
        from_start,
        vec![
            (vec![1, 2], vec![11]),
            (vec![2, 1], vec![12]),
            (vec![2, 2], vec![13])
        ]
    );

    let reversed = db.iter_all(col, Some(&prefix), None, IterDirection::Reverse);
    assert_eq!(
        reversed,
        vec![(vec![1, 2], vec![11]), (vec![1, 1], vec![10])]
    );

    let keys = db.iter_all_keys(col, Some(&prefix), None, IterDirection::Forward);
    assert_eq!(keys, vec![vec![1, 1], vec![1, 2]]);
}

#[test]
fn conflicting_change_sets_commit_nothing() {
    let mut db = MemoryStore::new();
    let mut first = Changes::new();
    first.set(PlainColumn::Coins, vec![9], WriteOperation::Insert(vec![1]));
    let mut second = Changes::new();
    second.set(PlainColumn::Coins, vec![9], WriteOperation::Insert(vec![2]));

    let outcome = db.commit_changes(StorageChanges::ChangesList(vec![first, second]));
    assert!(matches!(
        outcome,
        Err(StorageError::ConflictingChanges { column: PlainColumn::Coins, .. })
    ));
    assert_eq!(db.get(Column::Original(PlainColumn::Coins), &vec![9]), None);

    let mut lone = Changes::new();
    lone.set(PlainColumn::Coins, vec![9], WriteOperation::Insert(vec![3]));
    db.commit_changes(StorageChanges::Changes(lone)).unwrap();
    assert_eq!(
        db.get(Column::Original(PlainColumn::Coins), &vec![9]),
        Some(&vec![3])
    );
}

#[test]
fn transaction_reads_buffer_first_and_merges_by_policy() {
    let mut db = MemoryStore::new();
    db.put(Column::Original(PlainColumn::Coins), vec![1], vec![100]);

    let mut tx = db.read_transaction(ConflictPolicy::Fail);
    assert_eq!(tx.get(PlainColumn::Coins, &vec![1]), Some(vec![100]));
    tx.put(PlainColumn::Coins, vec![1], vec![200]);
    assert_eq!(tx.get(PlainColumn::Coins, &vec![1]), Some(vec![200]));
    assert_eq!(tx.take(PlainColumn::Coins, vec![1]), Some(vec![200]));
    assert_eq!(tx.get(PlainColumn::Coins, &vec![1]), None);
    assert!(!tx.contains_key(PlainColumn::Coins, &vec![1]));

    // A foreign change set touching the same cell conflicts under `Fail`.
    let mut foreign = Changes::new();
    foreign.set(PlainColumn::Coins, vec![1], WriteOperation::Insert(vec![5]));
    assert!(matches!(
        tx.commit_changes(foreign),
        Err(StorageError::ConflictingChanges { .. })
    ));

    // Under `Overwrite` the later write wins.
    let mut tx = db.read_transaction(ConflictPolicy::Overwrite);
    tx.put(PlainColumn::Coins, vec![1], vec![7]);
    let mut foreign = Changes::new();
    foreign.set(PlainColumn::Coins, vec![1], WriteOperation::Insert(vec![8]));
    tx.commit_changes(foreign).unwrap();
    assert_eq!(tx.get(PlainColumn::Coins, &vec![1]), Some(vec![8]));
}
