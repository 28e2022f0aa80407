//! Historical point reads: a view rooted at a height answers what the chain
//! held right after that height's block.

use fuel_core_exec::historical::{HistoricalStore, StateRewindPolicy};
use fuel_core_exec::kv::PlainColumn;
use fuel_core_exec::order::enc_be8;
use fuel_core_exec::transaction::ConflictPolicy;

fn key() -> Vec<u8> {
    let mut k = vec![123u8; 32];
    k.extend_from_slice(&[213u8; 32]);
    k
}

fn default_key() -> Vec<u8> {
    vec![0u8; 64]
}

#[test]
fn historical_rocksdb_view_at_each_height_works() {
    // Given
    let mut historical_db = HistoricalStore::new(StateRewindPolicy::RewindFullRange);

    // Set the value at height 1 to be 123.
    let mut transaction = historical_db.inner.read_transaction(ConflictPolicy::Overwrite);
    transaction.put(PlainColumn::ContractsAssets, key(), enc_be8(123));
    historical_db
        .commit_changes(1, transaction.into_changes())
        .unwrap();

    // Set the value at height 2 to be 321.
    let mut transaction = historical_db.inner.read_transaction(ConflictPolicy::Overwrite);
    transaction.put(PlainColumn::ContractsAssets, key(), enc_be8(321));
    historical_db
        .commit_changes(2, transaction.into_changes())
        .unwrap();

    // When
    let view_at_height_zero = historical_db.create_view_at(0).unwrap();
    let view_at_height_one = historical_db.create_view_at(1).unwrap();
    let view_at_height_two = historical_db.create_view_at(2).unwrap();
    let balance_at_height_zero = view_at_height_zero.get(PlainColumn::ContractsAssets, &key());
    let balance_at_height_one = view_at_height_one
        .get(PlainColumn::ContractsAssets, &key())
        .unwrap();
    let balance_at_height_two = view_at_height_two
        .get(PlainColumn::ContractsAssets, &key())
        .unwrap();

    // Then
    assert_eq!(balance_at_height_zero, None);
    assert_eq!(balance_at_height_one, enc_be8(123));
    assert_eq!(balance_at_height_two, enc_be8(321));
}

#[test]
fn historical_rocksdb_view_at_each_height_works_when_multiple_modifications() {
    // Given
    let mut historical_db = HistoricalStore::new(StateRewindPolicy::RewindFullRange);

    // Set the value at height 1 to be 123.
    let mut transaction = historical_db.inner.read_transaction(ConflictPolicy::Overwrite);
    transaction.put(PlainColumn::ContractsAssets, key(), enc_be8(123));
    transaction.put(PlainColumn::ContractsAssets, default_key(), enc_be8(123456));
    historical_db
        .commit_changes(1, transaction.into_changes())
        .unwrap();

    // Set the value at height 2 to be 321.
    let mut transaction = historical_db.inner.read_transaction(ConflictPolicy::Overwrite);
    transaction.put(PlainColumn::ContractsAssets, key(), enc_be8(321));
    transaction.put(PlainColumn::ContractsAssets, default_key(), enc_be8(654321));
    historical_db
        .commit_changes(2, transaction.into_changes())
        .unwrap();

    // When
    let view_at_height_zero = historical_db.create_view_at(0).unwrap();
    let view_at_height_one = historical_db.create_view_at(1).unwrap();
    let view_at_height_two = historical_db.create_view_at(2).unwrap();
    let balance_at_height_zero = view_at_height_zero.get(PlainColumn::ContractsAssets, &key());
    let balance_at_height_one = view_at_height_one
        .get(PlainColumn::ContractsAssets, &key())
        .unwrap();
    let balance_at_height_two = view_at_height_two
        .get(PlainColumn::ContractsAssets, &key())
        .unwrap();

    // Then
    assert_eq!(balance_at_height_zero, None);
    assert_eq!(balance_at_height_one, enc_be8(123));
    assert_eq!(balance_at_height_two, enc_be8(321));

    let default_at_zero = view_at_height_zero.get(PlainColumn::ContractsAssets, &default_key());
    let default_at_one = view_at_height_one
        .get(PlainColumn::ContractsAssets, &default_key())
        .unwrap();
    let default_at_two = view_at_height_two
        .get(PlainColumn::ContractsAssets, &default_key())
        .unwrap();
    assert_eq!(default_at_zero, None);
    assert_eq!(default_at_one, enc_be8(123456));
    assert_eq!(default_at_two, enc_be8(654321));
}

#[test]
fn rollback_then_commit_restores_the_state() {
    let mut historical_db = HistoricalStore::new(StateRewindPolicy::RewindFullRange);

    let mut transaction = historical_db.inner.read_transaction(ConflictPolicy::Overwrite);
    transaction.put(PlainColumn::ContractsAssets, key(), enc_be8(123));
    historical_db
        .commit_changes(1, transaction.into_changes())
        .unwrap();

    let mut transaction = historical_db.inner.read_transaction(ConflictPolicy::Overwrite);
    transaction.put(PlainColumn::ContractsAssets, key(), enc_be8(321));
    transaction.put(PlainColumn::ContractsAssets, default_key(), enc_be8(7));
    let replayed = transaction.into_changes();
    historical_db.commit_changes(2, replayed).unwrap();

    let latest_before = historical_db.latest_height();
    let value_before = historical_db.get(PlainColumn::ContractsAssets, &key()).cloned();

    // Roll the latest block back; the state at height 1 is restored.
    historical_db.rollback_block_to(1).unwrap();
    assert_eq!(historical_db.latest_height(), Some(1));
    assert_eq!(
        historical_db.get(PlainColumn::ContractsAssets, &key()),
        Some(&enc_be8(123))
    );
    assert_eq!(
        historical_db.get(PlainColumn::ContractsAssets, &default_key()),
        None
    );

    // Commit the same change set again: byte for byte the old state.
    let mut transaction = historical_db.inner.read_transaction(ConflictPolicy::Overwrite);
    transaction.put(PlainColumn::ContractsAssets, key(), enc_be8(321));
    transaction.put(PlainColumn::ContractsAssets, default_key(), enc_be8(7));
    historical_db
        .commit_changes(2, transaction.into_changes())
        .unwrap();
    assert_eq!(historical_db.latest_height(), latest_before);
    assert_eq!(
        historical_db.get(PlainColumn::ContractsAssets, &key()).cloned(),
        value_before
    );
    let view_at_one = historical_db.create_view_at(1).unwrap();
    assert_eq!(
        view_at_one.get(PlainColumn::ContractsAssets, &key()),
        Some(enc_be8(123))
    );
}

#[test]
fn non_monotonic_commit_is_refused() {
    let mut historical_db = HistoricalStore::new(StateRewindPolicy::RewindFullRange);
    let mut transaction = historical_db.inner.read_transaction(ConflictPolicy::Overwrite);
    transaction.put(PlainColumn::ContractsAssets, key(), enc_be8(1));
    historical_db
        .commit_changes(5, transaction.into_changes())
        .unwrap();

    let mut transaction = historical_db.inner.read_transaction(ConflictPolicy::Overwrite);
    transaction.put(PlainColumn::ContractsAssets, key(), enc_be8(2));
    let outcome = historical_db.commit_changes(5, transaction.into_changes());
    assert!(matches!(
        outcome,
        Err(fuel_core_exec::kv::StorageError::NonMonotonicHeight { prev: 5, next: 5 })
    ));
}

#[test]
fn no_rewind_policy_has_no_views() {
    let historical_db = HistoricalStore::new(StateRewindPolicy::NoRewind);
    assert!(matches!(
        historical_db.create_view_at(0),
        Err(fuel_core_exec::kv::StorageError::HistoryNotAvailable)
    ));
}

#[test]
fn only_the_latest_block_can_be_rolled_back() {
    let mut historical_db = HistoricalStore::new(StateRewindPolicy::RewindFullRange);
    for height in 1..=3u64 {
        let mut transaction =
            historical_db.inner.read_transaction(ConflictPolicy::Overwrite);
        transaction.put(PlainColumn::ContractsAssets, key(), enc_be8(height));
        historical_db
            .commit_changes(height, transaction.into_changes())
            .unwrap();
    }
    // Rolling back to a non-adjacent height is refused.
    assert!(matches!(
        historical_db.rollback_block_to(1),
        Err(fuel_core_exec::kv::StorageError::HeightNotRecorded { height: 1 })
    ));
    // Adjacent rollbacks walk the chain back one block at a time.
    historical_db.rollback_block_to(2).unwrap();
    historical_db.rollback_block_to(1).unwrap();
    assert_eq!(historical_db.latest_height(), Some(1));
    assert_eq!(
        historical_db.get(PlainColumn::ContractsAssets, &key()),
        Some(&enc_be8(1))
    );
}

#[test]
fn a_removal_is_recorded_in_history_too() {
    let mut historical_db = HistoricalStore::new(StateRewindPolicy::RewindFullRange);
    let mut transaction = historical_db.inner.read_transaction(ConflictPolicy::Overwrite);
    transaction.put(PlainColumn::ContractsAssets, key(), enc_be8(1));
    historical_db
        .commit_changes(1, transaction.into_changes())
        .unwrap();
    let mut transaction = historical_db.inner.read_transaction(ConflictPolicy::Overwrite);
    transaction.delete(PlainColumn::ContractsAssets, key());
    historical_db
        .commit_changes(2, transaction.into_changes())
        .unwrap();

    assert_eq!(historical_db.get(PlainColumn::ContractsAssets, &key()), None);
    let view_at_one = historical_db.create_view_at(1).unwrap();
    assert_eq!(
        view_at_one.get(PlainColumn::ContractsAssets, &key()),
        Some(enc_be8(1))
    );
    let view_at_two = historical_db.create_view_at(2).unwrap();
    assert_eq!(view_at_two.get(PlainColumn::ContractsAssets, &key()), None);
}
