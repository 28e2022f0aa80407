//! The supervisor's state machine, the metadata cell, and the query shapes.

use fuel_core_exec::kv::StorageError;
use fuel_core_exec::metadata::{Database, DatabaseMetadata, IndexationKind};
use fuel_core_exec::order::{bytes_cmp, dec_be8, enc_be8, KeyCmp};
use fuel_core_exec::schema::{block_id, BlockMutation, BlockQuery, HeaderQuery};
use fuel_core_exec::service::{
    panic_to_string, run_task_step, shutdown_panic, start_transition, started_transition,
    stop_transition, stopped_transition, PanicPayload, State, TaskNextAction,
};
use fuel_core_exec::tx::{Block, BlockHeader};

#[test]
fn start_and_stop_signals_follow_the_lifecycle() {
    let (state, signalled) = start_transition(State::NotStarted);
    assert!(matches!(state, State::Starting));
    assert!(signalled);

    // A second start signal is refused.
    let (state, signalled) = start_transition(state);
    assert!(matches!(state, State::Starting));
    assert!(!signalled);

    let (state, signalled) = started_transition(state);
    assert!(matches!(state, State::Started));
    assert!(signalled);

    let (state, signalled) = stop_transition(state);
    assert!(matches!(state, State::Stopping));
    assert!(signalled);

    let state = stopped_transition(state, None);
    assert!(matches!(state, State::Stopped));

    // Stopping an already stopped service changes nothing.
    let (state, signalled) = stop_transition(state);
    assert!(matches!(state, State::Stopped));
    assert!(!signalled);
}

#[test]
fn a_panic_is_preserved_in_the_stopped_state() {
    let state = stopped_transition(State::Started, Some("Should fail".to_owned()));
    assert!(matches!(state, State::StoppedWithError(ref s) if s.contains("Should fail")));

    // A panic during shutdown is preserved only without an earlier one.
    let kept = shutdown_panic(None, Some("Shutdown should fail".to_owned()));
    assert_eq!(kept, Some("Shutdown should fail".to_owned()));
    let kept = shutdown_panic(Some("first".to_owned()), Some("second".to_owned()));
    assert_eq!(kept, Some("first".to_owned()));
}

#[test]
fn the_run_loop_obeys_the_state_and_the_verdict() {
    assert!(run_task_step(&State::Started, TaskNextAction::Continue));
    assert!(run_task_step(
        &State::Started,
        TaskNextAction::ErrorContinue("transient".to_owned())
    ));
    assert!(!run_task_step(&State::Started, TaskNextAction::Stop));
    assert!(!run_task_step(&State::Stopping, TaskNextAction::Continue));
}

#[test]
fn verdict_conversions() {
    assert!(matches!(
        TaskNextAction::always_continue(Ok::<u32, String>(1)),
        TaskNextAction::Continue
    ));
    assert!(matches!(
        TaskNextAction::always_continue(Err::<u32, String>("boom".to_owned())),
        TaskNextAction::ErrorContinue(_)
    ));
    assert!(matches!(
        TaskNextAction::from_result(Ok(true)),
        TaskNextAction::Continue
    ));
    assert!(matches!(
        TaskNextAction::from_result(Ok(false)),
        TaskNextAction::Stop
    ));
    assert_eq!(
        panic_to_string(PanicPayload::Text("why".to_owned())),
        "why".to_owned()
    );
    assert_eq!(
        panic_to_string(PanicPayload::Unknown),
        "Unknown Source of Error".to_owned()
    );
}

#[test]
fn metadata_versions_are_checked() {
    let mut db = Database {
        store: fuel_core_exec::kv::MemoryStore::new(),
        expected_version: 3,
    };
    // Without a metadata cell every version passes.
    assert!(db.check_version().is_ok());
    assert_eq!(db.latest_height_from_metadata(), None);

    db.write_metadata(&DatabaseMetadata { version: 3, height: 17, indexation: 1 | 4 });
    assert!(db.check_version().is_ok());
    assert_eq!(db.latest_height_from_metadata(), Some(17));
    assert!(db.indexation_available(IndexationKind::Balances));
    assert!(!db.indexation_available(IndexationKind::CoinsToSpend));
    assert!(db.indexation_available(IndexationKind::AssetMetadata));

    db.expected_version = 4;
    let outcome = db.check_version();
    assert!(matches!(
        outcome,
        Err(StorageError::InvalidDatabaseVersion { found: 3, expected: 4 })
    ));
}

#[test]
fn block_queries_need_exactly_one_selector() {
    let make_block = |height: u32| Block {
        header: BlockHeader {
            height,
            da_height: 0,
            prev_root: 0,
            time: 0,
            consensus_parameters_version: 0,
            state_transition_bytecode_version: 0,
            transactions_count: 0,
            message_receipt_count: 0,
            transactions_root: 0,
            message_outbox_root: 0,
            event_inbox_root: 0,
        },
        transactions: Vec::new(),
    };
    let blocks = vec![make_block(0), make_block(1), make_block(2)];
    let query = BlockQuery;
    assert!(query.block(&blocks, Some(1), Some(1)).is_err());
    assert!(query.block(&blocks, None, None).is_err());
    assert_eq!(query.block(&blocks, None, Some(2)).unwrap(), Some(2));
    assert_eq!(query.block(&blocks, None, Some(9)).unwrap(), None);
    let wanted = block_id(&blocks[1].header);
    assert_eq!(query.block(&blocks, Some(wanted), None).unwrap(), Some(1));

    let headers = HeaderQuery;
    assert_eq!(headers.header(&blocks, None, Some(0)).unwrap(), Some(0));

    let mutation = BlockMutation;
    assert!(mutation.produce_blocks(false, 0, 5).is_err());
    assert_eq!(mutation.produce_blocks(true, 2, 5).unwrap(), 7);
}

#[test]
fn byte_order_and_encodings_are_exact() {
    assert!(matches!(bytes_cmp(&vec![1, 2], &vec![1, 3]), KeyCmp::Less));
    assert!(matches!(bytes_cmp(&vec![1, 2], &vec![1, 2]), KeyCmp::Equal));
    assert!(matches!(bytes_cmp(&vec![2], &vec![1, 9]), KeyCmp::Greater));
    // A shorter string comes first when it is a prefix of the longer.
    assert!(matches!(bytes_cmp(&vec![1], &vec![1, 0]), KeyCmp::Less));
    assert_eq!(enc_be8(258), vec![0, 0, 0, 0, 0, 0, 1, 2]);
    assert_eq!(dec_be8(&enc_be8(123_456_789)), 123_456_789);
}
