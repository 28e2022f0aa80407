//! Block production, validation and the executor's rules, driven end to end
//! against the typed chain state.

use fuel_core_exec::executor::{
    convert_tx_execution_result_to_preconfirmation, max_tx_count, BlockExecutor, Components,
    ExecutionData, ExecutionInstance, ExecutionOptions, ExecutorError, ExecutorEvent,
    TransactionExecutionResult, TransactionValidityError,
};
use fuel_core_exec::merkle::{event_hash, MerkleRootCalculator};
use fuel_core_exec::ports::{
    DisabledRelayer, FixedRelayer, MaybeCheckedTransaction, OnceTransactionsSource,
    TimeoutOnlyTxWaiter, TransparentPreconfirmationSender,
};
use fuel_core_exec::state::{BlockInfo, ExecState};
use fuel_core_exec::tx::{
    ChargeableTx, CompressedCoin, ConsensusParameters, ContractInput, ContractOutput, Event,
    Input, Message, MintTx, Output, PartialBlockHeader, RelayedTransaction, Transaction,
    TxPointer, UtxoId,
};

const ASSET: u64 = 7;

fn params() -> ConsensusParameters {
    ConsensusParameters {
        base_asset_id: ASSET,
        block_gas_limit: 1_000_000,
        block_transaction_size_limit: 1_000_000,
    }
}

fn base_state() -> ExecState {
    let mut state = ExecState::new();
    state.params.insert(0u128, params());
    state.blocks.insert(0u128, BlockInfo { da_height: 0 });
    state
}

fn header(height: u32, da_height: u64) -> PartialBlockHeader {
    PartialBlockHeader {
        height,
        da_height,
        prev_root: 0,
        time: 0,
        consensus_parameters_version: 0,
        state_transition_bytecode_version: 0,
    }
}

fn simple_tx(tx_id: u64, fee: u64) -> Transaction {
    Transaction::Script(ChargeableTx {
        tx_id,
        inputs: Vec::new(),
        outputs: Vec::new(),
        max_fee_limit: fee,
        expiration: u32::MAX,
        size: 10,
        min_gas: 0,
        max_gas: 0,
        reverts: false,
        receipts: Vec::new(),
    })
}

fn executor(
    forbid_fake_coins: bool,
) -> BlockExecutor<DisabledRelayer, TimeoutOnlyTxWaiter, TransparentPreconfirmationSender> {
    BlockExecutor {
        relayer: DisabledRelayer,
        consensus_params: params(),
        forbid_fake_coins,
        dry_run: false,
        new_tx_waiter: TimeoutOnlyTxWaiter,
        preconfirmation_sender: TransparentPreconfirmationSender,
    }
}

#[test]
fn mint_settles_the_accrued_fees() {
    // Two fee-paying transactions; the mint amount is their fees' sum.
    let state = base_state();
    let instance = ExecutionInstance::new(
        DisabledRelayer,
        state,
        ExecutionOptions { forbid_fake_coins: false, backtrace: false },
    );
    let source = OnceTransactionsSource::new(vec![simple_tx(1, 10), simple_tx(2, 15)]);
    let components = Components {
        header_to_produce: header(1, 0),
        transactions_source: source,
        coinbase_recipient: 5,
        gas_price: 0,
    };
    let produced = instance
        .produce_without_commit(
            components,
            false,
            TimeoutOnlyTxWaiter,
            TransparentPreconfirmationSender,
        )
        .unwrap();
    let block = &produced.result.block;
    assert_eq!(block.transactions.len(), 3);
    match &block.transactions[2] {
        Transaction::Mint(mint) => {
            assert_eq!(mint.tx_pointer.tx_index, 2);
            assert_eq!(mint.mint_amount, 25);
            assert_eq!(mint.mint_asset_id, ASSET);
        },
        _ => panic!("the last transaction must be the mint"),
    }
    assert_eq!(produced.result.skipped_transactions.len(), 0);
    assert_eq!(produced.result.tx_status.len(), 3);
}

#[test]
fn mint_with_zero_contract_settles_nothing() {
    // Fees accrue, but a zero coinbase recipient mints zero.
    let state = base_state();
    let instance = ExecutionInstance::new(
        DisabledRelayer,
        state,
        ExecutionOptions { forbid_fake_coins: false, backtrace: false },
    );
    let source = OnceTransactionsSource::new(vec![simple_tx(1, 10)]);
    let components = Components {
        header_to_produce: header(1, 0),
        transactions_source: source,
        coinbase_recipient: 0,
        gas_price: 0,
    };
    let produced = instance
        .produce_without_commit(
            components,
            false,
            TimeoutOnlyTxWaiter,
            TransparentPreconfirmationSender,
        )
        .unwrap();
    match produced.result.block.transactions.last().unwrap() {
        Transaction::Mint(mint) => assert_eq!(mint.mint_amount, 0),
        _ => panic!("the last transaction must be the mint"),
    }
}

#[test]
fn zero_contract_mint_with_an_amount_is_refused() {
    let mut state = base_state();
    let mut data = ExecutionData::new();
    let exec = executor(false);
    let mint = MintTx {
        tx_id: 99,
        tx_pointer: TxPointer { block_height: 1, tx_index: 0 },
        input_contract: ContractInput {
            utxo_id: UtxoId { tx_id: 0, output_index: 0 },
            balance_root: 0,
            state_root: 0,
            tx_pointer: TxPointer { block_height: 0, tx_index: 0 },
            contract_id: 0,
        },
        output_contract: ContractOutput { input_index: 0, balance_root: 0, state_root: 0 },
        mint_amount: 5,
        mint_asset_id: ASSET,
        gas_price: 0,
    };
    let outcome = exec.execute_transaction(
        MaybeCheckedTransaction::Transaction(Transaction::Mint(mint)),
        &header(1, 0),
        0,
        &mut data,
        &mut state,
    );
    assert!(matches!(outcome, Err(ExecutorError::CoinbaseAmountMismatch)));
}

#[test]
fn executing_a_transaction_twice_collides() {
    let mut state = base_state();
    let exec = executor(false);
    let mut data = ExecutionData::new();
    exec.execute_transaction(
        MaybeCheckedTransaction::Transaction(simple_tx(7, 0)),
        &header(1, 0),
        0,
        &mut data,
        &mut state,
    )
    .unwrap();
    let mut data2 = ExecutionData::new();
    let second = exec.execute_transaction(
        MaybeCheckedTransaction::Transaction(simple_tx(7, 0)),
        &header(1, 0),
        0,
        &mut data2,
        &mut state,
    );
    assert!(matches!(second, Err(ExecutorError::TransactionIdCollision(7))));
}

#[test]
fn retryable_message_survives_a_revert() {
    let mut state = base_state();
    state.messages.insert(
        11u128,
        Message { sender: 1, recipient: 2, nonce: 11, amount: 5, data: vec![1], da_height: 0 },
    );
    state.messages.insert(
        12u128,
        Message {
            sender: 1,
            recipient: 2,
            nonce: 12,
            amount: 5,
            data: Vec::new(),
            da_height: 0,
        },
    );
    let exec = executor(false);
    let mut data = ExecutionData::new();
    let tx = Transaction::Script(ChargeableTx {
        tx_id: 21,
        inputs: vec![
            Input::MessageDataSigned {
                sender: 1,
                recipient: 2,
                amount: 5,
                nonce: 11,
                data: vec![1],
                witness_index: 0,
            },
            Input::MessageCoinSigned {
                sender: 1,
                recipient: 2,
                amount: 5,
                nonce: 12,
                witness_index: 0,
            },
        ],
        outputs: Vec::new(),
        max_fee_limit: 0,
        expiration: u32::MAX,
        size: 10,
        min_gas: 0,
        max_gas: 0,
        reverts: true,
        receipts: Vec::new(),
    });
    exec.execute_transaction(
        MaybeCheckedTransaction::Transaction(tx),
        &header(1, 0),
        0,
        &mut data,
        &mut state,
    )
    .unwrap();
    // The retryable message stays; the message coin is gone.
    assert!(state.messages.get(11u128).is_some());
    assert!(state.messages.get(12u128).is_none());
    assert!(matches!(
        data.tx_status.last().unwrap().result,
        TransactionExecutionResult::Failed { .. }
    ));
}

#[test]
fn missing_coin_fails_strict_and_passes_permissive() {
    let coin_input = || Input::CoinSigned {
        utxo_id: UtxoId { tx_id: 500, output_index: 0 },
        owner: 1,
        amount: 10,
        asset_id: ASSET,
        tx_pointer: TxPointer { block_height: 0, tx_index: 0 },
        witness_index: 0,
    };
    let tx = |id: u64| {
        Transaction::Script(ChargeableTx {
            tx_id: id,
            inputs: vec![coin_input()],
            outputs: Vec::new(),
            max_fee_limit: 0,
            expiration: u32::MAX,
            size: 10,
            min_gas: 0,
            max_gas: 0,
            reverts: false,
            receipts: Vec::new(),
        })
    };
    // Strict: the coin record must exist.
    let mut state = base_state();
    let exec = executor(true);
    let mut data = ExecutionData::new();
    let outcome = exec.execute_transaction(
        MaybeCheckedTransaction::Transaction(tx(31)),
        &header(1, 0),
        0,
        &mut data,
        &mut state,
    );
    assert!(matches!(
        outcome,
        Err(ExecutorError::TransactionValidity(TransactionValidityError::CoinDoesNotExist(
            UtxoId { tx_id: 500, output_index: 0 }
        )))
    ));
    // Permissive: a default coin is synthesised and the spend proceeds.
    let mut state = base_state();
    let exec = executor(false);
    let mut data = ExecutionData::new();
    exec.execute_transaction(
        MaybeCheckedTransaction::Transaction(tx(32)),
        &header(1, 0),
        0,
        &mut data,
        &mut state,
    )
    .unwrap();
}

fn transfer_state() -> ExecState {
    let mut state = base_state();
    let owner = 1;
    let coins = [(100u64, 0u16), (150, 1), (200, 2)];
    for (amount, index) in coins {
        let utxo = UtxoId { tx_id: 400, output_index: index };
        state.coins.insert(
            fuel_core_exec::assoc::utxo_key(utxo),
            CompressedCoin {
                owner,
                amount,
                asset_id: ASSET,
                tx_pointer: TxPointer { block_height: 0, tx_index: 0 },
            },
        );
    }
    state.messages.insert(
        77u128,
        Message {
            sender: 9,
            recipient: owner,
            nonce: 77,
            amount: 200_000,
            data: vec![1, 2, 3],
            da_height: 0,
        },
    );
    state
}

fn transfer_tx() -> Transaction {
    let coin = |amount: u64, index: u16| Input::CoinSigned {
        utxo_id: UtxoId { tx_id: 400, output_index: index },
        owner: 1,
        amount,
        asset_id: ASSET,
        tx_pointer: TxPointer { block_height: 0, tx_index: 0 },
        witness_index: 0,
    };
    Transaction::Script(ChargeableTx {
        tx_id: 42,
        inputs: vec![coin(100, 0), coin(150, 1), coin(200, 2)],
        outputs: vec![
            Output::Coin { to: 2, amount: 449, asset_id: ASSET },
            Output::Change { to: 1, amount: 1, asset_id: ASSET },
        ],
        max_fee_limit: 0,
        expiration: u32::MAX,
        size: 10,
        min_gas: 0,
        max_gas: 0,
        reverts: false,
        receipts: Vec::new(),
    })
}

#[test]
fn balance_after_spend_counts_the_change_alone() {
    // Three coins totalling 450 and one retryable message of 200000; after a
    // transfer of 449 the owner's balance is 1.
    let state = transfer_state();
    let instance = ExecutionInstance::new(
        DisabledRelayer,
        state,
        ExecutionOptions { forbid_fake_coins: true, backtrace: false },
    );
    let source = OnceTransactionsSource::new(vec![transfer_tx()]);
    let components = Components {
        header_to_produce: header(1, 0),
        transactions_source: source,
        coinbase_recipient: 0,
        gas_price: 0,
    };
    let produced = instance
        .produce_without_commit(
            components,
            false,
            TimeoutOnlyTxWaiter,
            TransparentPreconfirmationSender,
        )
        .unwrap();
    assert_eq!(produced.result.skipped_transactions.len(), 0);
    assert_eq!(produced.state.balance_of(1, ASSET, ASSET), 1);
    assert_eq!(produced.state.balance_of(2, ASSET, ASSET), 449);
}

#[test]
fn produced_blocks_validate_cleanly() {
    // Produce against one state; validate the block against an equal state.
    let instance = ExecutionInstance::new(
        DisabledRelayer,
        transfer_state(),
        ExecutionOptions { forbid_fake_coins: true, backtrace: false },
    );
    let source = OnceTransactionsSource::new(vec![transfer_tx()]);
    let components = Components {
        header_to_produce: header(1, 0),
        transactions_source: source,
        coinbase_recipient: 0,
        gas_price: 0,
    };
    let produced = instance
        .produce_without_commit(
            components,
            false,
            TimeoutOnlyTxWaiter,
            TransparentPreconfirmationSender,
        )
        .unwrap();
    let validator = ExecutionInstance::new(
        DisabledRelayer,
        transfer_state(),
        ExecutionOptions { forbid_fake_coins: true, backtrace: false },
    );
    let validated = validator
        .validate_without_commit(&produced.result.block)
        .unwrap();
    assert_eq!(validated.state.balance_of(1, ASSET, ASSET), 1);
    assert_eq!(validated.state.balance_of(2, ASSET, ASSET), 449);
    assert_eq!(validated.result.tx_status.len(), produced.result.tx_status.len());
}

#[test]
fn tampered_blocks_fail_validation() {
    let instance = ExecutionInstance::new(
        DisabledRelayer,
        transfer_state(),
        ExecutionOptions { forbid_fake_coins: true, backtrace: false },
    );
    let source = OnceTransactionsSource::new(vec![transfer_tx()]);
    let components = Components {
        header_to_produce: header(1, 0),
        transactions_source: source,
        coinbase_recipient: 0,
        gas_price: 0,
    };
    let mut produced = instance
        .produce_without_commit(
            components,
            false,
            TimeoutOnlyTxWaiter,
            TransparentPreconfirmationSender,
        )
        .unwrap();
    // Flip a malleable field of the first, non-mint transaction.
    match &mut produced.result.block.transactions[0] {
        Transaction::Script(body) => match &mut body.inputs[0] {
            Input::CoinSigned { tx_pointer, .. } => {
                *tx_pointer = TxPointer { block_height: 9, tx_index: 9 };
            },
            _ => panic!("expected a coin input"),
        },
        _ => panic!("expected the transfer first"),
    }
    let validator = ExecutionInstance::new(
        DisabledRelayer,
        transfer_state(),
        ExecutionOptions { forbid_fake_coins: true, backtrace: false },
    );
    let outcome = validator.validate_without_commit(&produced.result.block);
    assert!(matches!(
        outcome,
        Err(ExecutorError::InvalidTransactionOutcome(42))
    ));
}

#[test]
fn forced_tx_with_insufficient_claimed_gas_is_skipped_with_an_event() {
    // The relayer claims less gas than the transaction demands: the block is
    // produced, the transaction stays out, and an event names the failure.
    let mut state = base_state();
    state.blocks.insert(0u128, BlockInfo { da_height: 0 });
    let forced = Transaction::Script(ChargeableTx {
        tx_id: 61,
        inputs: Vec::new(),
        outputs: Vec::new(),
        max_fee_limit: 0,
        expiration: u32::MAX,
        size: 10,
        min_gas: 0,
        max_gas: 100,
        reverts: false,
        receipts: Vec::new(),
    });
    let relayer = FixedRelayer {
        first_height: 1,
        event_log: vec![vec![Event::Transaction(RelayedTransaction {
            id: 61,
            max_gas: 10,
            parsed: Some(forced),
        })]],
    };
    let instance = ExecutionInstance::new(
        relayer,
        state,
        ExecutionOptions { forbid_fake_coins: false, backtrace: false },
    );
    let source = OnceTransactionsSource::new(Vec::new());
    let components = Components {
        header_to_produce: header(1, 1),
        transactions_source: source,
        coinbase_recipient: 0,
        gas_price: 0,
    };
    let produced = instance
        .produce_without_commit(
            components,
            false,
            TimeoutOnlyTxWaiter,
            TransparentPreconfirmationSender,
        )
        .unwrap();
    // Only the mint made it into the block.
    assert_eq!(produced.result.block.transactions.len(), 1);
    let failure = produced.result.events.iter().find_map(|e| match e {
        ExecutorEvent::ForcedTransactionFailed { id, failure, .. } if *id == 61 => {
            Some(failure.clone())
        },
        _ => None,
    });
    let failure = failure.expect("a failure event must be recorded");
    assert!(failure.contains("InsufficientMaxGas"));
}

#[test]
fn event_inbox_root_commits_to_the_ordered_events() {
    let make_message = |nonce: u64| Message {
        sender: 3,
        recipient: 4,
        nonce,
        amount: 10,
        data: Vec::new(),
        da_height: 1,
    };
    let relayer = FixedRelayer {
        first_height: 1,
        event_log: vec![vec![
            Event::Message(make_message(1)),
            Event::Message(make_message(2)),
        ]],
    };
    let instance = ExecutionInstance::new(
        relayer,
        base_state(),
        ExecutionOptions { forbid_fake_coins: false, backtrace: false },
    );
    let source = OnceTransactionsSource::new(Vec::new());
    let components = Components {
        header_to_produce: header(1, 1),
        transactions_source: source,
        coinbase_recipient: 0,
        gas_price: 0,
    };
    let produced = instance
        .produce_without_commit(
            components,
            false,
            TimeoutOnlyTxWaiter,
            TransparentPreconfirmationSender,
        )
        .unwrap();
    // Recompute the root over the same events in the same order.
    let mut calculator = MerkleRootCalculator::new();
    calculator.push(event_hash(&Event::Message(make_message(1))));
    calculator.push(event_hash(&Event::Message(make_message(2))));
    assert_eq!(produced.result.block.header.event_inbox_root, calculator.root());
    // Both messages were imported.
    assert_eq!(produced.state.messages.len(), 2);
}

#[test]
fn gas_budget_skips_oversized_transactions() {
    let mut big = simple_tx(81, 0);
    match &mut big {
        Transaction::Script(body) => {
            body.max_gas = 2_000_000;
        },
        _ => unreachable!(),
    }
    let instance = ExecutionInstance::new(
        DisabledRelayer,
        base_state(),
        ExecutionOptions { forbid_fake_coins: false, backtrace: false },
    );
    let source = OnceTransactionsSource::new(vec![big, simple_tx(82, 3)]);
    let components = Components {
        header_to_produce: header(1, 0),
        transactions_source: source,
        coinbase_recipient: 1,
        gas_price: 0,
    };
    let produced = instance
        .produce_without_commit(
            components,
            false,
            TimeoutOnlyTxWaiter,
            TransparentPreconfirmationSender,
        )
        .unwrap();
    assert_eq!(produced.result.skipped_transactions.len(), 1);
    assert_eq!(produced.result.skipped_transactions[0].0, 81);
    assert!(matches!(
        produced.result.skipped_transactions[0].1,
        ExecutorError::GasOverflow(_, 2_000_000, _)
    ));
    // The other transaction made it in beside the mint.
    assert_eq!(produced.result.block.transactions.len(), 2);
}

#[test]
fn preconfirmations_carry_the_dynamic_outputs() {
    let tx = transfer_tx();
    let result = TransactionExecutionResult::Success {
        receipts: Vec::new(),
        total_gas: 1,
        total_fee: 2,
    };
    let preconfirmation =
        convert_tx_execution_result_to_preconfirmation(&tx, 42, &result, 1, 0);
    assert_eq!(preconfirmation.tx_id, 42);
    match preconfirmation.status {
        fuel_core_exec::ports::PreconfirmationStatus::Success { outputs, .. } => {
            // The change output is dynamic; the plain coin output is not.
            assert_eq!(outputs.len(), 1);
            assert_eq!(outputs[0].0, UtxoId { tx_id: 42, output_index: 1 });
        },
        _ => panic!("expected success"),
    }
}

#[test]
fn the_tx_count_cap_leaves_room_for_the_mint() {
    assert_eq!(max_tx_count(), u16::MAX - 1);
}

#[test]
fn expired_transactions_are_refused() {
    let mut state = base_state();
    let exec = executor(false);
    let mut data = ExecutionData::new();
    let mut tx = simple_tx(91, 0);
    match &mut tx {
        Transaction::Script(body) => body.expiration = 3,
        _ => unreachable!(),
    }
    // A pre-checked transaction past its expiration names the heights.
    let outcome = exec.execute_transaction(
        MaybeCheckedTransaction::CheckedTransaction(tx, 0),
        &header(5, 0),
        0,
        &mut data,
        &mut state,
    );
    assert!(matches!(outcome, Err(ExecutorError::TransactionExpired(3, 5))));
}

#[test]
fn nothing_follows_the_mint() {
    let mut state = base_state();
    let exec = executor(false);
    let mut data = ExecutionData::new();
    let mint = MintTx {
        tx_id: 70,
        tx_pointer: TxPointer { block_height: 1, tx_index: 0 },
        input_contract: ContractInput {
            utxo_id: UtxoId { tx_id: 0, output_index: 0 },
            balance_root: 0,
            state_root: 0,
            tx_pointer: TxPointer { block_height: 0, tx_index: 0 },
            contract_id: 0,
        },
        output_contract: ContractOutput { input_index: 0, balance_root: 0, state_root: 0 },
        mint_amount: 0,
        mint_asset_id: ASSET,
        gas_price: 0,
    };
    exec.execute_transaction(
        MaybeCheckedTransaction::Transaction(Transaction::Mint(mint)),
        &header(1, 0),
        0,
        &mut data,
        &mut state,
    )
    .unwrap();
    let after = exec.execute_transaction(
        MaybeCheckedTransaction::Transaction(simple_tx(71, 0)),
        &header(1, 0),
        0,
        &mut data,
        &mut state,
    );
    assert!(matches!(after, Err(ExecutorError::MintIsNotLastTransaction)));
}

#[test]
fn a_message_delivered_at_the_wrong_height_is_fatal() {
    let relayer = FixedRelayer {
        first_height: 1,
        event_log: vec![vec![Event::Message(Message {
            sender: 1,
            recipient: 2,
            nonce: 5,
            amount: 1,
            data: Vec::new(),
            da_height: 9,
        })]],
    };
    let instance = ExecutionInstance::new(
        relayer,
        base_state(),
        ExecutionOptions { forbid_fake_coins: false, backtrace: false },
    );
    let components = Components {
        header_to_produce: header(1, 1),
        transactions_source: OnceTransactionsSource::new(Vec::new()),
        coinbase_recipient: 0,
        gas_price: 0,
    };
    let outcome = instance.produce_without_commit(
        components,
        false,
        TimeoutOnlyTxWaiter,
        TransparentPreconfirmationSender,
    );
    assert!(matches!(
        outcome,
        Err(ExecutorError::RelayerGivesIncorrectMessages)
    ));
}

#[test]
fn a_dry_run_gathers_without_a_mint() {
    let instance = ExecutionInstance::new(
        DisabledRelayer,
        base_state(),
        ExecutionOptions { forbid_fake_coins: false, backtrace: false },
    );
    let components = Components {
        header_to_produce: header(1, 0),
        transactions_source: OnceTransactionsSource::new(vec![simple_tx(51, 4)]),
        coinbase_recipient: 9,
        gas_price: 0,
    };
    let produced = instance
        .produce_without_commit(
            components,
            true,
            TimeoutOnlyTxWaiter,
            TransparentPreconfirmationSender,
        )
        .unwrap();
    assert_eq!(produced.result.block.transactions.len(), 1);
    assert!(!matches!(
        produced.result.block.transactions[0],
        Transaction::Mint(_)
    ));
}

#[test]
fn candidate_over_the_gas_budget_is_recorded_with_the_remaining_gas() {
    let executor = executor(false);
    let mut partial = fuel_core_exec::tx::PartialFuelBlock {
        header: header(1, 0),
        transactions: Vec::new(),
    };
    let mut state = base_state();
    let mut data = ExecutionData::new();
    data.used_gas = 400_000;
    let mut big = simple_tx(91, 0);
    match &mut big {
        Transaction::Script(body) => body.max_gas = 700_000,
        _ => unreachable!(),
    }
    let outcome = executor.process_l2_candidate(
        &mut partial,
        &mut state,
        &mut data,
        MaybeCheckedTransaction::Transaction(big),
        0,
    );
    // Nothing is announced, nothing enters the block, and the skip names
    // the claimed gas and what was left under the block's limit.
    assert!(outcome.is_none());
    assert_eq!(partial.transactions.len(), 0);
    assert_eq!(data.skipped_transactions.len(), 1);
    assert_eq!(data.skipped_transactions[0].0, 91);
    assert!(matches!(
        data.skipped_transactions[0].1,
        ExecutorError::GasOverflow(_, 700_000, 600_000)
    ));
}

#[test]
fn candidate_that_cannot_execute_is_squeezed_out_once() {
    let executor = executor(false);
    let mut partial = fuel_core_exec::tx::PartialFuelBlock {
        header: header(1, 0),
        transactions: Vec::new(),
    };
    let mut state = base_state();
    let mut data = ExecutionData::new();
    // The first pass executes; the identical second pass collides and is
    // squeezed out with exactly one skipped record.
    let executed = executor.process_l2_candidate(
        &mut partial,
        &mut state,
        &mut data,
        MaybeCheckedTransaction::Transaction(simple_tx(92, 0)),
        0,
    );
    match executed {
        Some(p) => {
            assert_eq!(p.tx_id, 92);
            assert!(matches!(
                p.status,
                fuel_core_exec::ports::PreconfirmationStatus::Success { .. }
            ));
        },
        None => panic!("the executed candidate must be announced"),
    }
    assert_eq!(partial.transactions.len(), 1);
    assert_eq!(data.tx_count, 1);
    let squeezed = executor.process_l2_candidate(
        &mut partial,
        &mut state,
        &mut data,
        MaybeCheckedTransaction::Transaction(simple_tx(92, 0)),
        0,
    );
    match squeezed {
        Some(p) => {
            assert_eq!(p.tx_id, 92);
            assert!(matches!(
                p.status,
                fuel_core_exec::ports::PreconfirmationStatus::SqueezedOut { .. }
            ));
        },
        None => panic!("the squeezed-out candidate must be announced"),
    }
    assert_eq!(partial.transactions.len(), 1);
    assert_eq!(data.skipped_transactions.len(), 1);
    assert_eq!(data.skipped_transactions[0].0, 92);
    assert!(matches!(
        data.skipped_transactions[0].1,
        ExecutorError::TransactionIdCollision(92)
    ));
}
