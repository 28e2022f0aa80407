//! The block executor: ingests L1 events, executes L2 transactions against
//! the typed chain state, appends the fee-settling mint transaction, and
//! re-executes received blocks to validate them field for field.

use vstd::prelude::*;
use crate::assoc::{asset_key, utxo_key, utxo_key_spec};
use crate::merkle::{event_hash, MerkleRootCalculator};
use crate::ports::{
    MaybeCheckedTransaction, NewTxWaiterPort, Preconfirmation, PreconfirmationSenderPort,
    PreconfirmationStatus, RelayerPort, TransactionsSource, WaitNewTransactionsResult,
};
use crate::state::{BlockInfo, ContractMeta, ExecState};
use crate::tx::{
    Block, BlockHeader, ChargeableTx, CompressedCoin, ConsensusParameters, ContractInput,
    ContractOutput, Event, Input, Message, MintTx, Output, PartialBlockHeader, PartialFuelBlock,
    Receipt, RelayedTransaction, Transaction, TxPointer, UtxoId,
};

verus! {

/// The most transactions a block may hold, the mint excluded.
pub fn max_tx_count() -> (r: u16)
    ensures
        r == u16::MAX - 1,
{
    65534
}

/// Why a transaction's inputs are not acceptable.
#[derive(Debug)]
pub enum TransactionValidityError {
    CoinDoesNotExist(UtxoId),
    CoinMismatch(UtxoId),
    ContractDoesNotExist(u64),
    MessageDoesNotExist(u64),
    MessageMismatch(u64),
    MessageSpendTooEarly(u64),
    InvalidContractInputIndex(UtxoId),
    Validation(String),
}

/// Why the executor refused or aborted.
#[derive(Debug)]
pub enum ExecutorError {
    MintMissing,
    MintIsNotLastTransaction,
    MintHasUnexpectedIndex,
    MintMismatch,
    CoinbaseAmountMismatch,
    CoinbaseGasPriceMismatch,
    CoinbaseCannotIncreaseBalance(String),
    TransactionIdCollision(u64),
    TransactionExpired(u32, u32),
    TooManyTransactions,
    TooManyOutputs,
    GasOverflow(String, u64, u64),
    TxSizeOverflow,
    FeeOverflow,
    InvalidTransactionOutcome(u64),
    BlockMismatch,
    BlockHeaderError(String),
    ConsensusParametersNotFound(u32),
    ExecutingGenesisBlock,
    PreviousBlockIsNotFound,
    DaHeightExceededItsLimit,
    RelayerError(String),
    RelayerGivesIncorrectMessages,
    MessageDoesNotExist(u64),
    OutputAlreadyExists,
    TransactionValidity(TransactionValidityError),
}

impl ExecutorError {
    /// A short account of the error for events and provisional outcomes.
    pub fn describe(&self) -> (r: String) {
        match self {
            ExecutorError::MintMissing => "MintMissing".to_owned(),
            ExecutorError::MintIsNotLastTransaction => "MintIsNotLastTransaction".to_owned(),
            ExecutorError::MintHasUnexpectedIndex => "MintHasUnexpectedIndex".to_owned(),
            ExecutorError::MintMismatch => "MintMismatch".to_owned(),
            ExecutorError::CoinbaseAmountMismatch => "CoinbaseAmountMismatch".to_owned(),
            ExecutorError::CoinbaseGasPriceMismatch => "CoinbaseGasPriceMismatch".to_owned(),
            ExecutorError::CoinbaseCannotIncreaseBalance(_) =>
                "CoinbaseCannotIncreaseBalance".to_owned(),
            ExecutorError::TransactionIdCollision(_) => "TransactionIdCollision".to_owned(),
            ExecutorError::TransactionExpired(_, _) => "TransactionExpired".to_owned(),
            ExecutorError::TooManyTransactions => "TooManyTransactions".to_owned(),
            ExecutorError::TooManyOutputs => "TooManyOutputs".to_owned(),
            ExecutorError::GasOverflow(_, _, _) => "GasOverflow".to_owned(),
            ExecutorError::TxSizeOverflow => "TxSizeOverflow".to_owned(),
            ExecutorError::FeeOverflow => "FeeOverflow".to_owned(),
            ExecutorError::InvalidTransactionOutcome(_) =>
                "InvalidTransactionOutcome".to_owned(),
            ExecutorError::BlockMismatch => "BlockMismatch".to_owned(),
            ExecutorError::BlockHeaderError(_) => "BlockHeaderError".to_owned(),
            ExecutorError::ConsensusParametersNotFound(_) =>
                "ConsensusParametersNotFound".to_owned(),
            ExecutorError::ExecutingGenesisBlock => "ExecutingGenesisBlock".to_owned(),
            ExecutorError::PreviousBlockIsNotFound => "PreviousBlockIsNotFound".to_owned(),
            ExecutorError::DaHeightExceededItsLimit => "DaHeightExceededItsLimit".to_owned(),
            ExecutorError::RelayerError(_) => "RelayerError".to_owned(),
            ExecutorError::RelayerGivesIncorrectMessages =>
                "RelayerGivesIncorrectMessages".to_owned(),
            ExecutorError::MessageDoesNotExist(_) => "MessageDoesNotExist".to_owned(),
            ExecutorError::OutputAlreadyExists => "OutputAlreadyExists".to_owned(),
            ExecutorError::TransactionValidity(v) => match v {
                TransactionValidityError::CoinDoesNotExist(_) => "CoinDoesNotExist".to_owned(),
                TransactionValidityError::CoinMismatch(_) => "CoinMismatch".to_owned(),
                TransactionValidityError::ContractDoesNotExist(_) =>
                    "ContractDoesNotExist".to_owned(),
                TransactionValidityError::MessageDoesNotExist(_) =>
                    "MessageDoesNotExist".to_owned(),
                TransactionValidityError::MessageMismatch(_) => "MessageMismatch".to_owned(),
                TransactionValidityError::MessageSpendTooEarly(_) =>
                    "MessageSpendTooEarly".to_owned(),
                TransactionValidityError::InvalidContractInputIndex(_) =>
                    "InvalidContractInputIndex".to_owned(),
                TransactionValidityError::Validation(_) => "Validation".to_owned(),
            },
        }
    }
}

/// Why a forced transaction from L1 was not accepted; never fatal, surfaced
/// as an event.
#[derive(Debug)]
pub enum ForcedTransactionFailure {
    CodecError,
    InvalidTransactionType,
    InsufficientMaxGas { claimed_max_gas: u64, actual_max_gas: u64 },
    CheckError(String),
}

impl ForcedTransactionFailure {
    /// The fixed account of each refusal; the insufficient-gas text names
    /// the refusal for observers of the failure event.
    pub fn describe(&self) -> (r: String)
        ensures
            *self is CodecError ==> r@ == "CodecError"@,
            *self is InvalidTransactionType ==> r@ == "InvalidTransactionType"@,
            *self is InsufficientMaxGas
                ==> r@ == "InsufficientMaxGas: claimed max gas is below the actual max gas"@,
            *self is CheckError ==> r@ == "CheckError"@,
    {
        match self {
            ForcedTransactionFailure::CodecError => "CodecError".to_owned(),
            ForcedTransactionFailure::InvalidTransactionType =>
                "InvalidTransactionType".to_owned(),
            ForcedTransactionFailure::InsufficientMaxGas { .. } =>
                "InsufficientMaxGas: claimed max gas is below the actual max gas".to_owned(),
            ForcedTransactionFailure::CheckError(_) => "CheckError".to_owned(),
        }
    }
}

/// What happened while executing a block, in order.
#[derive(Debug)]
pub enum ExecutorEvent {
    MessageImported(Message),
    MessageConsumed(Message),
    CoinCreated(CompressedCoin, UtxoId),
    CoinConsumed(CompressedCoin, UtxoId),
    ForcedTransactionFailed { id: u64, block_height: u32, failure: String },
}

/// The recorded outcome of one executed transaction.
#[derive(Debug)]
pub enum TransactionExecutionResult {
    Success { receipts: Vec<Receipt>, total_gas: u64, total_fee: u64 },
    Failed { receipts: Vec<Receipt>, total_gas: u64, total_fee: u64 },
}

impl TransactionExecutionResult {
    pub open spec fn total_fee_spec(self) -> u64 {
        match self {
            TransactionExecutionResult::Success { total_fee, .. } => total_fee,
            TransactionExecutionResult::Failed { total_fee, .. } => total_fee,
        }
    }

    pub open spec fn total_gas_spec(self) -> u64 {
        match self {
            TransactionExecutionResult::Success { total_gas, .. } => total_gas,
            TransactionExecutionResult::Failed { total_gas, .. } => total_gas,
        }
    }
}

#[derive(Debug)]
pub struct TransactionExecutionStatus {
    pub id: u64,
    pub result: TransactionExecutionResult,
}

/// The fees settled by the recorded statuses, in order.
pub open spec fn fee_sum(s: Seq<TransactionExecutionStatus>) -> nat
    decreases s.len(),
{
    if s.len() == 0 {
        0
    } else {
        fee_sum(s.drop_last()) + s.last().result.total_fee_spec() as nat
    }
}

/// Data that accrues while the block's transactions execute.
pub struct ExecutionData {
    pub coinbase: u64,
    pub used_gas: u64,
    pub used_size: u32,
    pub tx_count: u16,
    pub found_mint: bool,
    pub message_ids: Vec<u64>,
    pub tx_status: Vec<TransactionExecutionStatus>,
    pub events: Vec<ExecutorEvent>,
    pub skipped_transactions: Vec<(u64, ExecutorError)>,
    pub event_inbox_root: u64,
    pub l1_leaves: Ghost<Seq<u64>>,
}

impl ExecutionData {
    /// The accumulated coinbase is exactly the fees of the recorded statuses.
    pub open spec fn fees_consistent(self) -> bool {
        self.coinbase as nat == fee_sum(self.tx_status@)
    }

    /// The recorded event-inbox root is the root over the recorded leaves.
    pub open spec fn root_consistent(self) -> bool {
        self.event_inbox_root == crate::merkle::merkle_root(self.l1_leaves@)
    }

    pub fn new() -> (r: ExecutionData)
        ensures
            r.coinbase == 0,
            r.used_gas == 0,
            r.used_size == 0,
            r.tx_count == 0,
            !r.found_mint,
            r.message_ids@.len() == 0,
            r.tx_status@.len() == 0,
            r.events@.len() == 0,
            r.skipped_transactions@.len() == 0,
            r.event_inbox_root == 0,
            r.l1_leaves@ == Seq::<u64>::empty(),
            r.fees_consistent(),
            r.root_consistent(),
    {
        let r = ExecutionData {
            coinbase: 0,
            used_gas: 0,
            used_size: 0,
            tx_count: 0,
            found_mint: false,
            message_ids: Vec::new(),
            tx_status: Vec::new(),
            events: Vec::new(),
            skipped_transactions: Vec::new(),
            event_inbox_root: 0,
            l1_leaves: Ghost(Seq::empty()),
        };
        proof {
            assert(crate::merkle::merkle_root(Seq::<u64>::empty()) == 0);
        }
        r
    }
}

/// Per-block execution options.
#[derive(PartialEq, Eq, Structural, Clone, Copy, Debug)]
pub struct ExecutionOptions {
    /// When set, inputs must exist and match the stored records; when clear,
    /// missing coins are synthesised from the input's own fields.
    pub forbid_fake_coins: bool,
    /// Kept for compatibility; does nothing.
    pub backtrace: bool,
}

/// The components a block is produced from.
pub struct Components<TxSource> {
    pub header_to_produce: PartialBlockHeader,
    pub transactions_source: TxSource,
    pub coinbase_recipient: u64,
    pub gas_price: u64,
}

/// The outcome of producing a block, before anything is committed.
pub struct ExecutionResult {
    pub block: Block,
    pub skipped_transactions: Vec<(u64, ExecutorError)>,
    pub tx_status: Vec<TransactionExecutionStatus>,
    pub events: Vec<ExecutorEvent>,
}

/// The outcome of validating a block, before anything is committed.
pub struct ValidationResult {
    pub tx_status: Vec<TransactionExecutionStatus>,
    pub events: Vec<ExecutorEvent>,
}

/// A produced block together with the state it leaves behind, not yet
/// committed to any store.
pub struct UncommittedResult {
    pub result: ExecutionResult,
    pub state: ExecState,
}

/// A validated block's outcome together with the state it leaves behind.
pub struct UncommittedValidationResult {
    pub result: ValidationResult,
    pub state: ExecState,
}

/// Helpers over input views.

/// The coin a coin input spends, if this is one.
pub open spec fn input_coin_utxo(iv: crate::tx::InputV) -> Option<UtxoId> {
    match iv {
        crate::tx::InputV::CoinSigned { utxo_id, .. } => Some(utxo_id),
        crate::tx::InputV::CoinPredicate { utxo_id, .. } => Some(utxo_id),
        _ => None,
    }
}

/// The nonce a message input spends, if this is one.
pub open spec fn input_message_nonce(iv: crate::tx::InputV) -> Option<u64> {
    match iv {
        crate::tx::InputV::MessageCoinSigned { nonce, .. } => Some(nonce),
        crate::tx::InputV::MessageCoinPredicate { nonce, .. } => Some(nonce),
        crate::tx::InputV::MessageDataSigned { nonce, .. } => Some(nonce),
        crate::tx::InputV::MessageDataPredicate { nonce, .. } => Some(nonce),
        _ => None,
    }
}

/// Retryable message inputs carry payload data.
pub open spec fn input_is_retryable(iv: crate::tx::InputV) -> bool {
    iv is MessageDataSigned || iv is MessageDataPredicate
}

/// The view of a vector of inputs.
pub open spec fn inputs_view(inputs: Seq<Input>) -> Seq<crate::tx::InputV> {
    Seq::new(inputs.len(), |i: int| inputs[i].view_input())
}

/// Does some input of the sequence spend this coin table key?
pub open spec fn spends_coin(ivs: Seq<crate::tx::InputV>, ck: u128) -> bool {
    exists|i: int|
        0 <= i < ivs.len() && input_coin_utxo(#[trigger] ivs[i]) is Some
            && utxo_key_spec(input_coin_utxo(ivs[i])->0) == ck
}

/// Does some input of the sequence consume this message nonce, given the
/// revert verdict? A retryable message input does not consume when the
/// transaction reverts.
pub open spec fn spends_message(ivs: Seq<crate::tx::InputV>, reverted: bool, nk: u128) -> bool {
    exists|i: int|
        0 <= i < ivs.len() && input_message_nonce(#[trigger] ivs[i]) is Some
            && input_message_nonce(ivs[i])->0 as u128 == nk
            && !(input_is_retryable(ivs[i]) && reverted)
}

/// What spending a list of inputs leaves behind: the coin table, the
/// message table, and the events appended — or nothing, where a record a
/// consuming input demands is absent.
pub ghost struct SpendOutcome {
    pub coins: Map<u128, CompressedCoin>,
    pub messages: Map<u128, crate::tx::Message>,
    pub events: Seq<ExecutorEvent>,
}

pub open spec fn prepend_event(e: ExecutorEvent, o: Option<SpendOutcome>) -> Option<
    SpendOutcome,
> {
    match o {
        Some(t) => Some(SpendOutcome {
            coins: t.coins,
            messages: t.messages,
            events: seq![e] + t.events,
        }),
        None => None,
    }
}

pub open spec fn spend_trace(
    ivs: Seq<crate::tx::InputV>,
    coins: Map<u128, CompressedCoin>,
    messages: Map<u128, crate::tx::Message>,
    reverted: bool,
    forbid: bool,
) -> Option<SpendOutcome>
    decreases ivs.len(), 0int,
{
    if ivs.len() == 0 {
        Some(SpendOutcome { coins, messages, events: Seq::empty() })
    } else {
        let rest = ivs.skip(1);
        match ivs[0] {
            crate::tx::InputV::CoinSigned { utxo_id, owner, amount, asset_id, .. } =>
                spend_coin_trace(
                    utxo_id, owner, amount, asset_id, rest, coins, messages, reverted, forbid),
            crate::tx::InputV::CoinPredicate { utxo_id, owner, amount, asset_id, .. } =>
                spend_coin_trace(
                    utxo_id, owner, amount, asset_id, rest, coins, messages, reverted, forbid),
            crate::tx::InputV::Contract(_) => spend_trace(rest, coins, messages, reverted, forbid),
            crate::tx::InputV::MessageDataSigned { nonce, .. } => if reverted {
                spend_trace(rest, coins, messages, reverted, forbid)
            } else {
                spend_message_trace(nonce, rest, coins, messages, reverted, forbid)
            },
            crate::tx::InputV::MessageDataPredicate { nonce, .. } => if reverted {
                spend_trace(rest, coins, messages, reverted, forbid)
            } else {
                spend_message_trace(nonce, rest, coins, messages, reverted, forbid)
            },
            crate::tx::InputV::MessageCoinSigned { nonce, .. } =>
                spend_message_trace(nonce, rest, coins, messages, reverted, forbid),
            crate::tx::InputV::MessageCoinPredicate { nonce, .. } =>
                spend_message_trace(nonce, rest, coins, messages, reverted, forbid),
        }
    }
}

/// A coin input consumes the stored coin, or a default one synthesised from
/// its own fields when the record is absent and fake inputs are allowed.
pub open spec fn spend_coin_trace(
    utxo_id: UtxoId,
    owner: u64,
    amount: u64,
    asset_id: u64,
    rest: Seq<crate::tx::InputV>,
    coins: Map<u128, CompressedCoin>,
    messages: Map<u128, crate::tx::Message>,
    reverted: bool,
    forbid: bool,
) -> Option<SpendOutcome>
    decreases rest.len(), 1int,
{
    let k = utxo_key_spec(utxo_id);
    if coins.contains_key(k) {
        prepend_event(
            ExecutorEvent::CoinConsumed(coins[k], utxo_id),
            spend_trace(rest, coins.remove(k), messages, reverted, forbid),
        )
    } else if forbid {
        None
    } else {
        prepend_event(
            ExecutorEvent::CoinConsumed(
                CompressedCoin {
                    owner,
                    amount,
                    asset_id,
                    tx_pointer: TxPointer { block_height: 0, tx_index: 0 },
                },
                utxo_id,
            ),
            spend_trace(rest, coins, messages, reverted, forbid),
        )
    }
}

/// A consuming message input takes the stored message out; a missing record
/// stops the spend.
pub open spec fn spend_message_trace(
    nonce: u64,
    rest: Seq<crate::tx::InputV>,
    coins: Map<u128, CompressedCoin>,
    messages: Map<u128, crate::tx::Message>,
    reverted: bool,
    forbid: bool,
) -> Option<SpendOutcome>
    decreases rest.len(), 1int,
{
    if messages.contains_key(nonce as u128) {
        prepend_event(
            ExecutorEvent::MessageConsumed(messages[nonce as u128]),
            spend_trace(rest, coins, messages.remove(nonce as u128), reverted, forbid),
        )
    } else {
        None
    }
}

/// The error the spend answers with when its trace fails: the first
/// consuming input whose record is absent names itself.
pub open spec fn spend_error(
    ivs: Seq<crate::tx::InputV>,
    coins: Map<u128, CompressedCoin>,
    messages: Map<u128, crate::tx::Message>,
    reverted: bool,
    forbid: bool,
) -> ExecutorError
    decreases ivs.len(),
{
    if ivs.len() == 0 {
        ExecutorError::MessageDoesNotExist(0)
    } else {
        let rest = ivs.skip(1);
        match ivs[0] {
            crate::tx::InputV::CoinSigned { utxo_id, .. } => {
                let k = utxo_key_spec(utxo_id);
                if coins.contains_key(k) {
                    spend_error(rest, coins.remove(k), messages, reverted, forbid)
                } else if forbid {
                    ExecutorError::TransactionValidity(
                        TransactionValidityError::CoinDoesNotExist(utxo_id))
                } else {
                    spend_error(rest, coins, messages, reverted, forbid)
                }
            },
            crate::tx::InputV::CoinPredicate { utxo_id, .. } => {
                let k = utxo_key_spec(utxo_id);
                if coins.contains_key(k) {
                    spend_error(rest, coins.remove(k), messages, reverted, forbid)
                } else if forbid {
                    ExecutorError::TransactionValidity(
                        TransactionValidityError::CoinDoesNotExist(utxo_id))
                } else {
                    spend_error(rest, coins, messages, reverted, forbid)
                }
            },
            crate::tx::InputV::Contract(_) => spend_error(
                rest, coins, messages, reverted, forbid),
            crate::tx::InputV::MessageDataSigned { nonce, .. } => if reverted {
                spend_error(rest, coins, messages, reverted, forbid)
            } else if messages.contains_key(nonce as u128) {
                spend_error(rest, coins, messages.remove(nonce as u128), reverted, forbid)
            } else {
                ExecutorError::MessageDoesNotExist(nonce)
            },
            crate::tx::InputV::MessageDataPredicate { nonce, .. } => if reverted {
                spend_error(rest, coins, messages, reverted, forbid)
            } else if messages.contains_key(nonce as u128) {
                spend_error(rest, coins, messages.remove(nonce as u128), reverted, forbid)
            } else {
                ExecutorError::MessageDoesNotExist(nonce)
            },
            crate::tx::InputV::MessageCoinSigned { nonce, .. } => if messages.contains_key(
                nonce as u128) {
                spend_error(rest, coins, messages.remove(nonce as u128), reverted, forbid)
            } else {
                ExecutorError::MessageDoesNotExist(nonce)
            },
            crate::tx::InputV::MessageCoinPredicate { nonce, .. } => if messages.contains_key(
                nonce as u128) {
                spend_error(rest, coins, messages.remove(nonce as u128), reverted, forbid)
            } else {
                ExecutorError::MessageDoesNotExist(nonce)
            },
        }
    }
}

pub open spec fn prepend_events(pre: Seq<ExecutorEvent>, o: Option<SpendOutcome>) -> Option<
    SpendOutcome,
> {
    match o {
        Some(t) => Some(SpendOutcome {
            coins: t.coins,
            messages: t.messages,
            events: pre + t.events,
        }),
        None => None,
    }
}

/// Folding one event into the accumulated prefix commutes with prepending.
proof fn lemma_prepend_shift(pre: Seq<ExecutorEvent>, e: ExecutorEvent, o: Option<SpendOutcome>)
    ensures
        prepend_events(pre, prepend_event(e, o)) == prepend_events(pre.push(e), o),
{
    match o {
        Some(t) => {
            assert(pre + (seq![e] + t.events) =~= pre.push(e) + t.events);
        },
        None => {},
    }
}

/// The contract one output records, if it records one: a contract output
/// through its named contract input slot, a created contract directly.
pub open spec fn output_contract_id(ov: Output, ivs: Seq<crate::tx::InputV>) -> Option<u64> {
    match ov {
        Output::Contract(co) => if 0 <= (co.input_index as int) < ivs.len()
            && ivs[co.input_index as int] is Contract {
            Some(ivs[co.input_index as int]->Contract_0.contract_id)
        } else {
            None
        },
        Output::ContractCreated { contract_id, .. } => Some(contract_id),
        _ => None,
    }
}

pub open spec fn touches_contract(
    outputs: Seq<Output>,
    ivs: Seq<crate::tx::InputV>,
    cid: u64,
) -> bool {
    exists|j: int|
        0 <= j < outputs.len() && output_contract_id(#[trigger] outputs[j], ivs) == Some(cid)
}

/// Can every output be persisted? Valuable coin-like outputs need a free
/// slot, and every contract output must name a contract input slot.
pub open spec fn persist_possible(
    outputs: Seq<Output>,
    ivs: Seq<crate::tx::InputV>,
    coins: Map<u128, CompressedCoin>,
    tx_id: u64,
) -> bool {
    &&& outputs_well_aimed(outputs, ivs)
    &&& forall|m: int|
        0 <= m < outputs.len() && (#[trigger] outputs[m]).coin_fields() is Some
            && (outputs[m].coin_fields()->0).1 > 0
            ==> !coins.contains_key(
                utxo_key_spec(UtxoId { tx_id, output_index: m as u16 }))
}

/// The error the persist answers with: the first output that cannot be
/// persisted names its cause — a taken coin slot, or a contract output
/// aimed at no contract input.
pub open spec fn persist_error_from(
    outputs: Seq<Output>,
    ivs: Seq<crate::tx::InputV>,
    coins: Map<u128, CompressedCoin>,
    tx_id: u64,
    m: int,
) -> ExecutorError
    decreases outputs.len() - m,
{
    if m < 0 || m >= outputs.len() {
        ExecutorError::OutputAlreadyExists
    } else if outputs[m].coin_fields() is Some && (outputs[m].coin_fields()->0).1 > 0
        && coins.contains_key(utxo_key_spec(UtxoId { tx_id, output_index: m as u16 })) {
        ExecutorError::OutputAlreadyExists
    } else if outputs[m] is Contract
        && !(0 <= outputs[m]->Contract_0.input_index < ivs.len()
            && ivs[outputs[m]->Contract_0.input_index as int] is Contract) {
        ExecutorError::TransactionValidity(
            TransactionValidityError::InvalidContractInputIndex(
                UtxoId { tx_id, output_index: m as u16 }))
    } else {
        persist_error_from(outputs, ivs, coins, tx_id, m + 1)
    }
}

/// Outputs that pass up to a point leave the first failure beyond it.
proof fn lemma_persist_error_skip(
    outputs: Seq<Output>,
    ivs: Seq<crate::tx::InputV>,
    coins: Map<u128, CompressedCoin>,
    tx_id: u64,
    a: int,
    b: int,
)
    requires
        0 <= a <= b <= outputs.len(),
        forall|m: int| a <= m < b ==> !((#[trigger] outputs[m]).coin_fields() is Some
            && (outputs[m].coin_fields()->0).1 > 0
            && coins.contains_key(utxo_key_spec(UtxoId { tx_id, output_index: m as u16 }))),
        forall|m: int| a <= m < b ==> !((#[trigger] outputs[m]) is Contract
            && !(0 <= outputs[m]->Contract_0.input_index < ivs.len()
                && ivs[outputs[m]->Contract_0.input_index as int] is Contract)),
    ensures
        persist_error_from(outputs, ivs, coins, tx_id, a)
            == persist_error_from(outputs, ivs, coins, tx_id, b),
    decreases b - a,
{
    if a < b {
        lemma_persist_error_skip(outputs, ivs, coins, tx_id, a + 1, b);
    }
}

/// The coin-creation events the first `n` outputs emit, in order.
pub open spec fn persist_events(
    outputs: Seq<Output>,
    tx_id: u64,
    ptr: TxPointer,
    n: int,
) -> Seq<ExecutorEvent>
    decreases n,
{
    if n <= 0 {
        Seq::empty()
    } else {
        let rest = persist_events(outputs, tx_id, ptr, n - 1);
        match outputs[n - 1].coin_fields() {
            Some(f) => if f.1 > 0 {
                rest.push(ExecutorEvent::CoinCreated(
                    CompressedCoin {
                        owner: f.0,
                        amount: f.1,
                        asset_id: f.2,
                        tx_pointer: ptr,
                    },
                    UtxoId { tx_id, output_index: (n - 1) as u16 },
                ))
            } else {
                rest
            },
            None => rest,
        }
    }
}

/// The contract's balance of an asset, zero when no cell is stored.
pub open spec fn balance_before(balances: Map<u128, u64>, contract_id: u64, asset_id: u64) -> u64 {
    let key = crate::assoc::asset_key_spec(contract_id, asset_id);
    if balances.contains_key(key) {
        balances[key]
    } else {
        0
    }
}

/// The contract record after its balance tree takes one deposit: the balance
/// root rolls forward over the asset and the new amount; a contract without
/// a record starts from the zero record.
pub open spec fn balance_increased_meta(
    contracts: Map<u128, ContractMeta>,
    contract_id: u64,
    asset_id: u64,
    new_amount: u64,
) -> ContractMeta {
    let base = if contracts.contains_key(contract_id as u128) {
        contracts[contract_id as u128]
    } else {
        ContractMeta {
            utxo_id: UtxoId { tx_id: 0, output_index: 0 },
            tx_pointer: TxPointer { block_height: 0, tx_index: 0 },
            balance_root: 0,
            state_root: 0,
        }
    };
    ContractMeta {
        utxo_id: base.utxo_id,
        tx_pointer: base.tx_pointer,
        balance_root: crate::merkle::mix(
            crate::merkle::mix(base.balance_root, asset_id), new_amount),
        state_root: base.state_root,
    }
}

/// The revert verdict of one chargeable transaction: its own, or the forced
/// revert a permissive dry run adds on a missing contract input.
pub open spec fn chargeable_reverts(tx: ChargeableTx, st: ExecState, dry_run: bool) -> bool {
    tx.reverts || (dry_run && has_missing_contract(inputs_view(tx.inputs@), st.contracts@))
}

/// The receipts one chargeable transaction settles with: its own, extended
/// by a permissive dry run's synthesised panics.
pub open spec fn chargeable_receipts(tx: ChargeableTx, st: ExecState, dry_run: bool) -> Seq<
    Receipt,
> {
    tx.receipts@ + (if dry_run {
        missing_contract_panics(
            inputs_view(tx.inputs@), st.contracts@, tx.inputs@.len() as int)
    } else {
        Seq::<Receipt>::empty()
    })
}

/// Can this chargeable transaction execute against the state? Under strict
/// checking every input must be backed; the malleable fields must be
/// computable; every contract output must aim at a contract input; the
/// spend must find every demanded record; every created coin slot must be
/// free; and the fee arithmetic must stay inside the type.
pub open spec fn chargeable_ok(
    tx: ChargeableTx,
    st: ExecState,
    da_height: u64,
    coinbase: u64,
    used_gas: u64,
    used_size: u32,
    gas_price: u64,
    forbid: bool,
    dry_run: bool,
) -> bool {
    let ivs0 = inputs_view(tx.inputs@);
    let cviews = computed_views(tx.inputs@, st.coins@, st.contracts@, forbid);
    let rev = chargeable_reverts(tx, st, dry_run);
    let rcpts = chargeable_receipts(tx, st, dry_run);
    &&& (forbid ==> forall|m: int|
        0 <= m < ivs0.len() ==> input_acceptable(
            #[trigger] ivs0[m], st.coins@, st.contracts@,
            st.view_state().messages, da_height))
    &&& (forall|m: int|
        0 <= m < ivs0.len() ==> compute_input_possible(
            #[trigger] ivs0[m], st.coins@, st.contracts@, forbid))
    &&& outputs_well_aimed(tx.outputs@, cviews)
    &&& spend_trace(cviews, st.coins@, st.messages@, rev, forbid) is Some
    &&& tx.outputs@.len() <= u16::MAX
    &&& persist_possible(
        tx.outputs@, cviews,
        spend_trace(cviews, st.coins@, st.messages@, rev, forbid)->0.coins, tx.tx_id)
    &&& (match fee_outcome(tx, rcpts, gas_price) {
        Some(pair) => {
            &&& coinbase + pair.1 <= u64::MAX
            &&& used_gas + pair.0 <= u64::MAX
            &&& used_size + tx.size <= u32::MAX
        },
        None => false,
    })
}

/// Outputs with the same coin fields create the same coins in the same
/// order; recomputed contract roots do not matter to coin creation.
proof fn lemma_persist_events_congruence(
    o1: Seq<Output>,
    o2: Seq<Output>,
    tx_id: u64,
    ptr: TxPointer,
    n: int,
)
    requires
        o1.len() == o2.len(),
        forall|m: int| 0 <= m < o1.len()
            ==> (#[trigger] o1[m]).coin_fields() == o2[m].coin_fields(),
        n <= o1.len(),
    ensures
        persist_events(o1, tx_id, ptr, n) == persist_events(o2, tx_id, ptr, n),
    decreases n,
{
    if n > 0 {
        lemma_persist_events_congruence(o1, o2, tx_id, ptr, n - 1);
    }
}

/// Can this transaction execute against the state at this point of the
/// block? The mint must still be owed, the identifier fresh, the
/// transaction unexpired, and its variant's own conditions met.
pub open spec fn exec_tx_ok(
    tx: MaybeCheckedTransaction,
    st: ExecState,
    header: PartialBlockHeader,
    coinbase: u64,
    used_gas: u64,
    used_size: u32,
    tx_count: u16,
    found_mint: bool,
    gas_price: u64,
    forbid: bool,
    dry_run: bool,
) -> bool {
    &&& !found_mint
    &&& !st.processed@.contains_key(tx.id_spec() as u128)
    &&& header.height <= tx.tx_spec().expiration_spec()
    &&& (match tx.tx_spec() {
        Transaction::Mint(m) => mint_ok(m, st, coinbase, tx_count, gas_price, forbid),
        Transaction::Script(body) => chargeable_ok(
            body, st, header.da_height, coinbase, used_gas, used_size, gas_price,
            forbid, dry_run),
        Transaction::Create(body) => chargeable_ok(
            body, st, header.da_height, coinbase, used_gas, used_size, gas_price,
            forbid, dry_run),
        Transaction::Upgrade(body) => chargeable_ok(
            body, st, header.da_height, coinbase, used_gas, used_size, gas_price,
            forbid, dry_run),
        Transaction::Upload(body) => chargeable_ok(
            body, st, header.da_height, coinbase, used_gas, used_size, gas_price,
            forbid, dry_run),
        Transaction::Blob(body) => chargeable_ok(
            body, st, header.da_height, coinbase, used_gas, used_size, gas_price,
            forbid, dry_run),
    })
}

/// The identifier the produced mint commits to its fields with.
pub open spec fn produced_mint_id(
    block_height: u32,
    tx_count: u16,
    amount: u64,
    gas_price: u64,
    coinbase_contract_id: u64,
) -> u64 {
    crate::merkle::mix(
        crate::merkle::mix(
            crate::merkle::mix(
                crate::merkle::mix(
                    crate::merkle::mix(3, block_height as u64), tx_count as u64),
                amount),
            gas_price),
        coinbase_contract_id,
    )
}

/// The mint the producer builds: positioned at the block's tail, priced as
/// the block, settling the accrued fees — or nothing, for the zero
/// recipient — in the base asset, with the canonical zero contract forms to
/// be filled in by execution.
pub open spec fn produced_mint_spec(
    block_height: u32,
    tx_count: u16,
    amount: u64,
    asset: u64,
    gas_price: u64,
    coinbase_contract_id: u64,
) -> MintTx {
    MintTx {
        tx_id: produced_mint_id(block_height, tx_count, amount, gas_price,
            coinbase_contract_id),
        tx_pointer: TxPointer { block_height, tx_index: tx_count },
        input_contract: ContractInput {
            utxo_id: UtxoId { tx_id: 0, output_index: 0 },
            balance_root: 0,
            state_root: 0,
            tx_pointer: TxPointer { block_height: 0, tx_index: 0 },
            contract_id: coinbase_contract_id,
        },
        output_contract: ContractOutput { input_index: 0, balance_root: 0, state_root: 0 },
        mint_amount: amount,
        mint_asset_id: asset,
        gas_price,
    }
}

/// The receipts a recorded outcome carries.
pub open spec fn result_receipts(result: TransactionExecutionResult) -> Seq<Receipt> {
    match result {
        TransactionExecutionResult::Success { receipts, .. } => receipts@,
        TransactionExecutionResult::Failed { receipts, .. } => receipts@,
    }
}

/// Can this mint execute against the state? Its position, gas price and
/// amount must be right, a zero-contract mint must be canonical, any other
/// must fit the coinbase contract's balance (and, under strict checking,
/// find the contract), and its identifier must be fresh.
pub open spec fn mint_ok(
    mint: MintTx,
    st: ExecState,
    coinbase: u64,
    tx_count: u16,
    gas_price: u64,
    forbid: bool,
) -> bool {
    &&& mint.tx_pointer.tx_index == tx_count
    &&& mint.gas_price == gas_price
    &&& (if mint.input_contract.contract_id == 0 {
        &&& mint.mint_amount == 0
        &&& mint.input_contract == canonical_zero_contract_input()
        &&& mint.output_contract == canonical_zero_contract_output()
    } else {
        &&& mint.mint_amount == coinbase
        &&& (forbid ==> st.contracts@.contains_key(
            mint.input_contract.contract_id as u128))
        &&& balance_before(
            st.balances@, mint.input_contract.contract_id, mint.mint_asset_id)
            + mint.mint_amount <= u64::MAX
    })
    &&& !st.processed@.contains_key(mint.tx_id as u128)
}

/// The inputs' views with their malleable fields computed from storage.
pub open spec fn computed_views(
    inputs: Seq<Input>,
    coins: Map<u128, CompressedCoin>,
    contracts: Map<u128, ContractMeta>,
    forbid: bool,
) -> Seq<crate::tx::InputV> {
    Seq::new(
        inputs.len(),
        |i: int| compute_input_spec(inputs[i].view_input(), coins, contracts, forbid),
    )
}

/// Does some contract input name a contract the state does not hold?
pub open spec fn has_missing_contract(
    ivs: Seq<crate::tx::InputV>,
    contracts: Map<u128, ContractMeta>,
) -> bool {
    exists|m: int|
        0 <= m < ivs.len() && (#[trigger] ivs[m]) is Contract
            && !contracts.contains_key(ivs[m]->Contract_0.contract_id as u128)
}

/// The panic receipts a permissive dry run synthesises for the first `n`
/// inputs' missing contracts, in input order.
pub open spec fn missing_contract_panics(
    ivs: Seq<crate::tx::InputV>,
    contracts: Map<u128, ContractMeta>,
    n: int,
) -> Seq<Receipt>
    decreases n,
{
    if n <= 0 {
        Seq::empty()
    } else {
        let rest = missing_contract_panics(ivs, contracts, n - 1);
        match ivs[n - 1] {
            crate::tx::InputV::Contract(ci) => if !contracts.contains_key(
                ci.contract_id as u128) {
                rest.push(Receipt::Panic { contract_id: ci.contract_id })
            } else {
                rest
            },
            _ => rest,
        }
    }
}

/// Extending an output prefix extends the touched contracts by exactly the
/// one the new output records.
proof fn lemma_touch_step(outputs: Seq<Output>, ivs: Seq<crate::tx::InputV>, i: int)
    requires
        0 <= i < outputs.len(),
    ensures
        forall|cid: u64|
            #[trigger] touches_contract(outputs.take(i + 1), ivs, cid)
                <==> (touches_contract(outputs.take(i), ivs, cid)
                    || output_contract_id(outputs[i], ivs) == Some(cid)),
{
    assert forall|cid: u64|
        #[trigger] touches_contract(outputs.take(i + 1), ivs, cid)
            <==> (touches_contract(outputs.take(i), ivs, cid)
                || output_contract_id(outputs[i], ivs) == Some(cid)) by {
        if touches_contract(outputs.take(i + 1), ivs, cid) {
            let j = choose|j: int|
                0 <= j < i + 1 && output_contract_id(
                    #[trigger] outputs.take(i + 1)[j], ivs) == Some(cid);
            assert(outputs.take(i + 1)[j] == outputs[j]);
            if j < i {
                assert(outputs.take(i as int)[j] == outputs[j]);
                assert(touches_contract(outputs.take(i), ivs, cid));
            }
        }
        if touches_contract(outputs.take(i), ivs, cid) {
            let j = choose|j: int|
                0 <= j < i && output_contract_id(
                    #[trigger] outputs.take(i as int)[j], ivs) == Some(cid);
            assert(outputs.take(i + 1)[j] == outputs.take(i as int)[j]);
        }
        if output_contract_id(outputs[i], ivs) == Some(cid) {
            assert(outputs.take(i + 1)[i] == outputs[i]);
        }
    }
}

/// Is one input backed by the stored records: the coin exists and matches,
/// the contract exists, the message exists, matches, and does not spend
/// ahead of the block's data-availability height?
pub open spec fn input_acceptable(
    iv: crate::tx::InputV,
    coins: Map<u128, CompressedCoin>,
    contracts: Map<u128, ContractMeta>,
    messages: Map<u128, crate::tx::MessageV>,
    block_da_height: u64,
) -> bool {
    match iv {
        crate::tx::InputV::CoinSigned { utxo_id, owner, amount, asset_id, .. } => {
            &&& coins.contains_key(utxo_key_spec(utxo_id))
            &&& coins[utxo_key_spec(utxo_id)].owner == owner
            &&& coins[utxo_key_spec(utxo_id)].amount == amount
            &&& coins[utxo_key_spec(utxo_id)].asset_id == asset_id
        },
        crate::tx::InputV::CoinPredicate { utxo_id, owner, amount, asset_id, .. } => {
            &&& coins.contains_key(utxo_key_spec(utxo_id))
            &&& coins[utxo_key_spec(utxo_id)].owner == owner
            &&& coins[utxo_key_spec(utxo_id)].amount == amount
            &&& coins[utxo_key_spec(utxo_id)].asset_id == asset_id
        },
        crate::tx::InputV::Contract(ci) => contracts.contains_key(ci.contract_id as u128),
        crate::tx::InputV::MessageCoinSigned { sender, recipient, amount, nonce, .. } =>
            message_acceptable(
                sender, recipient, amount, nonce, None, messages, block_da_height),
        crate::tx::InputV::MessageCoinPredicate { sender, recipient, amount, nonce, .. } =>
            message_acceptable(
                sender, recipient, amount, nonce, None, messages, block_da_height),
        crate::tx::InputV::MessageDataSigned { sender, recipient, amount, nonce, data, .. } =>
            message_acceptable(
                sender, recipient, amount, nonce, Some(data), messages, block_da_height),
        crate::tx::InputV::MessageDataPredicate {
            sender, recipient, amount, nonce, data, ..
        } => message_acceptable(
            sender, recipient, amount, nonce, Some(data), messages, block_da_height),
    }
}

/// Is one message input backed by its stored message?
pub open spec fn message_acceptable(
    sender: u64,
    recipient: u64,
    amount: u64,
    nonce: u64,
    data: Option<Seq<u8>>,
    messages: Map<u128, crate::tx::MessageV>,
    block_da_height: u64,
) -> bool {
    &&& messages.contains_key(nonce as u128)
    &&& messages[nonce as u128].da_height <= block_da_height
    &&& messages[nonce as u128].sender == sender
    &&& messages[nonce as u128].recipient == recipient
    &&& messages[nonce as u128].amount == amount
    &&& messages[nonce as u128].nonce == nonce
    &&& (match data {
        Some(d) => messages[nonce as u128].data == d,
        None => messages[nonce as u128].data.len() == 0,
    })
}

/// The transaction pointer a computed coin input carries: the stored coin's
/// under strict checking, the zero pointer under permissive checking.
pub open spec fn computed_coin_pointer(
    utxo_id: UtxoId,
    coins: Map<u128, CompressedCoin>,
    forbid: bool,
) -> TxPointer {
    if forbid {
        coins[utxo_key_spec(utxo_id)].tx_pointer
    } else {
        TxPointer { block_height: 0, tx_index: 0 }
    }
}

/// One input with its malleable fields filled from storage.
pub open spec fn compute_input_spec(
    iv: crate::tx::InputV,
    coins: Map<u128, CompressedCoin>,
    contracts: Map<u128, ContractMeta>,
    forbid: bool,
) -> crate::tx::InputV {
    match iv {
        crate::tx::InputV::CoinSigned {
            utxo_id, owner, amount, asset_id, tx_pointer, witness_index,
        } => crate::tx::InputV::CoinSigned {
            utxo_id,
            owner,
            amount,
            asset_id,
            tx_pointer: computed_coin_pointer(utxo_id, coins, forbid),
            witness_index,
        },
        crate::tx::InputV::CoinPredicate {
            utxo_id, owner, amount, asset_id, tx_pointer, predicate_gas_used,
        } => crate::tx::InputV::CoinPredicate {
            utxo_id,
            owner,
            amount,
            asset_id,
            tx_pointer: computed_coin_pointer(utxo_id, coins, forbid),
            predicate_gas_used,
        },
        crate::tx::InputV::Contract(ci) => crate::tx::InputV::Contract(
            if contracts.contains_key(ci.contract_id as u128) {
                ContractInput {
                    utxo_id: contracts[ci.contract_id as u128].utxo_id,
                    balance_root: contracts[ci.contract_id as u128].balance_root,
                    state_root: contracts[ci.contract_id as u128].state_root,
                    tx_pointer: contracts[ci.contract_id as u128].tx_pointer,
                    contract_id: ci.contract_id,
                }
            } else {
                ContractInput {
                    utxo_id: UtxoId { tx_id: 0, output_index: 0 },
                    balance_root: 0,
                    state_root: 0,
                    tx_pointer: TxPointer { block_height: 0, tx_index: 0 },
                    contract_id: ci.contract_id,
                }
            },
        ),
        other => other,
    }
}

/// Can one input's malleable fields be computed? Under strict checking the
/// records it points at must exist.
pub open spec fn compute_input_possible(
    iv: crate::tx::InputV,
    coins: Map<u128, CompressedCoin>,
    contracts: Map<u128, ContractMeta>,
    forbid: bool,
) -> bool {
    match iv {
        crate::tx::InputV::CoinSigned { utxo_id, .. } => !forbid || coins.contains_key(
            utxo_key_spec(utxo_id),
        ),
        crate::tx::InputV::CoinPredicate { utxo_id, .. } => !forbid || coins.contains_key(
            utxo_key_spec(utxo_id),
        ),
        crate::tx::InputV::Contract(ci) => !forbid || contracts.contains_key(
            ci.contract_id as u128,
        ),
        _ => true,
    }
}

/// One output with its roots recomputed from the state after execution.
/// A contract output takes the roots of the contract its input slot names.
pub open spec fn compute_output_spec(
    ov: Output,
    inputs: Seq<crate::tx::InputV>,
    contracts: Map<u128, ContractMeta>,
) -> Output {
    match ov {
        Output::Contract(co) => {
            if 0 <= co.input_index < inputs.len() && inputs[co.input_index as int] is Contract {
                let contract_id = inputs[co.input_index as int]->Contract_0.contract_id;
                if contracts.contains_key(contract_id as u128) {
                    Output::Contract(ContractOutput {
                        input_index: co.input_index,
                        balance_root: contracts[contract_id as u128].balance_root,
                        state_root: contracts[contract_id as u128].state_root,
                    })
                } else {
                    Output::Contract(ContractOutput {
                        input_index: co.input_index,
                        balance_root: 0,
                        state_root: 0,
                    })
                }
            } else {
                ov
            }
        },
        other => other,
    }
}

/// Does every contract output name a contract input slot?
pub open spec fn outputs_well_aimed(
    outputs: Seq<Output>,
    inputs: Seq<crate::tx::InputV>,
) -> bool {
    forall|m: int|
        0 <= m < outputs.len() && (#[trigger] outputs[m]) is Contract
            ==> 0 <= outputs[m]->Contract_0.input_index < inputs.len()
                && inputs[outputs[m]->Contract_0.input_index as int] is Contract
}

/// One input with a saved predicate-gas figure written back into it; inputs
/// without predicates, and slots without a saved figure, stay as they are.
pub open spec fn restore_gas_spec(iv: crate::tx::InputV, saved: Option<u64>) -> crate::tx::InputV {
    match saved {
        None => iv,
        Some(gas) => match iv {
            crate::tx::InputV::CoinPredicate {
                utxo_id, owner, amount, asset_id, tx_pointer, ..
            } => crate::tx::InputV::CoinPredicate {
                utxo_id,
                owner,
                amount,
                asset_id,
                tx_pointer,
                predicate_gas_used: gas,
            },
            crate::tx::InputV::MessageCoinPredicate {
                sender, recipient, amount, nonce, ..
            } => crate::tx::InputV::MessageCoinPredicate {
                sender,
                recipient,
                amount,
                nonce,
                predicate_gas_used: gas,
            },
            crate::tx::InputV::MessageDataPredicate {
                sender, recipient, amount, nonce, data, ..
            } => crate::tx::InputV::MessageDataPredicate {
                sender,
                recipient,
                amount,
                nonce,
                data,
                predicate_gas_used: gas,
            },
            other => other,
        },
    }
}

/// Writing an input's own predicate-gas figure back into it changes nothing.
pub proof fn lemma_restore_identity(iv: crate::tx::InputV)
    ensures
        restore_gas_spec(iv, predicate_gas_of(iv)) == iv,
{
}

/// The predicate-gas figure an input carries, if it is a predicate input.
pub open spec fn predicate_gas_of(iv: crate::tx::InputV) -> Option<u64> {
    match iv {
        crate::tx::InputV::CoinPredicate { predicate_gas_used, .. } =>
            Some(predicate_gas_used),
        crate::tx::InputV::MessageCoinPredicate { predicate_gas_used, .. } =>
            Some(predicate_gas_used),
        crate::tx::InputV::MessageDataPredicate { predicate_gas_used, .. } =>
            Some(predicate_gas_used),
        _ => None,
    }
}

/// The executor with its ports and per-block settings.
pub struct BlockExecutor<R, N, P> {
    pub relayer: R,
    pub consensus_params: ConsensusParameters,
    pub forbid_fake_coins: bool,
    pub dry_run: bool,
    pub new_tx_waiter: N,
    pub preconfirmation_sender: P,
}

impl<R: RelayerPort, N: NewTxWaiterPort, P: PreconfirmationSenderPort> BlockExecutor<R, N, P> {
    /// Builds an executor from its ports and per-block settings.
    pub fn new(
        relayer: R,
        options: ExecutionOptions,
        consensus_params: ConsensusParameters,
        new_tx_waiter: N,
        preconfirmation_sender: P,
        dry_run: bool,
    ) -> (r: Result<BlockExecutor<R, N, P>, ExecutorError>)
        ensures
            r is Ok,
            r->Ok_0.consensus_params == consensus_params,
            r->Ok_0.forbid_fake_coins == options.forbid_fake_coins,
            r->Ok_0.dry_run == dry_run,
    {
        Ok(BlockExecutor {
            relayer,
            consensus_params,
            forbid_fake_coins: options.forbid_fake_coins,
            dry_run,
            new_tx_waiter,
            preconfirmation_sender,
        })
    }

    /// The coin a coin input refers to. With `forbid_fake_coins` the record
    /// must exist, else the spend fails `CoinDoesNotExist`; without it, a
    /// default coin is synthesised from the input's own fields and the
    /// executor proceeds.
    pub fn get_coin_or_default(
        &self,
        state: &ExecState,
        utxo_id: UtxoId,
        owner: u64,
        amount: u64,
        asset_id: u64,
    ) -> (r: Result<CompressedCoin, ExecutorError>)
        requires
            state.wf(),
        ensures
            self.forbid_fake_coins && state.coins@.contains_key(utxo_key_spec(utxo_id))
                ==> r == Ok::<CompressedCoin, ExecutorError>(
                    state.coins@[utxo_key_spec(utxo_id)]),
            self.forbid_fake_coins && !state.coins@.contains_key(utxo_key_spec(utxo_id))
                ==> r == Err::<CompressedCoin, ExecutorError>(
                    ExecutorError::TransactionValidity(
                        TransactionValidityError::CoinDoesNotExist(utxo_id))),
            !self.forbid_fake_coins ==> r == Ok::<CompressedCoin, ExecutorError>(
                CompressedCoin {
                    owner,
                    amount,
                    asset_id,
                    tx_pointer: TxPointer { block_height: 0, tx_index: 0 },
                }),
    {
        if self.forbid_fake_coins {
            match state.coins.get(utxo_key(utxo_id)) {
                Some(c) => Ok(*c),
                None => Err(ExecutorError::TransactionValidity(
                    TransactionValidityError::CoinDoesNotExist(utxo_id),
                )),
            }
        } else {
            Ok(CompressedCoin {
                owner,
                amount,
                asset_id,
                tx_pointer: TxPointer::zeroed(),
            })
        }
    }

    /// Checks every input against the stored records: coins must exist and
    /// match, contracts must exist, messages must exist, match, and not spend
    /// ahead of the block's data-availability height.
    pub fn verify_inputs_exist_and_values_match(
        &self,
        state: &ExecState,
        inputs: &Vec<Input>,
        block_da_height: u64,
    ) -> (r: Result<(), ExecutorError>)
        requires
            state.wf(),
        ensures
            r is Ok <==> forall|m: int|
                0 <= m < inputs@.len() ==> input_acceptable(
                    (#[trigger] inputs@[m]).view_input(),
                    state.view_state().coins,
                    state.view_state().contracts,
                    state.view_state().messages,
                    block_da_height,
                ),
            r is Err ==> r->Err_0 is TransactionValidity,
    {
        let n = inputs.len();
        let mut i: usize = 0;
        while i < n
            invariant
                0 <= i <= n,
                n == inputs@.len(),
                state.wf(),
                forall|m: int| 0 <= m < i ==> input_acceptable(
                    (#[trigger] inputs@[m]).view_input(),
                    state.view_state().coins,
                    state.view_state().contracts,
                    state.view_state().messages,
                    block_da_height,
                ),
            decreases n - i,
        {
            match &inputs[i] {
                Input::CoinSigned { utxo_id, owner, amount, asset_id, .. } => {
                    match state.coins.get(utxo_key(*utxo_id)) {
                        Some(c) => {
                            if !(c.owner == *owner && c.amount == *amount
                                && c.asset_id == *asset_id) {
                                return Err(ExecutorError::TransactionValidity(
                                    TransactionValidityError::CoinMismatch(*utxo_id),
                                ));
                            }
                        },
                        None => {
                            return Err(ExecutorError::TransactionValidity(
                                TransactionValidityError::CoinDoesNotExist(*utxo_id),
                            ));
                        },
                    }
                },
                Input::CoinPredicate { utxo_id, owner, amount, asset_id, .. } => {
                    match state.coins.get(utxo_key(*utxo_id)) {
                        Some(c) => {
                            if !(c.owner == *owner && c.amount == *amount
                                && c.asset_id == *asset_id) {
                                return Err(ExecutorError::TransactionValidity(
                                    TransactionValidityError::CoinMismatch(*utxo_id),
                                ));
                            }
                        },
                        None => {
                            return Err(ExecutorError::TransactionValidity(
                                TransactionValidityError::CoinDoesNotExist(*utxo_id),
                            ));
                        },
                    }
                },
                Input::Contract(ci) => {
                    if !state.contracts.contains_key(ci.contract_id as u128) {
                        return Err(ExecutorError::TransactionValidity(
                            TransactionValidityError::ContractDoesNotExist(ci.contract_id),
                        ));
                    }
                },
                Input::MessageCoinSigned { sender, recipient, amount, nonce, .. } => {
                    match self.check_message(
                        state, *sender, *recipient, *amount, *nonce, None, block_da_height) {
                        Ok(()) => {},
                        Err(e) => {
                            return Err(e);
                        },
                    }
                },
                Input::MessageCoinPredicate { sender, recipient, amount, nonce, .. } => {
                    match self.check_message(
                        state, *sender, *recipient, *amount, *nonce, None, block_da_height) {
                        Ok(()) => {},
                        Err(e) => {
                            return Err(e);
                        },
                    }
                },
                Input::MessageDataSigned { sender, recipient, amount, nonce, data, .. } => {
                    match self.check_message(
                        state, *sender, *recipient, *amount, *nonce, Some(data),
                        block_da_height) {
                        Ok(()) => {},
                        Err(e) => {
                            return Err(e);
                        },
                    }
                },
                Input::MessageDataPredicate { sender, recipient, amount, nonce, data, .. } => {
                    match self.check_message(
                        state, *sender, *recipient, *amount, *nonce, Some(data),
                        block_da_height) {
                        Ok(()) => {},
                        Err(e) => {
                            return Err(e);
                        },
                    }
                },
            }
            i = i + 1;
        }
        Ok(())
    }

    /// Checks one message input against the stored message.
    fn check_message(
        &self,
        state: &ExecState,
        sender: u64,
        recipient: u64,
        amount: u64,
        nonce: u64,
        data: Option<&Vec<u8>>,
        block_da_height: u64,
    ) -> (r: Result<(), ExecutorError>)
        requires
            state.wf(),
        ensures
            r is Ok <==> message_acceptable(
                sender,
                recipient,
                amount,
                nonce,
                match data {
                    Some(d) => Some(d@),
                    None => None,
                },
                state.view_state().messages,
                block_da_height,
            ),
            r is Err ==> r->Err_0 is TransactionValidity,
    {
        match state.messages.get(nonce as u128) {
            Some(m) => {
                if m.da_height > block_da_height {
                    return Err(ExecutorError::TransactionValidity(
                        TransactionValidityError::MessageSpendTooEarly(nonce),
                    ));
                }
                let fields_ok = m.sender == sender && m.recipient == recipient
                    && m.amount == amount && m.nonce == nonce;
                let data_ok = match data {
                    Some(d) => match crate::order::bytes_cmp(&m.data, d) {
                        crate::order::KeyCmp::Equal => true,
                        _ => false,
                    },
                    None => m.data.len() == 0,
                };
                if fields_ok && data_ok {
                    Ok(())
                } else {
                    Err(ExecutorError::TransactionValidity(
                        TransactionValidityError::MessageMismatch(nonce),
                    ))
                }
            },
            None => Err(ExecutorError::TransactionValidity(
                TransactionValidityError::MessageDoesNotExist(nonce),
            )),
        }
    }

    /// Marks every input as spent: coin inputs leave the coin table, message
    /// inputs leave the message table — except retryable message inputs of a
    /// reverted transaction, which stay.
    pub fn spend_input_utxos(
        &self,
        inputs: &Vec<Input>,
        state: &mut ExecState,
        reverted: bool,
        data: &mut ExecutionData,
    ) -> (r: Result<(), ExecutorError>)
        requires
            old(state).wf(),
        ensures
            final(state).wf(),
            final(state).contracts@ == old(state).contracts@,
            final(state).balances@ == old(state).balances@,
            final(state).processed@ == old(state).processed@,
            final(state).blocks@ == old(state).blocks@,
            final(state).params@ == old(state).params@,
            final(data).tx_status == old(data).tx_status,
            final(data).coinbase == old(data).coinbase,
            final(data).found_mint == old(data).found_mint,
            final(data).tx_count == old(data).tx_count,
            final(data).used_gas == old(data).used_gas,
            final(data).used_size == old(data).used_size,
            final(data).message_ids == old(data).message_ids,
            final(data).skipped_transactions == old(data).skipped_transactions,
            final(data).event_inbox_root == old(data).event_inbox_root,
            final(data).l1_leaves == old(data).l1_leaves,
            // The whole spend, state and events, answers to the trace: it
            // succeeds exactly when every demanded record is there, removes
            // exactly the consumed cells, and appends exactly the
            // consumption events.
            ({
                let trace = spend_trace(
                    inputs_view(inputs@),
                    old(state).coins@,
                    old(state).messages@,
                    reverted,
                    self.forbid_fake_coins,
                );
                match r {
                    Ok(()) => trace is Some
                        && final(state).coins@ == trace->0.coins
                        && final(state).messages@ == trace->0.messages
                        && final(data).events@ == old(data).events@ + trace->0.events,
                    Err(e) => trace is None
                        && e == spend_error(
                            inputs_view(inputs@),
                            old(state).coins@,
                            old(state).messages@,
                            reverted,
                            self.forbid_fake_coins,
                        ),
                }
            }),
            old(data).events@.len() <= final(data).events@.len(),
            final(data).events@.take(old(data).events@.len() as int) == old(data).events@,
            r is Ok ==> {
                &&& forall|ck: u128| #[trigger] final(state).coins@.contains_key(ck)
                    <==> (old(state).coins@.contains_key(ck)
                        && !spends_coin(inputs_view(inputs@), ck))
                &&& forall|ck: u128| #[trigger] final(state).coins@.contains_key(ck)
                    ==> final(state).coins@[ck] == old(state).coins@[ck]
                &&& forall|nk: u128| #[trigger] final(state).messages@.contains_key(nk)
                    <==> (old(state).messages@.contains_key(nk)
                        && !spends_message(inputs_view(inputs@), reverted, nk))
                &&& forall|nk: u128| #[trigger] final(state).messages@.contains_key(nk)
                    ==> final(state).messages@[nk] == old(state).messages@[nk]
            },
    {
        let ghost full = inputs_view(inputs@);
        let ghost coins0 = old(state).coins@;
        let ghost msgs0 = old(state).messages@;
        let ghost ev0 = old(data).events@;
        proof {
            assert(full.skip(0) =~= full);
            assert(ev0.take(ev0.len() as int) =~= ev0);
            assert(ev0.skip(ev0.len() as int) =~= Seq::<ExecutorEvent>::empty());
            match spend_trace(full, coins0, msgs0, reverted, self.forbid_fake_coins) {
                Some(t) => {
                    assert(Seq::<ExecutorEvent>::empty() + t.events =~= t.events);
                },
                None => {},
            }
        }
        let n = inputs.len();
        let mut i: usize = 0;
        while i < n
            invariant
                0 <= i <= n,
                n == inputs@.len(),
                full == inputs_view(inputs@),
                coins0 == old(state).coins@,
                msgs0 == old(state).messages@,
                ev0 == old(data).events@,
                state.wf(),
                state.contracts@ == old(state).contracts@,
                state.balances@ == old(state).balances@,
                state.processed@ == old(state).processed@,
                state.blocks@ == old(state).blocks@,
                state.params@ == old(state).params@,
                data.tx_status == old(data).tx_status,
                data.coinbase == old(data).coinbase,
                data.found_mint == old(data).found_mint,
                data.tx_count == old(data).tx_count,
                data.used_gas == old(data).used_gas,
                data.used_size == old(data).used_size,
                data.message_ids == old(data).message_ids,
                data.skipped_transactions == old(data).skipped_transactions,
                data.event_inbox_root == old(data).event_inbox_root,
                data.l1_leaves == old(data).l1_leaves,
                ev0.len() <= data.events@.len(),
                data.events@.take(ev0.len() as int) == ev0,
                spend_trace(full, coins0, msgs0, reverted, self.forbid_fake_coins)
                    == prepend_events(
                        data.events@.skip(ev0.len() as int),
                        spend_trace(
                            full.skip(i as int),
                            state.coins@,
                            state.messages@,
                            reverted,
                            self.forbid_fake_coins,
                        ),
                    ),
                spend_error(full, coins0, msgs0, reverted, self.forbid_fake_coins)
                    == spend_error(
                        full.skip(i as int),
                        state.coins@,
                        state.messages@,
                        reverted,
                        self.forbid_fake_coins,
                    ),
                forall|ck: u128| #[trigger] state.coins@.contains_key(ck)
                    <==> (old(state).coins@.contains_key(ck)
                        && !spends_coin(inputs_view(inputs@.take(i as int)), ck)),
                forall|ck: u128| #[trigger] state.coins@.contains_key(ck)
                    ==> state.coins@[ck] == old(state).coins@[ck],
                forall|nk: u128| #[trigger] state.messages@.contains_key(nk)
                    <==> (old(state).messages@.contains_key(nk)
                        && !spends_message(
                            inputs_view(inputs@.take(i as int)), reverted, nk)),
                forall|nk: u128| #[trigger] state.messages@.contains_key(nk)
                    ==> state.messages@[nk] == old(state).messages@[nk],
            decreases n - i,
        {
            let ghost prefix = inputs_view(inputs@.take(i as int));
            let ghost prefix2 = inputs_view(inputs@.take(i + 1));
            let ghost suffix = full.skip(i as int);
            let ghost coins_at = state.coins@;
            let ghost msgs_at = state.messages@;
            let ghost appended_at = data.events@.skip(ev0.len() as int);
            proof {
                assert(prefix2 =~= prefix.push(inputs@[i as int].view_input()));
                assert(suffix[0] == full[i as int]);
                assert(suffix.skip(1) =~= full.skip(i + 1));
            }
            match &inputs[i] {
                Input::CoinSigned { utxo_id, owner, amount, asset_id, .. } => {
                    let taken = state.coins.remove(utxo_key(*utxo_id));
                    let coin = match taken {
                        Some(c) => c,
                        None => {
                            match self.get_coin_or_default(
                                state, *utxo_id, *owner, *amount, *asset_id) {
                                Ok(c) => c,
                                Err(e) => {
                                    proof {
                                        assert(!coins_at.contains_key(
                                            utxo_key_spec(*utxo_id)));
                                        assert(spend_trace(
                                            suffix, coins_at, msgs_at, reverted,
                                            self.forbid_fake_coins)
                                            == spend_coin_trace(
                                                *utxo_id, *owner, *amount, *asset_id,
                                                suffix.skip(1), coins_at, msgs_at,
                                                reverted, self.forbid_fake_coins));
                                        assert(spend_trace(
                                            suffix, coins_at, msgs_at, reverted,
                                            self.forbid_fake_coins) is None);
                                    }
                                    return Err(e);
                                },
                            }
                        },
                    };
                    data.events.push(ExecutorEvent::CoinConsumed(coin, *utxo_id));
                    proof {
                        lemma_spend_coin_step(
                            prefix, prefix2, inputs@[i as int].view_input(),
                            old(state).coins@, utxo_key_spec(*utxo_id));
                        let k = utxo_key_spec(*utxo_id);
                        let ev = ExecutorEvent::CoinConsumed(coin, *utxo_id);
                        assert(spend_trace(
                            suffix, coins_at, msgs_at, reverted, self.forbid_fake_coins)
                            == spend_coin_trace(
                                *utxo_id, *owner, *amount, *asset_id, suffix.skip(1),
                                coins_at, msgs_at, reverted, self.forbid_fake_coins));
                        if !coins_at.contains_key(k) {
                            assert(state.coins@ =~= coins_at);
                        } else {
                            assert(coin == coins_at[k]);
                        }
                        let tail = spend_trace(
                            full.skip(i + 1), state.coins@, state.messages@, reverted,
                            self.forbid_fake_coins);
                        assert(spend_trace(
                            suffix.skip(1), state.coins@, state.messages@, reverted,
                            self.forbid_fake_coins) == tail);
                        assert(spend_trace(
                            suffix, coins_at, msgs_at, reverted, self.forbid_fake_coins)
                            == prepend_event(ev, tail));
                        lemma_prepend_shift(appended_at, ev, tail);
                        assert(data.events@.skip(ev0.len() as int)
                            =~= appended_at.push(ev));
                        assert(data.events@.take(ev0.len() as int) =~= ev0);
                    }
                },
                Input::CoinPredicate { utxo_id, owner, amount, asset_id, .. } => {
                    let taken = state.coins.remove(utxo_key(*utxo_id));
                    let coin = match taken {
                        Some(c) => c,
                        None => {
                            match self.get_coin_or_default(
                                state, *utxo_id, *owner, *amount, *asset_id) {
                                Ok(c) => c,
                                Err(e) => {
                                    proof {
                                        assert(!coins_at.contains_key(
                                            utxo_key_spec(*utxo_id)));
                                        assert(spend_trace(
                                            suffix, coins_at, msgs_at, reverted,
                                            self.forbid_fake_coins)
                                            == spend_coin_trace(
                                                *utxo_id, *owner, *amount, *asset_id,
                                                suffix.skip(1), coins_at, msgs_at,
                                                reverted, self.forbid_fake_coins));
                                        assert(spend_trace(
                                            suffix, coins_at, msgs_at, reverted,
                                            self.forbid_fake_coins) is None);
                                    }
                                    return Err(e);
                                },
                            }
                        },
                    };
                    data.events.push(ExecutorEvent::CoinConsumed(coin, *utxo_id));
                    proof {
                        lemma_spend_coin_step(
                            prefix, prefix2, inputs@[i as int].view_input(),
                            old(state).coins@, utxo_key_spec(*utxo_id));
                        let k = utxo_key_spec(*utxo_id);
                        let ev = ExecutorEvent::CoinConsumed(coin, *utxo_id);
                        assert(spend_trace(
                            suffix, coins_at, msgs_at, reverted, self.forbid_fake_coins)
                            == spend_coin_trace(
                                *utxo_id, *owner, *amount, *asset_id, suffix.skip(1),
                                coins_at, msgs_at, reverted, self.forbid_fake_coins));
                        if !coins_at.contains_key(k) {
                            assert(state.coins@ =~= coins_at);
                        } else {
                            assert(coin == coins_at[k]);
                        }
                        let tail = spend_trace(
                            full.skip(i + 1), state.coins@, state.messages@, reverted,
                            self.forbid_fake_coins);
                        assert(spend_trace(
                            suffix.skip(1), state.coins@, state.messages@, reverted,
                            self.forbid_fake_coins) == tail);
                        assert(spend_trace(
                            suffix, coins_at, msgs_at, reverted, self.forbid_fake_coins)
                            == prepend_event(ev, tail));
                        lemma_prepend_shift(appended_at, ev, tail);
                        assert(data.events@.skip(ev0.len() as int)
                            =~= appended_at.push(ev));
                        assert(data.events@.take(ev0.len() as int) =~= ev0);
                    }
                },
                Input::Contract(_) => {
                    proof {
                        lemma_spend_noop_step(
                            prefix, prefix2, inputs@[i as int].view_input(), reverted);
                        assert(spend_trace(
                            suffix, coins_at, msgs_at, reverted, self.forbid_fake_coins)
                            == spend_trace(
                                full.skip(i + 1), state.coins@, state.messages@,
                                reverted, self.forbid_fake_coins));
                    }
                },
                Input::MessageDataSigned { nonce, .. } => {
                    if reverted {
                        proof {
                            lemma_spend_retryable_step(
                                prefix, prefix2, inputs@[i as int].view_input(), reverted);
                            assert(spend_trace(
                                suffix, coins_at, msgs_at, reverted,
                                self.forbid_fake_coins)
                                == spend_trace(
                                    full.skip(i + 1), state.coins@, state.messages@,
                                    reverted, self.forbid_fake_coins));
                        }
                    } else {
                        let taken = state.messages.remove(*nonce as u128);
                        match taken {
                            Some(m) => {
                                let ghost ev = ExecutorEvent::MessageConsumed(m);
                                data.events.push(ExecutorEvent::MessageConsumed(m));
                                proof {
                                    assert(spend_trace(
                                        suffix, coins_at, msgs_at, reverted,
                                        self.forbid_fake_coins)
                                        == spend_message_trace(
                                            *nonce, suffix.skip(1), coins_at, msgs_at,
                                            reverted, self.forbid_fake_coins));
                                    assert(m == msgs_at[*nonce as u128]);
                                    let tail = spend_trace(
                                        full.skip(i + 1), state.coins@, state.messages@,
                                        reverted, self.forbid_fake_coins);
                                    assert(spend_trace(
                                        suffix.skip(1), state.coins@, state.messages@,
                                        reverted, self.forbid_fake_coins) == tail);
                                    assert(spend_trace(
                                        suffix, coins_at, msgs_at, reverted,
                                        self.forbid_fake_coins)
                                        == prepend_event(ev, tail));
                                    lemma_prepend_shift(appended_at, ev, tail);
                                    assert(data.events@.skip(ev0.len() as int)
                                        =~= appended_at.push(ev));
                                    assert(data.events@.take(ev0.len() as int) =~= ev0);
                                }
                            },
                            None => {
                                proof {
                                    assert(spend_trace(
                                        suffix, coins_at, msgs_at, reverted,
                                        self.forbid_fake_coins)
                                        == spend_message_trace(
                                            *nonce, suffix.skip(1), coins_at, msgs_at,
                                            reverted, self.forbid_fake_coins));
                                    assert(!msgs_at.contains_key(*nonce as u128));
                                }
                                return Err(ExecutorError::MessageDoesNotExist(*nonce));
                            },
                        }
                        proof {
                            lemma_spend_message_step(
                                prefix, prefix2, inputs@[i as int].view_input(),
                                reverted, *nonce);
                        }
                    }
                },
                Input::MessageDataPredicate { nonce, .. } => {
                    if reverted {
                        proof {
                            lemma_spend_retryable_step(
                                prefix, prefix2, inputs@[i as int].view_input(), reverted);
                            assert(spend_trace(
                                suffix, coins_at, msgs_at, reverted,
                                self.forbid_fake_coins)
                                == spend_trace(
                                    full.skip(i + 1), state.coins@, state.messages@,
                                    reverted, self.forbid_fake_coins));
                        }
                    } else {
                        let taken = state.messages.remove(*nonce as u128);
                        match taken {
                            Some(m) => {
                                let ghost ev = ExecutorEvent::MessageConsumed(m);
                                data.events.push(ExecutorEvent::MessageConsumed(m));
                                proof {
                                    assert(spend_trace(
                                        suffix, coins_at, msgs_at, reverted,
                                        self.forbid_fake_coins)
                                        == spend_message_trace(
                                            *nonce, suffix.skip(1), coins_at, msgs_at,
                                            reverted, self.forbid_fake_coins));
                                    assert(m == msgs_at[*nonce as u128]);
                                    let tail = spend_trace(
                                        full.skip(i + 1), state.coins@, state.messages@,
                                        reverted, self.forbid_fake_coins);
                                    assert(spend_trace(
                                        suffix.skip(1), state.coins@, state.messages@,
                                        reverted, self.forbid_fake_coins) == tail);
                                    assert(spend_trace(
                                        suffix, coins_at, msgs_at, reverted,
                                        self.forbid_fake_coins)
                                        == prepend_event(ev, tail));
                                    lemma_prepend_shift(appended_at, ev, tail);
                                    assert(data.events@.skip(ev0.len() as int)
                                        =~= appended_at.push(ev));
                                    assert(data.events@.take(ev0.len() as int) =~= ev0);
                                }
                            },
                            None => {
                                proof {
                                    assert(spend_trace(
                                        suffix, coins_at, msgs_at, reverted,
                                        self.forbid_fake_coins)
                                        == spend_message_trace(
                                            *nonce, suffix.skip(1), coins_at, msgs_at,
                                            reverted, self.forbid_fake_coins));
                                    assert(!msgs_at.contains_key(*nonce as u128));
                                }
                                return Err(ExecutorError::MessageDoesNotExist(*nonce));
                            },
                        }
                        proof {
                            lemma_spend_message_step(
                                prefix, prefix2, inputs@[i as int].view_input(),
                                reverted, *nonce);
                        }
                    }
                },
                Input::MessageCoinSigned { nonce, .. } => {
                    let taken = state.messages.remove(*nonce as u128);
                    match taken {
                        Some(m) => {
                            let ghost ev = ExecutorEvent::MessageConsumed(m);
                            data.events.push(ExecutorEvent::MessageConsumed(m));
                            proof {
                                assert(spend_trace(
                                    suffix, coins_at, msgs_at, reverted,
                                    self.forbid_fake_coins)
                                    == spend_message_trace(
                                        *nonce, suffix.skip(1), coins_at, msgs_at,
                                        reverted, self.forbid_fake_coins));
                                assert(m == msgs_at[*nonce as u128]);
                                let tail = spend_trace(
                                    full.skip(i + 1), state.coins@, state.messages@,
                                    reverted, self.forbid_fake_coins);
                                assert(spend_trace(
                                    suffix.skip(1), state.coins@, state.messages@,
                                    reverted, self.forbid_fake_coins) == tail);
                                assert(spend_trace(
                                    suffix, coins_at, msgs_at, reverted,
                                    self.forbid_fake_coins)
                                    == prepend_event(ev, tail));
                                lemma_prepend_shift(appended_at, ev, tail);
                                assert(data.events@.skip(ev0.len() as int)
                                    =~= appended_at.push(ev));
                                assert(data.events@.take(ev0.len() as int) =~= ev0);
                            }
                        },
                        None => {
                            proof {
                                assert(spend_trace(
                                    suffix, coins_at, msgs_at, reverted,
                                    self.forbid_fake_coins)
                                    == spend_message_trace(
                                        *nonce, suffix.skip(1), coins_at, msgs_at,
                                        reverted, self.forbid_fake_coins));
                                assert(!msgs_at.contains_key(*nonce as u128));
                            }
                            return Err(ExecutorError::MessageDoesNotExist(*nonce));
                        },
                    }
                    proof {
                        lemma_spend_message_step(
                            prefix, prefix2, inputs@[i as int].view_input(),
                            reverted, *nonce);
                    }
                },
                Input::MessageCoinPredicate { nonce, .. } => {
                    let taken = state.messages.remove(*nonce as u128);
                    match taken {
                        Some(m) => {
                            let ghost ev = ExecutorEvent::MessageConsumed(m);
                            data.events.push(ExecutorEvent::MessageConsumed(m));
                            proof {
                                assert(spend_trace(
                                    suffix, coins_at, msgs_at, reverted,
                                    self.forbid_fake_coins)
                                    == spend_message_trace(
                                        *nonce, suffix.skip(1), coins_at, msgs_at,
                                        reverted, self.forbid_fake_coins));
                                assert(m == msgs_at[*nonce as u128]);
                                let tail = spend_trace(
                                    full.skip(i + 1), state.coins@, state.messages@,
                                    reverted, self.forbid_fake_coins);
                                assert(spend_trace(
                                    suffix.skip(1), state.coins@, state.messages@,
                                    reverted, self.forbid_fake_coins) == tail);
                                assert(spend_trace(
                                    suffix, coins_at, msgs_at, reverted,
                                    self.forbid_fake_coins)
                                    == prepend_event(ev, tail));
                                lemma_prepend_shift(appended_at, ev, tail);
                                assert(data.events@.skip(ev0.len() as int)
                                    =~= appended_at.push(ev));
                                assert(data.events@.take(ev0.len() as int) =~= ev0);
                            }
                        },
                        None => {
                            proof {
                                assert(spend_trace(
                                    suffix, coins_at, msgs_at, reverted,
                                    self.forbid_fake_coins)
                                    == spend_message_trace(
                                        *nonce, suffix.skip(1), coins_at, msgs_at,
                                        reverted, self.forbid_fake_coins));
                                assert(!msgs_at.contains_key(*nonce as u128));
                            }
                            return Err(ExecutorError::MessageDoesNotExist(*nonce));
                        },
                    }
                    proof {
                        lemma_spend_message_step(
                            prefix, prefix2, inputs@[i as int].view_input(),
                            reverted, *nonce);
                    }
                },
            }
            i = i + 1;
        }
        proof {
            assert(inputs@.take(n as int) =~= inputs@);
            assert(full.skip(n as int) =~= Seq::<crate::tx::InputV>::empty());
            let appended = data.events@.skip(ev0.len() as int);
            assert(appended + Seq::<ExecutorEvent>::empty() =~= appended);
            assert(data.events@ =~= ev0 + appended);
        }
        Ok(())
    }
}

/// Extending the spent prefix by a coin input adds its key to the spent coin
/// keys and nothing to the spent nonces.
proof fn lemma_spend_coin_step(
    prefix: Seq<crate::tx::InputV>,
    prefix2: Seq<crate::tx::InputV>,
    iv: crate::tx::InputV,
    coins0: Map<u128, CompressedCoin>,
    ck: u128,
)
    requires
        prefix2 == prefix.push(iv),
        input_coin_utxo(iv) is Some,
        utxo_key_spec(input_coin_utxo(iv)->0) == ck,
    ensures
        forall|k: u128| spends_coin(prefix2, k) <==> spends_coin(prefix, k) || k == ck,
        forall|nk: u128, rv: bool|
            spends_message(prefix2, rv, nk) == spends_message(prefix, rv, nk),
{
    assert forall|k: u128| spends_coin(prefix2, k)
        <==> spends_coin(prefix, k) || k == ck by {
        if spends_coin(prefix2, k) {
            let i = choose|i: int|
                0 <= i < prefix2.len() && input_coin_utxo(#[trigger] prefix2[i]) is Some
                    && utxo_key_spec(input_coin_utxo(prefix2[i])->0) == k;
            if i < prefix.len() {
                assert(prefix[i] == prefix2[i]);
                assert(spends_coin(prefix, k));
            }
        }
        if spends_coin(prefix, k) {
            let i = choose|i: int|
                0 <= i < prefix.len() && input_coin_utxo(#[trigger] prefix[i]) is Some
                    && utxo_key_spec(input_coin_utxo(prefix[i])->0) == k;
            assert(prefix2[i] == prefix[i]);
        }
        if k == ck {
            assert(prefix2[prefix.len() as int] == iv);
        }
    }
    assert forall|nk: u128, rv: bool|
        spends_message(prefix2, rv, nk) == spends_message(prefix, rv, nk) by {
        if spends_message(prefix2, rv, nk) {
            let i = choose|i: int|
                0 <= i < prefix2.len() && input_message_nonce(#[trigger] prefix2[i]) is Some
                    && input_message_nonce(prefix2[i])->0 as u128 == nk
                    && !(input_is_retryable(prefix2[i]) && rv);
            assert(i < prefix.len());
            assert(prefix[i] == prefix2[i]);
        }
        if spends_message(prefix, rv, nk) {
            let i = choose|i: int|
                0 <= i < prefix.len() && input_message_nonce(#[trigger] prefix[i]) is Some
                    && input_message_nonce(prefix[i])->0 as u128 == nk
                    && !(input_is_retryable(prefix[i]) && rv);
            assert(prefix2[i] == prefix[i]);
        }
    }
}

/// Extending the spent prefix by a contract input changes nothing.
proof fn lemma_spend_noop_step(
    prefix: Seq<crate::tx::InputV>,
    prefix2: Seq<crate::tx::InputV>,
    iv: crate::tx::InputV,
    reverted: bool,
)
    requires
        prefix2 == prefix.push(iv),
        input_coin_utxo(iv) is None,
        input_message_nonce(iv) is None,
    ensures
        forall|k: u128| spends_coin(prefix2, k) == spends_coin(prefix, k),
        forall|nk: u128|
            spends_message(prefix2, reverted, nk) == spends_message(prefix, reverted, nk),
{
    assert forall|k: u128| spends_coin(prefix2, k) == spends_coin(prefix, k) by {
        if spends_coin(prefix2, k) {
            let i = choose|i: int|
                0 <= i < prefix2.len() && input_coin_utxo(#[trigger] prefix2[i]) is Some
                    && utxo_key_spec(input_coin_utxo(prefix2[i])->0) == k;
            assert(i < prefix.len());
            assert(prefix[i] == prefix2[i]);
        }
        if spends_coin(prefix, k) {
            let i = choose|i: int|
                0 <= i < prefix.len() && input_coin_utxo(#[trigger] prefix[i]) is Some
                    && utxo_key_spec(input_coin_utxo(prefix[i])->0) == k;
            assert(prefix2[i] == prefix[i]);
        }
    }
    assert forall|nk: u128|
        spends_message(prefix2, reverted, nk) == spends_message(prefix, reverted, nk) by {
        if spends_message(prefix2, reverted, nk) {
            let i = choose|i: int|
                0 <= i < prefix2.len() && input_message_nonce(#[trigger] prefix2[i]) is Some
                    && input_message_nonce(prefix2[i])->0 as u128 == nk
                    && !(input_is_retryable(prefix2[i]) && reverted);
            assert(i < prefix.len());
            assert(prefix[i] == prefix2[i]);
        }
        if spends_message(prefix, reverted, nk) {
            let i = choose|i: int|
                0 <= i < prefix.len() && input_message_nonce(#[trigger] prefix[i]) is Some
                    && input_message_nonce(prefix[i])->0 as u128 == nk
                    && !(input_is_retryable(prefix[i]) && reverted);
            assert(prefix2[i] == prefix[i]);
        }
    }
}

/// Extending the spent prefix by a retryable message input of a reverted
/// transaction changes nothing: the message stays.
proof fn lemma_spend_retryable_step(
    prefix: Seq<crate::tx::InputV>,
    prefix2: Seq<crate::tx::InputV>,
    iv: crate::tx::InputV,
    reverted: bool,
)
    requires
        prefix2 == prefix.push(iv),
        input_coin_utxo(iv) is None,
        input_is_retryable(iv),
        reverted,
    ensures
        forall|k: u128| spends_coin(prefix2, k) == spends_coin(prefix, k),
        forall|nk: u128|
            spends_message(prefix2, reverted, nk) == spends_message(prefix, reverted, nk),
{
    assert forall|k: u128| spends_coin(prefix2, k) == spends_coin(prefix, k) by {
        if spends_coin(prefix2, k) {
            let i = choose|i: int|
                0 <= i < prefix2.len() && input_coin_utxo(#[trigger] prefix2[i]) is Some
                    && utxo_key_spec(input_coin_utxo(prefix2[i])->0) == k;
            assert(i < prefix.len());
            assert(prefix[i] == prefix2[i]);
        }
        if spends_coin(prefix, k) {
            let i = choose|i: int|
                0 <= i < prefix.len() && input_coin_utxo(#[trigger] prefix[i]) is Some
                    && utxo_key_spec(input_coin_utxo(prefix[i])->0) == k;
            assert(prefix2[i] == prefix[i]);
        }
    }
    assert forall|nk: u128|
        spends_message(prefix2, reverted, nk) == spends_message(prefix, reverted, nk) by {
        if spends_message(prefix2, reverted, nk) {
            let i = choose|i: int|
                0 <= i < prefix2.len() && input_message_nonce(#[trigger] prefix2[i]) is Some
                    && input_message_nonce(prefix2[i])->0 as u128 == nk
                    && !(input_is_retryable(prefix2[i]) && reverted);
            assert(i < prefix.len());
            assert(prefix[i] == prefix2[i]);
        }
        if spends_message(prefix, reverted, nk) {
            let i = choose|i: int|
                0 <= i < prefix.len() && input_message_nonce(#[trigger] prefix[i]) is Some
                    && input_message_nonce(prefix[i])->0 as u128 == nk
                    && !(input_is_retryable(prefix[i]) && reverted);
            assert(prefix2[i] == prefix[i]);
        }
    }
}

/// Extending the spent prefix by a consuming message input adds its nonce to
/// the spent nonces and nothing to the spent coin keys.
proof fn lemma_spend_message_step(
    prefix: Seq<crate::tx::InputV>,
    prefix2: Seq<crate::tx::InputV>,
    iv: crate::tx::InputV,
    reverted: bool,
    nonce: u64,
)
    requires
        prefix2 == prefix.push(iv),
        input_coin_utxo(iv) is None,
        input_message_nonce(iv) == Some(nonce),
        !(input_is_retryable(iv) && reverted),
    ensures
        forall|k: u128| spends_coin(prefix2, k) == spends_coin(prefix, k),
        forall|nk: u128|
            spends_message(prefix2, reverted, nk)
                <==> spends_message(prefix, reverted, nk) || nk == nonce as u128,
{
    assert forall|k: u128| spends_coin(prefix2, k) == spends_coin(prefix, k) by {
        if spends_coin(prefix2, k) {
            let i = choose|i: int|
                0 <= i < prefix2.len() && input_coin_utxo(#[trigger] prefix2[i]) is Some
                    && utxo_key_spec(input_coin_utxo(prefix2[i])->0) == k;
            assert(i < prefix.len());
            assert(prefix[i] == prefix2[i]);
        }
        if spends_coin(prefix, k) {
            let i = choose|i: int|
                0 <= i < prefix.len() && input_coin_utxo(#[trigger] prefix[i]) is Some
                    && utxo_key_spec(input_coin_utxo(prefix[i])->0) == k;
            assert(prefix2[i] == prefix[i]);
        }
    }
    assert forall|nk: u128|
        spends_message(prefix2, reverted, nk)
            <==> spends_message(prefix, reverted, nk) || nk == nonce as u128 by {
        if spends_message(prefix2, reverted, nk) {
            let i = choose|i: int|
                0 <= i < prefix2.len() && input_message_nonce(#[trigger] prefix2[i]) is Some
                    && input_message_nonce(prefix2[i])->0 as u128 == nk
                    && !(input_is_retryable(prefix2[i]) && reverted);
            if i < prefix.len() {
                assert(prefix[i] == prefix2[i]);
                assert(spends_message(prefix, reverted, nk));
            }
        }
        if spends_message(prefix, reverted, nk) {
            let i = choose|i: int|
                0 <= i < prefix.len() && input_message_nonce(#[trigger] prefix[i]) is Some
                    && input_message_nonce(prefix[i])->0 as u128 == nk
                    && !(input_is_retryable(prefix[i]) && reverted);
            assert(prefix2[i] == prefix[i]);
        }
        if nk == nonce as u128 {
            assert(prefix2[prefix.len() as int] == iv);
        }
    }
}

impl<R: RelayerPort, N: NewTxWaiterPort, P: PreconfirmationSenderPort> BlockExecutor<R, N, P> {
    /// Materialises one coin output with a positive amount; a taken slot is
    /// an `OutputAlreadyExists` error.
    pub fn insert_coin(
        block_height: u32,
        data: &mut ExecutionData,
        utxo_id: UtxoId,
        amount: u64,
        asset_id: u64,
        to: u64,
        state: &mut ExecState,
    ) -> (r: Result<(), ExecutorError>)
        requires
            old(state).wf(),
        ensures
            final(state).wf(),
            final(state).messages@ == old(state).messages@,
            final(state).contracts@ == old(state).contracts@,
            final(state).balances@ == old(state).balances@,
            final(state).processed@ == old(state).processed@,
            final(state).blocks@ == old(state).blocks@,
            final(state).params@ == old(state).params@,
            final(data).tx_status == old(data).tx_status,
            final(data).coinbase == old(data).coinbase,
            final(data).tx_count == old(data).tx_count,
            final(data).found_mint == old(data).found_mint,
            final(data).used_gas == old(data).used_gas,
            final(data).used_size == old(data).used_size,
            final(data).message_ids == old(data).message_ids,
            final(data).skipped_transactions == old(data).skipped_transactions,
            final(data).event_inbox_root == old(data).event_inbox_root,
            final(data).l1_leaves == old(data).l1_leaves,
            match r {
                Ok(()) => {
                    &&& amount > 0 ==> !old(state).coins@.contains_key(utxo_key_spec(utxo_id))
                        && final(state).coins@ =~= old(state).coins@.insert(
                            utxo_key_spec(utxo_id),
                            CompressedCoin {
                                owner: to,
                                amount,
                                asset_id,
                                tx_pointer: TxPointer {
                                    block_height,
                                    tx_index: old(data).tx_count,
                                },
                            },
                        )
                        && final(data).events@ == old(data).events@.push(
                            ExecutorEvent::CoinCreated(
                                CompressedCoin {
                                    owner: to,
                                    amount,
                                    asset_id,
                                    tx_pointer: TxPointer {
                                        block_height,
                                        tx_index: old(data).tx_count,
                                    },
                                },
                                utxo_id,
                            ))
                    &&& amount == 0 ==> final(state).coins@ == old(state).coins@
                        && final(data).events@ == old(data).events@
                },
                Err(e) => e is OutputAlreadyExists && amount > 0
                    && old(state).coins@.contains_key(utxo_key_spec(utxo_id))
                    && final(data).events@ == old(data).events@,
            },
    {
        if amount > 0 {
            let coin = CompressedCoin {
                owner: to,
                amount,
                asset_id,
                tx_pointer: TxPointer { block_height, tx_index: data.tx_count },
            };
            let previous = state.coins.insert(utxo_key(utxo_id), coin);
            if previous.is_some() {
                return Err(ExecutorError::OutputAlreadyExists);
            }
            data.events.push(ExecutorEvent::CoinCreated(coin, utxo_id));
        }
        Ok(())
    }

    /// Persists every output: coin-like outputs with a positive amount become
    /// coins, contract outputs record the transaction as the contract's
    /// latest UTXO.
    #[verifier::rlimit(100)]
    #[verifier::spinoff_prover]
    pub fn persist_output_utxos(
        &self,
        block_height: u32,
        data: &mut ExecutionData,
        tx_id: u64,
        state: &mut ExecState,
        inputs: &Vec<Input>,
        outputs: &Vec<Output>,
    ) -> (r: Result<(), ExecutorError>)
        requires
            old(state).wf(),
        ensures
            final(state).wf(),
            final(state).messages@ == old(state).messages@,
            final(state).balances@ == old(state).balances@,
            final(state).processed@ == old(state).processed@,
            final(state).blocks@ == old(state).blocks@,
            final(state).params@ == old(state).params@,
            final(data).tx_status == old(data).tx_status,
            final(data).coinbase == old(data).coinbase,
            final(data).tx_count == old(data).tx_count,
            final(data).found_mint == old(data).found_mint,
            final(data).used_gas == old(data).used_gas,
            final(data).used_size == old(data).used_size,
            final(data).message_ids == old(data).message_ids,
            final(data).skipped_transactions == old(data).skipped_transactions,
            final(data).event_inbox_root == old(data).event_inbox_root,
            final(data).l1_leaves == old(data).l1_leaves,
            old(data).events@.len() <= final(data).events@.len(),
            final(data).events@.take(old(data).events@.len() as int) == old(data).events@,
            r is Ok <==> (outputs@.len() <= u16::MAX && persist_possible(
                outputs@, inputs_view(inputs@), old(state).coins@, tx_id)),
            // Each refusal names its cause: an overlong output list, else
            // the first failing output's taken slot or misaimed contract.
            outputs@.len() > u16::MAX
                ==> r == Err::<(), ExecutorError>(ExecutorError::TooManyOutputs),
            outputs@.len() <= u16::MAX && !persist_possible(
                outputs@, inputs_view(inputs@), old(state).coins@, tx_id)
                ==> r == Err::<(), ExecutorError>(persist_error_from(
                    outputs@, inputs_view(inputs@), old(state).coins@, tx_id, 0)),
            r is Ok ==> forall|i: int|
                0 <= i < outputs@.len() && (#[trigger] outputs@[i]).coin_fields() is Some
                    && (outputs@[i].coin_fields()->0).1 > 0
                    ==> final(state).coins@.contains_key(
                        utxo_key_spec(UtxoId { tx_id, output_index: i as u16 }))
                        && final(state).coins@[
                            utxo_key_spec(UtxoId { tx_id, output_index: i as u16 })]
                            == (CompressedCoin {
                                owner: (outputs@[i].coin_fields()->0).0,
                                amount: (outputs@[i].coin_fields()->0).1,
                                asset_id: (outputs@[i].coin_fields()->0).2,
                                tx_pointer: TxPointer {
                                    block_height,
                                    tx_index: old(data).tx_count,
                                },
                            }),
            r is Ok ==> {
                // Stored coins survive with their values; the events appended
                // are exactly the coin creations, in output order.
                &&& forall|ck: u128| old(state).coins@.contains_key(ck)
                    ==> #[trigger] final(state).coins@.contains_key(ck)
                        && final(state).coins@[ck] == old(state).coins@[ck]
                &&& final(data).events@ == old(data).events@ + persist_events(
                    outputs@,
                    tx_id,
                    TxPointer { block_height, tx_index: old(data).tx_count },
                    outputs@.len() as int,
                )
                // Every touched contract records this transaction as its
                // latest UTXO; untouched contracts keep their records.
                &&& forall|cid: u64| #[trigger] final(state).contracts@.contains_key(
                    cid as u128)
                    <==> (old(state).contracts@.contains_key(cid as u128)
                        || touches_contract(outputs@, inputs_view(inputs@), cid))
                &&& forall|cid: u64| old(state).contracts@.contains_key(cid as u128)
                    && !touches_contract(outputs@, inputs_view(inputs@), cid)
                    ==> #[trigger] final(state).contracts@[cid as u128]
                        == old(state).contracts@[cid as u128]
                &&& forall|cid: u64|
                    #[trigger] touches_contract(outputs@, inputs_view(inputs@), cid)
                        ==> final(state).contracts@[cid as u128].tx_pointer
                            == (TxPointer { block_height, tx_index: old(data).tx_count })
                            && exists|j: int|
                                0 <= j < outputs@.len()
                                    && output_contract_id(
                                        #[trigger] outputs@[j], inputs_view(inputs@))
                                        == Some(cid)
                                    && final(state).contracts@[cid as u128].utxo_id
                                        == (UtxoId { tx_id, output_index: j as u16 })
            },
            r is Err ==> (r->Err_0 is OutputAlreadyExists
                || r->Err_0 is TransactionValidity || r->Err_0 is TooManyOutputs),
    {
        proof {
            assert(data.events@.take(data.events@.len() as int) =~= data.events@);
        }
        if outputs.len() > 65535 {
            return Err(ExecutorError::TooManyOutputs);
        }
        let tx_idx = data.tx_count;
        let n = outputs.len();
        let mut i: usize = 0;
        while i < n
            invariant
                0 <= i <= n,
                n == outputs@.len(),
                n <= u16::MAX,
                state.wf(),
                state.messages@ == old(state).messages@,
                state.balances@ == old(state).balances@,
                state.processed@ == old(state).processed@,
                state.blocks@ == old(state).blocks@,
                state.params@ == old(state).params@,
                data.tx_status == old(data).tx_status,
                data.coinbase == old(data).coinbase,
                data.tx_count == old(data).tx_count,
                data.found_mint == old(data).found_mint,
                data.used_gas == old(data).used_gas,
                data.used_size == old(data).used_size,
                data.message_ids == old(data).message_ids,
                data.skipped_transactions == old(data).skipped_transactions,
                data.event_inbox_root == old(data).event_inbox_root,
                data.l1_leaves == old(data).l1_leaves,
                tx_idx == old(data).tx_count,
                forall|m: int|
                    0 <= m < i && (#[trigger] outputs@[m]).coin_fields() is Some
                        && (outputs@[m].coin_fields()->0).1 > 0
                        ==> state.coins@.contains_key(
                            utxo_key_spec(UtxoId { tx_id, output_index: m as u16 }))
                            && state.coins@[
                                utxo_key_spec(UtxoId { tx_id, output_index: m as u16 })]
                                == (CompressedCoin {
                                    owner: (outputs@[m].coin_fields()->0).0,
                                    amount: (outputs@[m].coin_fields()->0).1,
                                    asset_id: (outputs@[m].coin_fields()->0).2,
                                    tx_pointer: TxPointer {
                                        block_height,
                                        tx_index: old(data).tx_count,
                                    },
                                }),
                forall|ck: u128| old(state).coins@.contains_key(ck)
                    ==> #[trigger] state.coins@.contains_key(ck)
                        && state.coins@[ck] == old(state).coins@[ck],
                forall|ck: u128| #[trigger] state.coins@.contains_key(ck)
                    ==> old(state).coins@.contains_key(ck)
                        || (exists|m: int|
                            0 <= m < i
                                && ck == #[trigger] utxo_key_spec(
                                    UtxoId { tx_id, output_index: m as u16 })),
                forall|m: int|
                    0 <= m < i && (#[trigger] outputs@[m]).coin_fields() is Some
                        && (outputs@[m].coin_fields()->0).1 > 0
                        ==> !old(state).coins@.contains_key(
                            utxo_key_spec(UtxoId { tx_id, output_index: m as u16 })),
                forall|m: int|
                    0 <= m < i && (#[trigger] outputs@[m]) is Contract
                        ==> 0 <= outputs@[m]->Contract_0.input_index
                            < inputs_view(inputs@).len()
                            && inputs_view(inputs@)[
                                outputs@[m]->Contract_0.input_index as int] is Contract,
                data.events@ == old(data).events@ + persist_events(
                    outputs@,
                    tx_id,
                    TxPointer { block_height, tx_index: old(data).tx_count },
                    i as int,
                ),
                data.events@.take(old(data).events@.len() as int) == old(data).events@,
                forall|cid: u64| #[trigger] state.contracts@.contains_key(cid as u128)
                    <==> (old(state).contracts@.contains_key(cid as u128)
                        || touches_contract(
                            outputs@.take(i as int), inputs_view(inputs@), cid)),
                forall|cid: u64| old(state).contracts@.contains_key(cid as u128)
                    && !touches_contract(outputs@.take(i as int), inputs_view(inputs@), cid)
                    ==> #[trigger] state.contracts@[cid as u128]
                        == old(state).contracts@[cid as u128],
                forall|cid: u64|
                    #[trigger] touches_contract(
                        outputs@.take(i as int), inputs_view(inputs@), cid)
                        ==> state.contracts@[cid as u128].tx_pointer
                            == (TxPointer { block_height, tx_index: old(data).tx_count })
                            && exists|j: int|
                                0 <= j < i
                                    && output_contract_id(
                                        #[trigger] outputs@[j], inputs_view(inputs@))
                                        == Some(cid)
                                    && state.contracts@[cid as u128].utxo_id
                                        == (UtxoId { tx_id, output_index: j as u16 }),
            decreases n - i,
        {
            let utxo_id = UtxoId { tx_id, output_index: i as u16 };
            match &outputs[i] {
                Output::Coin { to, amount, asset_id } => {
                    let ghost coins_at = state.coins@;
                    match Self::insert_coin(
                        block_height, data, utxo_id, *amount, *asset_id, *to, state) {
                        Ok(()) => {},
                        Err(e) => {
                            proof {
                                // The taken slot belongs to a stored coin:
                                // earlier created slots carry other indices.
                                let k = utxo_key_spec(utxo_id);
                                if !old(state).coins@.contains_key(k) {
                                    let m = choose|m: int|
                                        0 <= m < i && k == #[trigger] utxo_key_spec(
                                            UtxoId { tx_id, output_index: m as u16 });
                                    crate::assoc::lemma_utxo_key_injective(
                                        UtxoId { tx_id, output_index: m as u16 },
                                        utxo_id,
                                    );
                                }
                                assert(!persist_possible(
                                    outputs@, inputs_view(inputs@),
                                    old(state).coins@, tx_id));
                                lemma_persist_error_skip(
                                    outputs@, inputs_view(inputs@),
                                    old(state).coins@, tx_id, 0, i as int);
                                assert(persist_error_from(
                                    outputs@, inputs_view(inputs@),
                                    old(state).coins@, tx_id, i as int)
                                    == ExecutorError::OutputAlreadyExists);
                            }
                            return Err(e);
                        },
                    }
                    proof {
                        lemma_touch_step(outputs@, inputs_view(inputs@), i as int);
                        assert(data.events@ =~= old(data).events@ + persist_events(
                            outputs@, tx_id,
                            TxPointer { block_height, tx_index: old(data).tx_count },
                            i + 1));
                        if *amount > 0 {
                            let k = utxo_key_spec(utxo_id);
                            if old(state).coins@.contains_key(k) {
                                assert(coins_at.contains_key(k));
                            }
                        }
                    }
                },
                Output::Change { to, amount, asset_id } => {
                    let ghost coins_at = state.coins@;
                    match Self::insert_coin(
                        block_height, data, utxo_id, *amount, *asset_id, *to, state) {
                        Ok(()) => {},
                        Err(e) => {
                            proof {
                                // The taken slot belongs to a stored coin:
                                // earlier created slots carry other indices.
                                let k = utxo_key_spec(utxo_id);
                                if !old(state).coins@.contains_key(k) {
                                    let m = choose|m: int|
                                        0 <= m < i && k == #[trigger] utxo_key_spec(
                                            UtxoId { tx_id, output_index: m as u16 });
                                    crate::assoc::lemma_utxo_key_injective(
                                        UtxoId { tx_id, output_index: m as u16 },
                                        utxo_id,
                                    );
                                }
                                assert(!persist_possible(
                                    outputs@, inputs_view(inputs@),
                                    old(state).coins@, tx_id));
                                lemma_persist_error_skip(
                                    outputs@, inputs_view(inputs@),
                                    old(state).coins@, tx_id, 0, i as int);
                                assert(persist_error_from(
                                    outputs@, inputs_view(inputs@),
                                    old(state).coins@, tx_id, i as int)
                                    == ExecutorError::OutputAlreadyExists);
                            }
                            return Err(e);
                        },
                    }
                    proof {
                        lemma_touch_step(outputs@, inputs_view(inputs@), i as int);
                        assert(data.events@ =~= old(data).events@ + persist_events(
                            outputs@, tx_id,
                            TxPointer { block_height, tx_index: old(data).tx_count },
                            i + 1));
                        if *amount > 0 {
                            let k = utxo_key_spec(utxo_id);
                            if old(state).coins@.contains_key(k) {
                                assert(coins_at.contains_key(k));
                            }
                        }
                    }
                },
                Output::Variable { to, amount, asset_id } => {
                    let ghost coins_at = state.coins@;
                    match Self::insert_coin(
                        block_height, data, utxo_id, *amount, *asset_id, *to, state) {
                        Ok(()) => {},
                        Err(e) => {
                            proof {
                                // The taken slot belongs to a stored coin:
                                // earlier created slots carry other indices.
                                let k = utxo_key_spec(utxo_id);
                                if !old(state).coins@.contains_key(k) {
                                    let m = choose|m: int|
                                        0 <= m < i && k == #[trigger] utxo_key_spec(
                                            UtxoId { tx_id, output_index: m as u16 });
                                    crate::assoc::lemma_utxo_key_injective(
                                        UtxoId { tx_id, output_index: m as u16 },
                                        utxo_id,
                                    );
                                }
                                assert(!persist_possible(
                                    outputs@, inputs_view(inputs@),
                                    old(state).coins@, tx_id));
                                lemma_persist_error_skip(
                                    outputs@, inputs_view(inputs@),
                                    old(state).coins@, tx_id, 0, i as int);
                                assert(persist_error_from(
                                    outputs@, inputs_view(inputs@),
                                    old(state).coins@, tx_id, i as int)
                                    == ExecutorError::OutputAlreadyExists);
                            }
                            return Err(e);
                        },
                    }
                    proof {
                        lemma_touch_step(outputs@, inputs_view(inputs@), i as int);
                        assert(data.events@ =~= old(data).events@ + persist_events(
                            outputs@, tx_id,
                            TxPointer { block_height, tx_index: old(data).tx_count },
                            i + 1));
                        if *amount > 0 {
                            let k = utxo_key_spec(utxo_id);
                            if old(state).coins@.contains_key(k) {
                                assert(coins_at.contains_key(k));
                            }
                        }
                    }
                },
                Output::Contract(co) => {
                    let idx = co.input_index as usize;
                    let mut contract_id_found: Option<u64> = None;
                    if idx < inputs.len() {
                        match &inputs[idx] {
                            Input::Contract(ci) => {
                                contract_id_found = Some(ci.contract_id);
                            },
                            _ => {},
                        }
                    }
                    match contract_id_found {
                        Some(contract_id) => {
                            let meta = ContractMeta {
                                utxo_id,
                                tx_pointer: TxPointer { block_height, tx_index: tx_idx },
                                balance_root: 0,
                                state_root: 0,
                            };
                            let updated = match state.contracts.get(contract_id as u128) {
                                Some(existing) => ContractMeta {
                                    utxo_id,
                                    tx_pointer: TxPointer {
                                        block_height,
                                        tx_index: tx_idx,
                                    },
                                    balance_root: existing.balance_root,
                                    state_root: existing.state_root,
                                },
                                None => meta,
                            };
                            let _ = state.contracts.insert(contract_id as u128, updated);
                            proof {
                                lemma_touch_step(outputs@, inputs_view(inputs@), i as int);
                                assert(output_contract_id(
                                    outputs@[i as int], inputs_view(inputs@))
                                    == Some(contract_id));
                                assert(data.events@ =~= old(data).events@
                                    + persist_events(
                                        outputs@, tx_id,
                                        TxPointer {
                                            block_height,
                                            tx_index: old(data).tx_count,
                                        },
                                        i + 1));
                            }
                        },
                        None => {
                            proof {
                                assert(!outputs_well_aimed(
                                    outputs@, inputs_view(inputs@)));
                                lemma_persist_error_skip(
                                    outputs@, inputs_view(inputs@),
                                    old(state).coins@, tx_id, 0, i as int);
                                assert(persist_error_from(
                                    outputs@, inputs_view(inputs@),
                                    old(state).coins@, tx_id, i as int)
                                    == ExecutorError::TransactionValidity(
                                        TransactionValidityError::InvalidContractInputIndex(
                                            utxo_id)));
                            }
                            return Err(ExecutorError::TransactionValidity(
                                TransactionValidityError::InvalidContractInputIndex(utxo_id),
                            ));
                        },
                    }
                },
                Output::ContractCreated { contract_id, state_root } => {
                    let meta = ContractMeta {
                        utxo_id,
                        tx_pointer: TxPointer { block_height, tx_index: tx_idx },
                        balance_root: 0,
                        state_root: *state_root,
                    };
                    let _ = state.contracts.insert(*contract_id as u128, meta);
                    proof {
                        lemma_touch_step(outputs@, inputs_view(inputs@), i as int);
                        assert(output_contract_id(
                            outputs@[i as int], inputs_view(inputs@))
                            == Some(*contract_id));
                        assert(data.events@ =~= old(data).events@ + persist_events(
                            outputs@, tx_id,
                            TxPointer { block_height, tx_index: old(data).tx_count },
                            i + 1));
                    }
                },
            }
            i = i + 1;
        }
        proof {
            assert(outputs@.take(n as int) =~= outputs@);
        }
        Ok(())
    }

    /// Fills the malleable fields of every input from storage: coin inputs
    /// get the coin's transaction pointer, contract inputs the contract's
    /// latest UTXO and roots.
    pub fn compute_inputs(
        &self,
        inputs: &mut Vec<Input>,
        state: &ExecState,
    ) -> (r: Result<(), ExecutorError>)
        requires
            state.wf(),
        ensures
            final(inputs)@.len() == old(inputs)@.len(),
            r is Ok <==> forall|m: int|
                0 <= m < old(inputs)@.len() ==> compute_input_possible(
                    (#[trigger] old(inputs)@[m]).view_input(),
                    state.view_state().coins,
                    state.view_state().contracts,
                    self.forbid_fake_coins,
                ),
            r is Ok ==> forall|m: int|
                0 <= m < old(inputs)@.len()
                    ==> (#[trigger] final(inputs)@[m]).view_input() == compute_input_spec(
                        old(inputs)@[m].view_input(),
                        state.view_state().coins,
                        state.view_state().contracts,
                        self.forbid_fake_coins,
                    ),
            r is Err ==> r->Err_0 is TransactionValidity,
    {
        let n = inputs.len();
        let mut i: usize = 0;
        while i < n
            invariant
                0 <= i <= n,
                n == inputs@.len(),
                inputs@.len() == old(inputs)@.len(),
                state.wf(),
                forall|m: int| i <= m < n ==> inputs@[m] == old(inputs)@[m],
                forall|m: int| 0 <= m < i ==> compute_input_possible(
                    (#[trigger] old(inputs)@[m]).view_input(),
                    state.view_state().coins,
                    state.view_state().contracts,
                    self.forbid_fake_coins,
                ),
                forall|m: int| 0 <= m < i
                    ==> (#[trigger] inputs@[m]).view_input() == compute_input_spec(
                        old(inputs)@[m].view_input(),
                        state.view_state().coins,
                        state.view_state().contracts,
                        self.forbid_fake_coins,
                    ),
            decreases n - i,
        {
            let replacement: Option<Input> = match &inputs[i] {
                Input::CoinSigned {
                    utxo_id, owner, amount, asset_id, witness_index, ..
                } => {
                    match self.get_coin_or_default(
                        state, *utxo_id, *owner, *amount, *asset_id) {
                        Ok(coin) => Some(Input::CoinSigned {
                            utxo_id: *utxo_id,
                            owner: *owner,
                            amount: *amount,
                            asset_id: *asset_id,
                            tx_pointer: coin.tx_pointer,
                            witness_index: *witness_index,
                        }),
                        Err(e) => {
                            return Err(ExecutorError::TransactionValidity(
                                TransactionValidityError::CoinDoesNotExist(*utxo_id),
                            ));
                        },
                    }
                },
                Input::CoinPredicate {
                    utxo_id, owner, amount, asset_id, predicate_gas_used, ..
                } => {
                    match self.get_coin_or_default(
                        state, *utxo_id, *owner, *amount, *asset_id) {
                        Ok(coin) => Some(Input::CoinPredicate {
                            utxo_id: *utxo_id,
                            owner: *owner,
                            amount: *amount,
                            asset_id: *asset_id,
                            tx_pointer: coin.tx_pointer,
                            predicate_gas_used: *predicate_gas_used,
                        }),
                        Err(e) => {
                            return Err(ExecutorError::TransactionValidity(
                                TransactionValidityError::CoinDoesNotExist(*utxo_id),
                            ));
                        },
                    }
                },
                Input::Contract(ci) => {
                    let contract_id = ci.contract_id;
                    match state.contracts.get(contract_id as u128) {
                        Some(meta) => Some(Input::Contract(ContractInput {
                            utxo_id: meta.utxo_id,
                            balance_root: meta.balance_root,
                            state_root: meta.state_root,
                            tx_pointer: meta.tx_pointer,
                            contract_id,
                        })),
                        None => {
                            if self.forbid_fake_coins {
                                return Err(ExecutorError::TransactionValidity(
                                    TransactionValidityError::ContractDoesNotExist(
                                        contract_id),
                                ));
                            }
                            Some(Input::Contract(ContractInput {
                                utxo_id: UtxoId { tx_id: 0, output_index: 0 },
                                balance_root: 0,
                                state_root: 0,
                                tx_pointer: TxPointer::zeroed(),
                                contract_id,
                            }))
                        },
                    }
                },
                _ => None,
            };
            match replacement {
                Some(input) => {
                    let _ = inputs.remove(i);
                    inputs.insert(i, input);
                },
                None => {},
            }
            i = i + 1;
        }
        Ok(())
    }

    /// Recomputes the roots of every contract output from the state after
    /// execution, so the output is deterministic against it.
    pub fn compute_state_of_not_utxo_outputs(
        &self,
        outputs: &mut Vec<Output>,
        inputs: &Vec<Input>,
        tx_id: u64,
        state: &ExecState,
    ) -> (r: Result<(), ExecutorError>)
        requires
            state.wf(),
        ensures
            final(outputs)@.len() == old(outputs)@.len(),
            r is Ok <==> outputs_well_aimed(old(outputs)@, inputs_view(inputs@)),
            r is Ok ==> forall|m: int|
                0 <= m < old(outputs)@.len()
                    ==> (#[trigger] final(outputs)@[m]) == compute_output_spec(
                        old(outputs)@[m],
                        inputs_view(inputs@),
                        state.view_state().contracts,
                    ),
            r is Err ==> r->Err_0 == ExecutorError::InvalidTransactionOutcome(tx_id),
    {
        let n = outputs.len();
        let mut i: usize = 0;
        while i < n
            invariant
                0 <= i <= n,
                n == outputs@.len(),
                outputs@.len() == old(outputs)@.len(),
                state.wf(),
                forall|m: int| i <= m < n ==> outputs@[m] == old(outputs)@[m],
                forall|m: int|
                    0 <= m < i && (#[trigger] old(outputs)@[m]) is Contract
                        ==> 0 <= old(outputs)@[m]->Contract_0.input_index
                            < inputs_view(inputs@).len()
                            && inputs_view(inputs@)[
                                old(outputs)@[m]->Contract_0.input_index as int] is Contract,
                forall|m: int| 0 <= m < i
                    ==> (#[trigger] outputs@[m]) == compute_output_spec(
                        old(outputs)@[m],
                        inputs_view(inputs@),
                        state.view_state().contracts,
                    ),
            decreases n - i,
        {
            let replacement: Option<Output> = match &outputs[i] {
                Output::Contract(co) => {
                    let idx = co.input_index as usize;
                    let mut contract_id_found: Option<u64> = None;
                    if idx < inputs.len() {
                        match &inputs[idx] {
                            Input::Contract(ci) => {
                                contract_id_found = Some(ci.contract_id);
                            },
                            _ => {},
                        }
                    }
                    match contract_id_found {
                        Some(contract_id) => {
                            let (balance_root, state_root): (u64, u64) =
                                match state.contracts.get(contract_id as u128) {
                                Some(meta) => (meta.balance_root, meta.state_root),
                                None => (0, 0),
                            };
                            Some(Output::Contract(ContractOutput {
                                input_index: co.input_index,
                                balance_root,
                                state_root,
                            }))
                        },
                        None => {
                            return Err(ExecutorError::InvalidTransactionOutcome(tx_id));
                        },
                    }
                },
                _ => None,
            };
            match replacement {
                Some(output) => {
                    let _ = outputs.remove(i);
                    outputs.insert(i, output);
                },
                None => {},
            }
            i = i + 1;
        }
        Ok(())
    }

    /// The gas a chargeable transaction used in all, and the fee it pays:
    /// the fee limit less the refund for the gas it did not use.
    pub fn total_fee_paid(
        &self,
        tx: &ChargeableTx,
        receipts: &Vec<Receipt>,
        gas_price: u64,
    ) -> (r: Result<(u64, u64), ExecutorError>)
        ensures
            match r {
                Ok(pair) => fee_outcome(*tx, receipts@, gas_price) == Some(pair),
                Err(e) => fee_outcome(*tx, receipts@, gas_price) is None
                    && ({
                        // The refund side fails as a fee overflow; only the
                        // gas addition fails as a gas overflow, naming its
                        // operands.
                        let used_gas = receipts_gas_used(receipts@);
                        let refund: int = if tx.max_gas >= tx.min_gas
                            && tx.max_gas - tx.min_gas >= used_gas {
                            (tx.max_gas - tx.min_gas - used_gas) * gas_price
                        } else {
                            0
                        };
                        if refund > u64::MAX || tx.max_fee_limit < refund {
                            e is FeeOverflow
                        } else {
                            e is GasOverflow
                                && e->GasOverflow_1 == tx.min_gas
                                && e->GasOverflow_2 == used_gas
                        }
                    }),
            },
    {
        let min_gas = tx.min_gas;
        let max_fee = tx.max_fee_limit;
        let mut used_gas: u64 = 0;
        let n = receipts.len();
        let mut i: usize = 0;
        let mut found: bool = false;
        while i < n
            invariant
                0 <= i <= n,
                n == receipts@.len(),
                !found ==> used_gas == 0 && forall|m: int|
                    0 <= m < i ==> !((#[trigger] receipts@[m]) is ScriptResult),
                found ==> exists|m: int|
                    0 <= m < i && (#[trigger] receipts@[m]) is ScriptResult
                        && used_gas == receipts@[m]->ScriptResult_gas_used,
                found ==> used_gas == receipts_gas_used(receipts@),
            decreases n - i,
        {
            if !found {
                match &receipts[i] {
                    Receipt::ScriptResult { gas_used } => {
                        used_gas = *gas_used;
                        found = true;
                        proof {
                            lemma_receipts_gas_first(receipts@, i as int);
                        }
                    },
                    _ => {},
                }
            }
            i = i + 1;
        }
        proof {
            if !found {
                lemma_receipts_gas_none(receipts@);
            }
        }
        // The refund for unused gas, in this model priced one to one.
        let refund: u64 = if tx.max_gas >= min_gas && tx.max_gas - min_gas >= used_gas {
            let unused = tx.max_gas - min_gas - used_gas;
            if gas_price > 0 && unused > u64::MAX / gas_price {
                proof {
                    assert((unused as int) * (gas_price as int) > 0xffffffffffffffff)
                        by (nonlinear_arith)
                        requires
                            (unused as int) > 0xffffffffffffffff as int / (gas_price as int),
                            (gas_price as int) >= 1,
                    ;
                }
                return Err(ExecutorError::FeeOverflow);
            }
            if gas_price == 0 {
                0
            } else {
                proof {
                    assert((unused as int) * (gas_price as int) <= 0xffffffffffffffff)
                        by (nonlinear_arith)
                        requires
                            (unused as int) <= 0xffffffffffffffff as int / (gas_price as int),
                            (gas_price as int) >= 1,
                    ;
                }
                unused * gas_price
            }
        } else {
            0
        };
        let fee = if max_fee >= refund {
            max_fee - refund
        } else {
            return Err(ExecutorError::FeeOverflow);
        };
        let total_used_gas = if min_gas <= u64::MAX - used_gas {
            min_gas + used_gas
        } else {
            return Err(ExecutorError::GasOverflow(
                "Total used gas overflowed.".to_owned(),
                min_gas,
                used_gas,
            ));
        };
        proof {
            assert(refund as int == (tx.max_gas - min_gas - used_gas) * gas_price
                || refund == 0) by (nonlinear_arith)
                requires
                    refund as int == if tx.max_gas >= min_gas
                        && tx.max_gas - min_gas >= used_gas && gas_price > 0 {
                        (tx.max_gas - min_gas - used_gas) * (gas_price as int)
                    } else {
                        0
                    },
            ;
        }
        Ok((total_used_gas, fee))
    }

    /// Accumulates one executed transaction's fee, gas and size into the
    /// block's running totals and records its status.
    pub fn update_execution_data(
        &self,
        tx: &ChargeableTx,
        data: &mut ExecutionData,
        receipts: Vec<Receipt>,
        gas_price: u64,
        reverted: bool,
        tx_id: u64,
    ) -> (r: Result<(), ExecutorError>)
        requires
            old(data).fees_consistent(),
        ensures
            final(data).found_mint == old(data).found_mint,
            final(data).tx_count == old(data).tx_count,
            final(data).events == old(data).events,
            final(data).skipped_transactions == old(data).skipped_transactions,
            final(data).event_inbox_root == old(data).event_inbox_root,
            final(data).l1_leaves == old(data).l1_leaves,
            r is Ok <==> (match fee_outcome(*tx, receipts@, gas_price) {
                Some((total_gas, total_fee)) => {
                    &&& old(data).coinbase + total_fee <= u64::MAX
                    &&& old(data).used_gas + total_gas <= u64::MAX
                    &&& old(data).used_size + tx.size <= u32::MAX
                },
                None => false,
            }),
            match r {
                Ok(()) => {
                    let outcome = fee_outcome(*tx, receipts@, gas_price);
                    let total_gas = (outcome->0).0;
                    let total_fee = (outcome->0).1;
                    &&& final(data).fees_consistent()
                    &&& final(data).coinbase == old(data).coinbase + total_fee
                    &&& final(data).used_gas == old(data).used_gas + total_gas
                    &&& final(data).used_size == old(data).used_size + tx.size
                    &&& final(data).message_ids@ == old(data).message_ids@
                        + (if reverted {
                            Seq::<u64>::empty()
                        } else {
                            message_out_ids(receipts@, receipts@.len() as int)
                        })
                    &&& final(data).tx_status@ == old(data).tx_status@.push(
                        status_of(tx_id, reverted, receipts, total_gas, total_fee))
                },
                Err(e) => (e is FeeOverflow || e is GasOverflow || e is TxSizeOverflow)
                    && *final(data) == *old(data),
            },
    {
        let (used_gas, tx_fee) = match self.total_fee_paid(tx, &receipts, gas_price) {
            Ok(pair) => pair,
            Err(e) => {
                return Err(e);
            },
        };
        let used_size = tx.size;
        if data.coinbase > u64::MAX - tx_fee {
            return Err(ExecutorError::FeeOverflow);
        }
        if data.used_gas > u64::MAX - used_gas {
            return Err(ExecutorError::GasOverflow(
                "Execution used gas overflowed.".to_owned(),
                data.used_gas,
                used_gas,
            ));
        }
        if data.used_size > u32::MAX - used_size {
            return Err(ExecutorError::TxSizeOverflow);
        }
        data.coinbase = data.coinbase + tx_fee;
        data.used_gas = data.used_gas + used_gas;
        data.used_size = data.used_size + used_size;
        if !reverted {
            let mut new_ids: Vec<u64> = Vec::new();
            let mut i: usize = 0;
            let n = receipts.len();
            while i < n
                invariant
                    0 <= i <= n,
                    n == receipts@.len(),
                    new_ids@ == message_out_ids(receipts@, i as int),
                decreases n - i,
            {
                match &receipts[i] {
                    Receipt::MessageOut { message_id } => {
                        new_ids.push(*message_id);
                    },
                    _ => {},
                }
                i = i + 1;
            }
            data.message_ids.append(&mut new_ids);
        }
        let status = if reverted {
            TransactionExecutionStatus {
                id: tx_id,
                result: TransactionExecutionResult::Failed {
                    receipts,
                    total_gas: used_gas,
                    total_fee: tx_fee,
                },
            }
        } else {
            TransactionExecutionStatus {
                id: tx_id,
                result: TransactionExecutionResult::Success {
                    receipts,
                    total_gas: used_gas,
                    total_fee: tx_fee,
                },
            }
        };
        let ghost fee_snapshot = tx_fee;
        data.tx_status.push(status);
        proof {
            assert(data.tx_status@.drop_last() =~= old(data).tx_status@);
            assert(fee_sum(data.tx_status@)
                == fee_sum(old(data).tx_status@) + fee_snapshot as nat);
            if reverted {
                assert(data.message_ids@ =~= old(data).message_ids@
                    + Seq::<u64>::empty());
            }
        }
        Ok(())
    }
}

/// What the fee computation answers: the total gas used and the fee paid,
/// or nothing where the arithmetic leaves the type. The refund prices each
/// unused gas unit at the gas price; the fee is the fee limit less the
/// refund.
pub open spec fn fee_outcome(tx: ChargeableTx, receipts: Seq<Receipt>, gas_price: u64) -> Option<
    (u64, u64),
> {
    let used_gas = receipts_gas_used(receipts);
    let refund: int = if tx.max_gas >= tx.min_gas && tx.max_gas - tx.min_gas >= used_gas {
        (tx.max_gas - tx.min_gas - used_gas) * gas_price
    } else {
        0
    };
    if refund > u64::MAX {
        None
    } else if tx.max_fee_limit < refund {
        None
    } else if tx.min_gas + used_gas > u64::MAX {
        None
    } else {
        Some(((tx.min_gas + used_gas) as u64, (tx.max_fee_limit - refund) as u64))
    }
}

/// The message identifiers the first `n` receipts emit, in order.
pub open spec fn message_out_ids(s: Seq<Receipt>, n: int) -> Seq<u64>
    decreases n,
{
    if n <= 0 {
        Seq::empty()
    } else {
        let rest = message_out_ids(s, n - 1);
        match s[n - 1] {
            Receipt::MessageOut { message_id } => rest.push(message_id),
            _ => rest,
        }
    }
}

/// The status one executed transaction leaves behind.
pub open spec fn status_of(
    tx_id: u64,
    reverted: bool,
    receipts: Vec<Receipt>,
    total_gas: u64,
    total_fee: u64,
) -> TransactionExecutionStatus {
    TransactionExecutionStatus {
        id: tx_id,
        result: if reverted {
            TransactionExecutionResult::Failed { receipts, total_gas, total_fee }
        } else {
            TransactionExecutionResult::Success { receipts, total_gas, total_fee }
        },
    }
}

/// The gas the first script-result receipt reports, or zero without one.
pub open spec fn receipts_gas_used(s: Seq<Receipt>) -> u64 {
    if exists|i: int| 0 <= i < s.len() && (#[trigger] s[i]) is ScriptResult {
        let i = choose|i: int| 0 <= i < s.len() && (#[trigger] s[i]) is ScriptResult
            && forall|m: int| 0 <= m < i ==> !((#[trigger] s[m]) is ScriptResult);
        s[i]->ScriptResult_gas_used
    } else {
        0
    }
}

/// The first script-result receipt fixes the reported gas.
proof fn lemma_receipts_gas_first(s: Seq<Receipt>, i: int)
    requires
        0 <= i < s.len(),
        s[i] is ScriptResult,
        forall|m: int| 0 <= m < i ==> !((#[trigger] s[m]) is ScriptResult),
    ensures
        receipts_gas_used(s) == s[i]->ScriptResult_gas_used,
{
    let w = choose|w: int| 0 <= w < s.len() && (#[trigger] s[w]) is ScriptResult
        && forall|m: int| 0 <= m < w ==> !((#[trigger] s[m]) is ScriptResult);
    if w < i {
        assert(!(s[w] is ScriptResult));
    } else if i < w {
        assert(!(s[i] is ScriptResult));
    }
}

proof fn lemma_receipts_gas_none(s: Seq<Receipt>)
    requires
        forall|m: int| 0 <= m < s.len() ==> !((#[trigger] s[m]) is ScriptResult),
    ensures
        receipts_gas_used(s) == 0,
{
    if exists|i: int| 0 <= i < s.len() && (#[trigger] s[i]) is ScriptResult {
        let i = choose|i: int| 0 <= i < s.len() && (#[trigger] s[i]) is ScriptResult;
        assert(!(s[i] is ScriptResult));
    }
}

impl<R: RelayerPort, N: NewTxWaiterPort, P: PreconfirmationSenderPort> BlockExecutor<R, N, P> {
    /// A mint may only stand where no mint stood before: it must be last.
    pub fn check_mint_is_not_found(data: &ExecutionData) -> (r: Result<(), ExecutorError>)
        ensures
            r is Ok <==> !data.found_mint,
            r is Err ==> r->Err_0 is MintIsNotLastTransaction,
    {
        if data.found_mint {
            return Err(ExecutorError::MintIsNotLastTransaction);
        }
        Ok(())
    }

    /// A transaction may enter a block at most once, ever.
    pub fn check_tx_is_not_duplicate(
        tx_id: u64,
        state: &ExecState,
    ) -> (r: Result<(), ExecutorError>)
        requires
            state.wf(),
        ensures
            r is Ok <==> !state.processed@.contains_key(tx_id as u128),
            r is Err ==> r->Err_0 == ExecutorError::TransactionIdCollision(tx_id),
    {
        if state.processed.contains_key(tx_id as u128) {
            return Err(ExecutorError::TransactionIdCollision(tx_id));
        }
        Ok(())
    }

    /// The mint's declared amount must equal the fees the block accrued.
    pub fn check_mint_amount(mint: &MintTx, expected_amount: u64) -> (r: Result<
        (),
        ExecutorError,
    >)
        ensures
            r is Ok <==> mint.mint_amount == expected_amount,
            r is Err ==> r->Err_0 is CoinbaseAmountMismatch,
    {
        if mint.mint_amount != expected_amount {
            return Err(ExecutorError::CoinbaseAmountMismatch);
        }
        Ok(())
    }

    /// The mint's declared gas price must equal the block's.
    pub fn check_gas_price(mint: &MintTx, expected_gas_price: u64) -> (r: Result<
        (),
        ExecutorError,
    >)
        ensures
            r is Ok <==> mint.gas_price == expected_gas_price,
            r is Err ==> r->Err_0 is CoinbaseGasPriceMismatch,
    {
        if mint.gas_price != expected_gas_price {
            return Err(ExecutorError::CoinbaseGasPriceMismatch);
        }
        Ok(())
    }

    /// The mint must stand at the position the block has reached.
    pub fn check_mint_has_expected_index(
        mint: &MintTx,
        data: &ExecutionData,
    ) -> (r: Result<(), ExecutorError>)
        ensures
            r is Ok <==> mint.tx_pointer.tx_index == data.tx_count,
            r is Err ==> r->Err_0 is MintHasUnexpectedIndex,
    {
        if mint.tx_pointer.tx_index != data.tx_count {
            return Err(ExecutorError::MintHasUnexpectedIndex);
        }
        Ok(())
    }

    /// A mint aimed at the zero contract settles nothing: its amount must be
    /// zero and its input and output the canonical zero forms.
    pub fn verify_mint_for_empty_contract(mint: &MintTx) -> (r: Result<(), ExecutorError>)
        ensures
            r is Ok <==> (mint.mint_amount == 0
                && mint.input_contract == canonical_zero_contract_input()
                && mint.output_contract == canonical_zero_contract_output()),
            mint.mint_amount != 0
                ==> r == Err::<(), ExecutorError>(ExecutorError::CoinbaseAmountMismatch),
            mint.mint_amount == 0
                && !(mint.input_contract == canonical_zero_contract_input()
                    && mint.output_contract == canonical_zero_contract_output())
                ==> r == Err::<(), ExecutorError>(ExecutorError::MintMismatch),
    {
        if mint.mint_amount != 0 {
            return Err(ExecutorError::CoinbaseAmountMismatch);
        }
        let input = ContractInput {
            utxo_id: UtxoId { tx_id: 0, output_index: 0 },
            balance_root: 0,
            state_root: 0,
            tx_pointer: TxPointer { block_height: 0, tx_index: 0 },
            contract_id: 0,
        };
        let output = ContractOutput { input_index: 0, balance_root: 0, state_root: 0 };
        if !(mint.input_contract == input && mint.output_contract == output) {
            return Err(ExecutorError::MintMismatch);
        }
        Ok(())
    }

    /// Increases the coinbase contract's balance of the minted asset inside
    /// the contract's balance tree, rolling its balance root forward.
    pub fn balance_increase(
        state: &mut ExecState,
        contract_id: u64,
        asset_id: u64,
        amount: u64,
    ) -> (r: Result<(), ExecutorError>)
        requires
            old(state).wf(),
        ensures
            final(state).wf(),
            final(state).coins@ == old(state).coins@,
            final(state).messages@ == old(state).messages@,
            final(state).processed@ == old(state).processed@,
            final(state).blocks@ == old(state).blocks@,
            final(state).params@ == old(state).params@,
            r is Ok <==> balance_before(old(state).balances@, contract_id, asset_id)
                + amount <= u64::MAX,
            match r {
                Ok(()) => {
                    let key = crate::assoc::asset_key_spec(contract_id, asset_id);
                    let before = balance_before(
                        old(state).balances@, contract_id, asset_id);
                    &&& final(state).balances@
                        =~= old(state).balances@.insert(key, (before + amount) as u64)
                    &&& final(state).contracts@ =~= old(state).contracts@.insert(
                        contract_id as u128,
                        balance_increased_meta(
                            old(state).contracts@, contract_id, asset_id,
                            (before + amount) as u64),
                    )
                },
                Err(e) => e is CoinbaseCannotIncreaseBalance
                    && *final(state) == *old(state),
            },
    {
        let key = asset_key(contract_id, asset_id);
        let before: u64 = match state.balances.get(key) {
            Some(v) => *v,
            None => 0,
        };
        if before > u64::MAX - amount {
            return Err(ExecutorError::CoinbaseCannotIncreaseBalance(
                "the coinbase contract's balance overflowed".to_owned(),
            ));
        }
        let _ = state.balances.insert(key, before + amount);
        let meta = match state.contracts.get(contract_id as u128) {
            Some(m) => ContractMeta {
                utxo_id: m.utxo_id,
                tx_pointer: m.tx_pointer,
                balance_root: crate::merkle::mix_step(
                    crate::merkle::mix_step(m.balance_root, asset_id), before + amount),
                state_root: m.state_root,
            },
            None => ContractMeta {
                utxo_id: UtxoId { tx_id: 0, output_index: 0 },
                tx_pointer: TxPointer { block_height: 0, tx_index: 0 },
                balance_root: crate::merkle::mix_step(
                    crate::merkle::mix_step(0, asset_id), before + amount),
                state_root: 0,
            },
        };
        let _ = state.contracts.insert(contract_id as u128, meta);
        Ok(())
    }

    /// Lifts a possibly pre-checked transaction to a checked one: raw
    /// transactions are checked afresh against the block height; pre-checked
    /// ones keep their checks when their consensus-parameters version still
    /// matches, and fail `TransactionExpired` when outdated by height.
    pub fn convert_maybe_checked_tx_to_checked_tx(
        &self,
        tx: MaybeCheckedTransaction,
        header: &PartialBlockHeader,
    ) -> (r: Result<Transaction, ExecutorError>)
        ensures
            r is Ok <==> header.height <= tx.tx_spec().expiration_spec(),
            match r {
                Ok(t) => t == tx.tx_spec(),
                Err(e) => header.height > tx.tx_spec().expiration_spec()
                    && (match tx {
                        MaybeCheckedTransaction::Transaction(_) => e is TransactionValidity,
                        MaybeCheckedTransaction::CheckedTransaction(_, _) =>
                            e == ExecutorError::TransactionExpired(
                                tx.tx_spec().expiration_spec(), header.height),
                    }),
            },
    {
        let block_height = header.height;
        match tx {
            MaybeCheckedTransaction::Transaction(t) => {
                let expiration = match &t {
                    Transaction::Script(b) => b.expiration,
                    Transaction::Create(b) => b.expiration,
                    Transaction::Upgrade(b) => b.expiration,
                    Transaction::Upload(b) => b.expiration,
                    Transaction::Blob(b) => b.expiration,
                    Transaction::Mint(_) => u32::MAX,
                };
                if block_height > expiration {
                    return Err(ExecutorError::TransactionValidity(
                        TransactionValidityError::Validation(
                            "the transaction expired before this block".to_owned(),
                        ),
                    ));
                }
                Ok(t)
            },
            MaybeCheckedTransaction::CheckedTransaction(t, _version) => {
                let expiration = match &t {
                    Transaction::Script(b) => b.expiration,
                    Transaction::Create(b) => b.expiration,
                    Transaction::Upgrade(b) => b.expiration,
                    Transaction::Upload(b) => b.expiration,
                    Transaction::Blob(b) => b.expiration,
                    Transaction::Mint(_) => u32::MAX,
                };
                if block_height > expiration {
                    return Err(ExecutorError::TransactionExpired(expiration, block_height));
                }
                Ok(t)
            },
        }
    }

    /// The checks only demanded when fake inputs are forbidden: input
    /// existence and matching against the stored records.
    pub fn extra_tx_checks(
        &self,
        tx: &ChargeableTx,
        header: &PartialBlockHeader,
        state: &ExecState,
    ) -> (r: Result<(), ExecutorError>)
        requires
            state.wf(),
        ensures
            r is Ok <==> forall|m: int|
                0 <= m < tx.inputs@.len() ==> input_acceptable(
                    (#[trigger] tx.inputs@[m]).view_input(),
                    state.view_state().coins,
                    state.view_state().contracts,
                    state.view_state().messages,
                    header.da_height,
                ),
            r is Err ==> r->Err_0 is TransactionValidity,
    {
        self.verify_inputs_exist_and_values_match(state, &tx.inputs, header.da_height)
    }

    /// Restores the predicate-gas figures the inputs carried before the
    /// machine ran, which zeroes malleable fields during execution.
    pub fn update_input_used_gas(
        predicate_gas_used: &Vec<Option<u64>>,
        inputs: &mut Vec<Input>,
    )
        ensures
            final(inputs)@.len() == old(inputs)@.len(),
            forall|m: int|
                0 <= m < old(inputs)@.len() && m < predicate_gas_used@.len()
                    ==> (#[trigger] final(inputs)@[m]).view_input() == restore_gas_spec(
                        old(inputs)@[m].view_input(),
                        predicate_gas_used@[m],
                    ),
            forall|m: int|
                predicate_gas_used@.len() <= m < old(inputs)@.len()
                    ==> (#[trigger] final(inputs)@[m]) == old(inputs)@[m],
    {
        let n = if predicate_gas_used.len() < inputs.len() {
            predicate_gas_used.len()
        } else {
            inputs.len()
        };
        let mut i: usize = 0;
        while i < n
            invariant
                0 <= i <= n,
                n <= inputs@.len(),
                n <= predicate_gas_used@.len(),
                n == (if predicate_gas_used@.len() < inputs@.len() {
                    predicate_gas_used@.len() as int
                } else {
                    inputs@.len() as int
                }),
                inputs@.len() == old(inputs)@.len(),
                forall|m: int| i <= m < inputs@.len() ==> inputs@[m] == old(inputs)@[m],
                forall|m: int| 0 <= m < i
                    ==> (#[trigger] inputs@[m]).view_input() == restore_gas_spec(
                        old(inputs)@[m].view_input(),
                        predicate_gas_used@[m],
                    ),
            decreases n - i,
        {
            match &predicate_gas_used[i] {
                Some(gas_used) => {
                    let gas = *gas_used;
                    let replacement: Option<Input> = match &inputs[i] {
                        Input::CoinPredicate {
                            utxo_id, owner, amount, asset_id, tx_pointer, ..
                        } => Some(Input::CoinPredicate {
                            utxo_id: *utxo_id,
                            owner: *owner,
                            amount: *amount,
                            asset_id: *asset_id,
                            tx_pointer: *tx_pointer,
                            predicate_gas_used: gas,
                        }),
                        Input::MessageCoinPredicate {
                            sender, recipient, amount, nonce, ..
                        } => Some(Input::MessageCoinPredicate {
                            sender: *sender,
                            recipient: *recipient,
                            amount: *amount,
                            nonce: *nonce,
                            predicate_gas_used: gas,
                        }),
                        Input::MessageDataPredicate {
                            sender, recipient, amount, nonce, data, ..
                        } => Some(Input::MessageDataPredicate {
                            sender: *sender,
                            recipient: *recipient,
                            amount: *amount,
                            nonce: *nonce,
                            data: crate::order::clone_bytes(data),
                            predicate_gas_used: gas,
                        }),
                        _ => None,
                    };
                    match replacement {
                        Some(input) => {
                            let _ = inputs.remove(i);
                            inputs.insert(i, input);
                        },
                        None => {},
                    }
                },
                None => {},
            }
            i = i + 1;
        }
    }

    /// Runs one chargeable transaction through the machine: the verdict and
    /// receipts are the transaction's own, the malleable input and output
    /// fields are recomputed from storage.
    pub fn attempt_tx_execution_with_vm(
        &self,
        tx: ChargeableTx,
        header: &PartialBlockHeader,
        state: &ExecState,
    ) -> (r: Result<(ChargeableTx, bool, Vec<Receipt>), ExecutorError>)
        requires
            state.wf(),
        ensures
            // The run succeeds exactly when every input's malleable fields
            // can be computed and every contract output names a contract
            // input slot.
            r is Ok <==> ((forall|m: int|
                0 <= m < tx.inputs@.len() ==> compute_input_possible(
                    (#[trigger] tx.inputs@[m]).view_input(),
                    state.view_state().coins,
                    state.view_state().contracts,
                    self.forbid_fake_coins,
                )) && outputs_well_aimed(
                tx.outputs@,
                computed_views(
                    tx.inputs@,
                    state.view_state().coins,
                    state.view_state().contracts,
                    self.forbid_fake_coins,
                ),
            )),
            match r {
                Ok((t, reverted, receipts)) => {
                    // The verdict is the transaction's own; a permissive dry
                    // run additionally reverts on a missing contract input
                    // and synthesises a panic receipt for each.
                    &&& reverted == (tx.reverts || (self.dry_run && has_missing_contract(
                        inputs_view(tx.inputs@), state.view_state().contracts)))
                    &&& receipts@ == tx.receipts@ + (if self.dry_run {
                        missing_contract_panics(
                            inputs_view(tx.inputs@),
                            state.view_state().contracts,
                            tx.inputs@.len() as int,
                        )
                    } else {
                        Seq::<Receipt>::empty()
                    })
                    &&& t.tx_id == tx.tx_id
                    &&& t.min_gas == tx.min_gas
                    &&& t.max_gas == tx.max_gas
                    &&& t.max_fee_limit == tx.max_fee_limit
                    &&& t.size == tx.size
                    &&& t.reverts == tx.reverts
                    &&& t.inputs@.len() == tx.inputs@.len()
                    &&& t.outputs@.len() == tx.outputs@.len()
                    // Every input's malleable fields are recomputed from
                    // storage, the machine's zeroing notwithstanding.
                    &&& forall|m: int| 0 <= m < tx.inputs@.len()
                        ==> (#[trigger] t.inputs@[m]).view_input() == compute_input_spec(
                            tx.inputs@[m].view_input(),
                            state.view_state().coins,
                            state.view_state().contracts,
                            self.forbid_fake_coins,
                        )
                    // Every contract output's roots are recomputed from the
                    // state after execution.
                    &&& forall|m: int| 0 <= m < tx.outputs@.len()
                        ==> (#[trigger] t.outputs@[m]) == compute_output_spec(
                            tx.outputs@[m],
                            inputs_view(t.inputs@),
                            state.view_state().contracts,
                        )
                },
                Err(e) => e is TransactionValidity || e is InvalidTransactionOutcome,
            },
    {
        let mut reverted = tx.reverts;
        let mut predicate_gas_used: Vec<Option<u64>> = Vec::new();
        let ni = tx.inputs.len();
        let mut i: usize = 0;
        while i < ni
            invariant
                0 <= i <= ni,
                ni == tx.inputs@.len(),
                predicate_gas_used@.len() == i,
                forall|m: int| 0 <= m < i ==> (#[trigger] predicate_gas_used@[m])
                    == predicate_gas_of(tx.inputs@[m].view_input()),
            decreases ni - i,
        {
            let entry: Option<u64> = match &tx.inputs[i] {
                Input::CoinPredicate { predicate_gas_used: g, .. } => Some(*g),
                Input::MessageCoinPredicate { predicate_gas_used: g, .. } => Some(*g),
                Input::MessageDataPredicate { predicate_gas_used: g, .. } => Some(*g),
                _ => None,
            };
            predicate_gas_used.push(entry);
            i = i + 1;
        }
        let ChargeableTx {
            tx_id,
            mut inputs,
            mut outputs,
            max_fee_limit,
            expiration,
            size,
            min_gas,
            max_gas,
            reverts,
            receipts,
        } = tx;
        let mut receipts_out = Self::copy_receipts(&receipts);
        Self::update_input_used_gas(&predicate_gas_used, &mut inputs);
        proof {
            assert forall|m: int| 0 <= m < tx.inputs@.len() implies
                (#[trigger] inputs@[m]).view_input() == tx.inputs@[m].view_input() by {
                lemma_restore_identity(tx.inputs@[m].view_input());
            }
        }
        if self.dry_run {
            // The permissive dry-run verifier: a contract input without a
            // stored contract forces a revert and a synthesised panic
            // receipt, in input order.
            let nj = inputs.len();
            let mut j: usize = 0;
            while j < nj
                invariant
                    0 <= j <= nj,
                    nj == inputs@.len(),
                    state.wf(),
                    inputs@.len() == tx.inputs@.len(),
                    forall|m: int| 0 <= m < tx.inputs@.len()
                        ==> (#[trigger] inputs@[m]).view_input()
                            == tx.inputs@[m].view_input(),
                    receipts_out@ == receipts@ + missing_contract_panics(
                        inputs_view(tx.inputs@),
                        state.view_state().contracts,
                        j as int,
                    ),
                    receipts@ == tx.receipts@,
                    reverted == (tx.reverts || (exists|m: int|
                        0 <= m < j && (#[trigger] inputs_view(tx.inputs@)[m]) is Contract
                            && !state.view_state().contracts.contains_key(
                                inputs_view(tx.inputs@)[m]->Contract_0.contract_id
                                    as u128))),
                decreases nj - j,
            {
                match &inputs[j] {
                    Input::Contract(ci) => {
                        if !state.contracts.contains_key(ci.contract_id as u128) {
                            receipts_out.push(Receipt::Panic {
                                contract_id: ci.contract_id,
                            });
                            reverted = true;
                            proof {
                                assert(receipts_out@ =~= receipts@
                                    + missing_contract_panics(
                                        inputs_view(tx.inputs@),
                                        state.view_state().contracts,
                                        j + 1,
                                    ));
                                assert((inputs_view(tx.inputs@)[j as int]) is Contract);
                            }
                        }
                    },
                    _ => {},
                }
                proof {
                    assert(receipts_out@ =~= receipts@ + missing_contract_panics(
                        inputs_view(tx.inputs@),
                        state.view_state().contracts,
                        j + 1,
                    ));
                }
                j = j + 1;
            }
            proof {
                assert(reverted == (tx.reverts || has_missing_contract(
                    inputs_view(tx.inputs@), state.view_state().contracts)));
            }
        } else {
            proof {
                assert(receipts_out@ =~= receipts@ + Seq::<Receipt>::empty());
            }
        }
        let ghost pre_compute = inputs@;
        match self.compute_inputs(&mut inputs, state) {
            Ok(()) => {},
            Err(e) => {
                proof {
                    assert(!(forall|m: int|
                        0 <= m < tx.inputs@.len() ==> compute_input_possible(
                            (#[trigger] tx.inputs@[m]).view_input(),
                            state.view_state().coins,
                            state.view_state().contracts,
                            self.forbid_fake_coins,
                        ))) by {
                        let m = choose|m: int|
                            0 <= m < pre_compute.len() && !compute_input_possible(
                                (#[trigger] pre_compute[m]).view_input(),
                                state.view_state().coins,
                                state.view_state().contracts,
                                self.forbid_fake_coins,
                            );
                        assert(pre_compute[m].view_input()
                            == tx.inputs@[m].view_input());
                    }
                }
                return Err(e);
            },
        }
        proof {
            assert forall|m: int| 0 <= m < tx.inputs@.len() implies
                compute_input_possible(
                    (#[trigger] tx.inputs@[m]).view_input(),
                    state.view_state().coins,
                    state.view_state().contracts,
                    self.forbid_fake_coins,
                ) by {
                assert(pre_compute[m].view_input() == tx.inputs@[m].view_input());
            }
            assert(inputs_view(inputs@) =~= computed_views(
                tx.inputs@,
                state.view_state().coins,
                state.view_state().contracts,
                self.forbid_fake_coins,
            )) by {
                assert forall|m: int| 0 <= m < tx.inputs@.len() implies
                    (#[trigger] inputs@[m]).view_input() == compute_input_spec(
                        tx.inputs@[m].view_input(),
                        state.view_state().coins,
                        state.view_state().contracts,
                        self.forbid_fake_coins,
                    ) by {
                    assert(pre_compute[m].view_input() == tx.inputs@[m].view_input());
                }
            }
        }
        match self.compute_state_of_not_utxo_outputs(&mut outputs, &inputs, tx_id, state) {
            Ok(()) => {},
            Err(e) => {
                return Err(e);
            },
        }
        let t = ChargeableTx {
            tx_id,
            inputs,
            outputs,
            max_fee_limit,
            expiration,
            size,
            min_gas,
            max_gas,
            reverts,
            receipts,
        };
        Ok((t, reverted, receipts_out))
    }

    /// A field-for-field copy of a receipt list.
    pub fn copy_receipts(receipts: &Vec<Receipt>) -> (r: Vec<Receipt>)
        ensures
            r@ == receipts@,
    {
        let mut out: Vec<Receipt> = Vec::new();
        let n = receipts.len();
        let mut i: usize = 0;
        while i < n
            invariant
                0 <= i <= n,
                n == receipts@.len(),
                out@ == receipts@.take(i as int),
            decreases n - i,
        {
            out.push(receipts[i]);
            proof {
                assert(out@ =~= receipts@.take(i + 1));
            }
            i = i + 1;
        }
        proof {
            assert(receipts@.take(n as int) =~= receipts@);
        }
        out
    }
}

/// The canonical zero contract input a zero-contract mint must carry.
pub open spec fn canonical_zero_contract_input() -> ContractInput {
    ContractInput {
        utxo_id: UtxoId { tx_id: 0, output_index: 0 },
        balance_root: 0,
        state_root: 0,
        tx_pointer: TxPointer { block_height: 0, tx_index: 0 },
        contract_id: 0,
    }
}

/// The canonical zero contract output a zero-contract mint must carry.
pub open spec fn canonical_zero_contract_output() -> ContractOutput {
    ContractOutput { input_index: 0, balance_root: 0, state_root: 0 }
}

impl<R: RelayerPort, N: NewTxWaiterPort, P: PreconfirmationSenderPort> BlockExecutor<R, N, P> {
    /// Executes one chargeable transaction: optional strict input checks,
    /// the machine run, spending inputs, persisting outputs, marking the
    /// transaction processed and recording its outcome.
    #[verifier::rlimit(100)]
    #[verifier::spinoff_prover]
    pub fn execute_chargeable_transaction(
        &self,
        kind: crate::tx::TxKind,
        tx: ChargeableTx,
        header: &PartialBlockHeader,
        gas_price: u64,
        data: &mut ExecutionData,
        state: &mut ExecState,
    ) -> (r: Result<Transaction, ExecutorError>)
        requires
            old(state).wf(),
            old(data).fees_consistent(),
        ensures
            final(state).wf(),
            final(data).found_mint == old(data).found_mint,
            final(data).tx_count == old(data).tx_count,
            final(data).event_inbox_root == old(data).event_inbox_root,
            final(data).l1_leaves == old(data).l1_leaves,
            old(data).events@.len() <= final(data).events@.len(),
            final(data).events@.take(old(data).events@.len() as int) == old(data).events@,
            final(data).skipped_transactions == old(data).skipped_transactions,
            // Success is owed exactly where every stage's condition holds.
            r is Ok <==> chargeable_ok(
                tx, *old(state), header.da_height, old(data).coinbase,
                old(data).used_gas, old(data).used_size, gas_price,
                self.forbid_fake_coins, self.dry_run),
            match r {
                Ok(t) => {
                    let cviews = computed_views(
                        tx.inputs@, old(state).coins@, old(state).contracts@,
                        self.forbid_fake_coins);
                    let rev = chargeable_reverts(tx, *old(state), self.dry_run);
                    let rcpts = chargeable_receipts(tx, *old(state), self.dry_run);
                    let sp = spend_trace(
                        cviews, old(state).coins@, old(state).messages@, rev,
                        self.forbid_fake_coins)->0;
                    let outcome = fee_outcome(tx, rcpts, gas_price);
                    &&& t.id_spec() == tx.tx_id
                    &&& !(t is Mint)
                    &&& final(state).processed@.contains_key(tx.tx_id as u128)
                    &&& final(state).processed@
                        =~= old(state).processed@.insert(tx.tx_id as u128, true)
                    // The message table is the spend's; the events appended
                    // are the consumptions, then the coin creations.
                    &&& final(state).messages@ == sp.messages
                    &&& final(state).balances@ == old(state).balances@
                    &&& final(state).blocks@ == old(state).blocks@
                    &&& final(state).params@ == old(state).params@
                    &&& final(data).events@ == old(data).events@ + sp.events
                        + persist_events(
                            tx.outputs@, tx.tx_id,
                            TxPointer {
                                block_height: header.height,
                                tx_index: old(data).tx_count,
                            },
                            tx.outputs@.len() as int)
                    // Spent coins leave; surviving and created coins are
                    // exact.
                    &&& forall|ck: u128| sp.coins.contains_key(ck)
                        ==> #[trigger] final(state).coins@.contains_key(ck)
                            && final(state).coins@[ck] == sp.coins[ck]
                    &&& forall|m: int|
                        0 <= m < tx.outputs@.len()
                            && (#[trigger] tx.outputs@[m]).coin_fields() is Some
                            && (tx.outputs@[m].coin_fields()->0).1 > 0
                            ==> final(state).coins@.contains_key(utxo_key_spec(
                                UtxoId { tx_id: tx.tx_id, output_index: m as u16 }))
                    // Touched contracts record this transaction as their
                    // latest UTXO; untouched ones keep their records.
                    &&& forall|cid: u64|
                        #[trigger] final(state).contracts@.contains_key(cid as u128)
                            <==> (old(state).contracts@.contains_key(cid as u128)
                                || touches_contract(tx.outputs@, cviews, cid))
                    &&& forall|cid: u64| old(state).contracts@.contains_key(cid as u128)
                        && !touches_contract(tx.outputs@, cviews, cid)
                        ==> #[trigger] final(state).contracts@[cid as u128]
                            == old(state).contracts@[cid as u128]
                    // The recorded status and the running totals are exact.
                    &&& final(data).fees_consistent()
                    &&& final(data).coinbase == old(data).coinbase + (outcome->0).1
                    &&& final(data).used_gas == old(data).used_gas + (outcome->0).0
                    &&& final(data).used_size == old(data).used_size + tx.size
                    &&& final(data).tx_status@.len() == old(data).tx_status@.len() + 1
                    &&& final(data).tx_status@.last().id == tx.tx_id
                    &&& (final(data).tx_status@.last().result is Failed <==> rev)
                    &&& final(data).tx_status@.last().result.total_fee_spec()
                        == (outcome->0).1
                    &&& result_receipts(final(data).tx_status@.last().result) == rcpts
                    &&& final(data).tx_status@.take(old(data).tx_status@.len() as int)
                        == old(data).tx_status@
                    &&& final(data).skipped_transactions
                        == old(data).skipped_transactions
                    // The returned transaction carries the recomputed
                    // malleable input fields and output roots.
                    &&& tx_inputs_of(t).len() == tx.inputs@.len()
                    &&& forall|m: int| 0 <= m < tx.inputs@.len()
                        ==> (#[trigger] tx_inputs_of(t)[m]).view_input() == cviews[m]
                    &&& tx_outputs_of(t).len() == tx.outputs@.len()
                    &&& forall|m: int| 0 <= m < tx.outputs@.len()
                        ==> (#[trigger] tx_outputs_of(t)[m]) == compute_output_spec(
                            tx.outputs@[m], cviews, old(state).contracts@)
                },
                Err(_) => final(data).fees_consistent()
                    && final(data).tx_status == old(data).tx_status,
            },
    {
        let tx_id = tx.tx_id;
        let ghost st0 = *state;
        let ghost cviews = computed_views(
            tx.inputs@, state.coins@, state.contracts@, self.forbid_fake_coins);
        let ghost rev_spec = chargeable_reverts(tx, *state, self.dry_run);
        let ghost rcpts_spec = chargeable_receipts(tx, *state, self.dry_run);
        if self.forbid_fake_coins {
            match self.extra_tx_checks(&tx, header, state) {
                Ok(()) => {},
                Err(e) => {
                    proof {
                        let m = choose|m: int|
                            0 <= m < tx.inputs@.len() && !input_acceptable(
                                (#[trigger] tx.inputs@[m]).view_input(),
                                st0.view_state().coins,
                                st0.view_state().contracts,
                                st0.view_state().messages,
                                header.da_height,
                            );
                        assert(inputs_view(tx.inputs@)[m]
                            == tx.inputs@[m].view_input());
                        assert(!chargeable_ok(
                            tx, st0, header.da_height, old(data).coinbase,
                            old(data).used_gas, old(data).used_size, gas_price,
                            self.forbid_fake_coins, self.dry_run));
                    }
                    return Err(e);
                },
            }
        }
        let (t, reverted, receipts) = match self.attempt_tx_execution_with_vm(
            tx, header, state) {
            Ok(triple) => triple,
            Err(e) => {
                return Err(e);
            },
        };
        proof {
            assert(inputs_view(t.inputs@) =~= cviews);
            assert(reverted == rev_spec);
            assert(receipts@ == rcpts_spec);
        }
        match self.spend_input_utxos(&t.inputs, state, reverted, data) {
            Ok(()) => {},
            Err(e) => {
                return Err(e);
            },
        }
        let ghost sp = spend_trace(
            cviews, st0.coins@, st0.messages@, rev_spec, self.forbid_fake_coins)->0;
        if t.outputs.len() > 65535 {
            return Err(ExecutorError::TooManyOutputs);
        }
        proof {
            // The recomputed outputs differ from the transaction's only in
            // contract roots: coin fields, variants and aimed slots agree.
            assert forall|m: int| 0 <= m < tx.outputs@.len() implies
                (#[trigger] t.outputs@[m]).coin_fields() == tx.outputs@[m].coin_fields()
                    && ((t.outputs@[m] is Contract) <==> (tx.outputs@[m] is Contract))
                    && (t.outputs@[m] is Contract
                        ==> t.outputs@[m]->Contract_0.input_index
                            == tx.outputs@[m]->Contract_0.input_index)
                    && output_contract_id(t.outputs@[m], cviews)
                        == output_contract_id(tx.outputs@[m], cviews) by {}
            lemma_persist_events_congruence(
                t.outputs@, tx.outputs@, tx_id,
                TxPointer { block_height: header.height, tx_index: data.tx_count },
                tx.outputs@.len() as int);
            assert(outputs_well_aimed(t.outputs@, cviews)
                <==> outputs_well_aimed(tx.outputs@, cviews)) by {
                if outputs_well_aimed(t.outputs@, cviews) {
                    assert forall|m: int|
                        0 <= m < tx.outputs@.len() && (#[trigger] tx.outputs@[m]) is Contract
                            implies 0 <= tx.outputs@[m]->Contract_0.input_index
                                < cviews.len()
                                && cviews[
                                    tx.outputs@[m]->Contract_0.input_index as int]
                                    is Contract by {
                        assert(t.outputs@[m] is Contract);
                    }
                }
                if outputs_well_aimed(tx.outputs@, cviews) {
                    assert forall|m: int|
                        0 <= m < t.outputs@.len() && (#[trigger] t.outputs@[m]) is Contract
                            implies 0 <= t.outputs@[m]->Contract_0.input_index
                                < cviews.len()
                                && cviews[t.outputs@[m]->Contract_0.input_index as int]
                                    is Contract by {
                        assert(tx.outputs@[m] is Contract);
                    }
                }
            }
            assert(persist_possible(t.outputs@, cviews, sp.coins, tx_id)
                <==> persist_possible(tx.outputs@, cviews, sp.coins, tx_id)) by {
                assert forall|m: int|
                    0 <= m < tx.outputs@.len() implies
                    ((#[trigger] tx.outputs@[m]).coin_fields() is Some
                        && (tx.outputs@[m].coin_fields()->0).1 > 0
                        <==> (#[trigger] t.outputs@[m]).coin_fields() is Some
                            && (t.outputs@[m].coin_fields()->0).1 > 0) by {}
                if persist_possible(t.outputs@, cviews, sp.coins, tx_id) {
                    assert forall|m: int|
                        0 <= m < tx.outputs@.len()
                            && (#[trigger] tx.outputs@[m]).coin_fields() is Some
                            && (tx.outputs@[m].coin_fields()->0).1 > 0
                            implies !sp.coins.contains_key(utxo_key_spec(
                                UtxoId { tx_id, output_index: m as u16 })) by {
                        assert(t.outputs@[m].coin_fields() is Some
                            && (t.outputs@[m].coin_fields()->0).1 > 0);
                    }
                }
                if persist_possible(tx.outputs@, cviews, sp.coins, tx_id) {
                    assert forall|m: int|
                        0 <= m < t.outputs@.len()
                            && (#[trigger] t.outputs@[m]).coin_fields() is Some
                            && (t.outputs@[m].coin_fields()->0).1 > 0
                            implies !sp.coins.contains_key(utxo_key_spec(
                                UtxoId { tx_id, output_index: m as u16 })) by {
                        assert(tx.outputs@[m].coin_fields() is Some
                            && (tx.outputs@[m].coin_fields()->0).1 > 0);
                    }
                }
            }
            assert forall|cid: u64|
                #[trigger] touches_contract(t.outputs@, cviews, cid)
                    <==> touches_contract(tx.outputs@, cviews, cid) by {
                if touches_contract(t.outputs@, cviews, cid) {
                    let j = choose|j: int|
                        0 <= j < t.outputs@.len() && output_contract_id(
                            #[trigger] t.outputs@[j], cviews) == Some(cid);
                    assert(output_contract_id(tx.outputs@[j], cviews) == Some(cid));
                }
                if touches_contract(tx.outputs@, cviews, cid) {
                    let j = choose|j: int|
                        0 <= j < tx.outputs@.len() && output_contract_id(
                            #[trigger] tx.outputs@[j], cviews) == Some(cid);
                    assert(output_contract_id(t.outputs@[j], cviews) == Some(cid));
                }
            }
        }
        match self.persist_output_utxos(
            header.height, data, tx_id, state, &t.inputs, &t.outputs) {
            Ok(()) => {},
            Err(e) => {
                return Err(e);
            },
        }
        let _ = state.processed.insert(tx_id as u128, true);
        proof {
            assert(fee_outcome(t, receipts@, gas_price)
                == fee_outcome(tx, rcpts_spec, gas_price));
        }
        match self.update_execution_data(&t, data, receipts, gas_price, reverted, tx_id) {
            Ok(()) => {},
            Err(e) => {
                return Err(e);
            },
        }
        proof {
            assert(chargeable_ok(
                tx, st0, header.da_height, old(data).coinbase, old(data).used_gas,
                old(data).used_size, gas_price, self.forbid_fake_coins, self.dry_run))
                by {
                assert(spend_trace(
                    cviews, st0.coins@, st0.messages@, rev_spec,
                    self.forbid_fake_coins) is Some);
                assert(persist_possible(tx.outputs@, cviews, sp.coins, tx.tx_id));
                assert(tx.outputs@.len() <= u16::MAX);
                match fee_outcome(tx, rcpts_spec, gas_price) {
                    Some(pair) => {
                        assert(old(data).coinbase + pair.1 <= u64::MAX);
                        assert(old(data).used_gas + pair.0 <= u64::MAX);
                        assert(old(data).used_size + tx.size <= u32::MAX);
                    },
                    None => {
                        assert(false);
                    },
                }
            }
        }
        proof {
            assert forall|m: int|
                0 <= m < tx.outputs@.len()
                    && (#[trigger] tx.outputs@[m]).coin_fields() is Some
                    && (tx.outputs@[m].coin_fields()->0).1 > 0
                    implies state.coins@.contains_key(utxo_key_spec(
                        UtxoId { tx_id: tx.tx_id, output_index: m as u16 })) by {
                assert(t.outputs@[m].coin_fields() is Some
                    && (t.outputs@[m].coin_fields()->0).1 > 0);
            }
        }
        let out = match kind {
            crate::tx::TxKind::Script => Transaction::Script(t),
            crate::tx::TxKind::Create => Transaction::Create(t),
            crate::tx::TxKind::Upgrade => Transaction::Upgrade(t),
            crate::tx::TxKind::Upload => Transaction::Upload(t),
            crate::tx::TxKind::Blob => Transaction::Blob(t),
        };
        Ok(out)
    }

    /// Executes the mint: position, gas price and amount are enforced, a
    /// zero-contract mint must be canonical and settle nothing, any other
    /// mint settles the accrued fees into the coinbase contract.
    pub fn execute_mint(
        &self,
        mint: MintTx,
        header: &PartialBlockHeader,
        gas_price: u64,
        data: &mut ExecutionData,
        state: &mut ExecState,
    ) -> (r: Result<Transaction, ExecutorError>)
        requires
            old(state).wf(),
            old(data).fees_consistent(),
        ensures
            final(state).wf(),
            final(data).tx_count == old(data).tx_count,
            final(data).found_mint,
            final(data).events == old(data).events,
            final(data).skipped_transactions == old(data).skipped_transactions,
            final(data).event_inbox_root == old(data).event_inbox_root,
            final(data).l1_leaves == old(data).l1_leaves,
            // Success is owed exactly where the mint's checks all pass.
            r is Ok <==> mint_ok(
                mint, *old(state), old(data).coinbase, old(data).tx_count, gas_price,
                self.forbid_fake_coins),
            // Each refusal names its cause.
            mint.tx_pointer.tx_index != old(data).tx_count
                ==> r == Err::<Transaction, ExecutorError>(
                    ExecutorError::MintHasUnexpectedIndex),
            mint.tx_pointer.tx_index == old(data).tx_count && mint.gas_price != gas_price
                ==> r == Err::<Transaction, ExecutorError>(
                    ExecutorError::CoinbaseGasPriceMismatch),
            mint.tx_pointer.tx_index == old(data).tx_count && mint.gas_price == gas_price
                && old(state).processed@.contains_key(mint.tx_id as u128)
                ==> r == Err::<Transaction, ExecutorError>(
                    ExecutorError::TransactionIdCollision(mint.tx_id)),
            mint.tx_pointer.tx_index == old(data).tx_count && mint.gas_price == gas_price
                && !old(state).processed@.contains_key(mint.tx_id as u128)
                && mint.input_contract.contract_id == 0 && mint.mint_amount != 0
                ==> r == Err::<Transaction, ExecutorError>(
                    ExecutorError::CoinbaseAmountMismatch),
            mint.tx_pointer.tx_index == old(data).tx_count && mint.gas_price == gas_price
                && !old(state).processed@.contains_key(mint.tx_id as u128)
                && mint.input_contract.contract_id == 0 && mint.mint_amount == 0
                && !(mint.input_contract == canonical_zero_contract_input()
                    && mint.output_contract == canonical_zero_contract_output())
                ==> r == Err::<Transaction, ExecutorError>(ExecutorError::MintMismatch),
            mint.tx_pointer.tx_index == old(data).tx_count && mint.gas_price == gas_price
                && !old(state).processed@.contains_key(mint.tx_id as u128)
                && mint.input_contract.contract_id != 0
                && mint.mint_amount != old(data).coinbase
                ==> r == Err::<Transaction, ExecutorError>(
                    ExecutorError::CoinbaseAmountMismatch),
            match r {
                Ok(t) => {
                    &&& t is Mint
                    &&& t->Mint_0.tx_id == mint.tx_id
                    &&& t->Mint_0.tx_pointer == mint.tx_pointer
                    &&& t->Mint_0.mint_amount == mint.mint_amount
                    &&& t->Mint_0.gas_price == mint.gas_price
                    &&& t->Mint_0.mint_asset_id == mint.mint_asset_id
                    &&& t->Mint_0.input_contract.contract_id
                        == mint.input_contract.contract_id
                    // A canonical zero-contract mint is stored as it stands.
                    &&& (mint.input_contract.contract_id == 0
                        ==> t == Transaction::Mint(mint))
                    &&& mint.tx_pointer.tx_index == old(data).tx_count
                    &&& mint.gas_price == gas_price
                    &&& (mint.input_contract.contract_id == 0 ==> mint.mint_amount == 0)
                    &&& (mint.input_contract.contract_id != 0
                        ==> mint.mint_amount == old(data).coinbase)
                    &&& final(state).processed@
                        =~= old(state).processed@.insert(mint.tx_id as u128, true)
                    // A settling mint deposits into the coinbase contract's
                    // balance tree and records itself as the contract's
                    // latest UTXO.
                    &&& (mint.input_contract.contract_id != 0 ==> {
                        let cid = mint.input_contract.contract_id;
                        let before = balance_before(
                            old(state).balances@, cid, mint.mint_asset_id);
                        let rolled = balance_increased_meta(
                            old(state).contracts@, cid, mint.mint_asset_id,
                            (before + mint.mint_amount) as u64);
                        &&& final(state).balances@ =~= old(state).balances@.insert(
                            crate::assoc::asset_key_spec(cid, mint.mint_asset_id),
                            (before + mint.mint_amount) as u64)
                        &&& final(state).contracts@ =~= old(state).contracts@.insert(
                            cid as u128,
                            ContractMeta {
                                utxo_id: UtxoId { tx_id: mint.tx_id, output_index: 0 },
                                tx_pointer: TxPointer {
                                    block_height: header.height,
                                    tx_index: old(data).tx_count,
                                },
                                balance_root: rolled.balance_root,
                                state_root: rolled.state_root,
                            })
                        &&& t->Mint_0.output_contract.balance_root == rolled.balance_root
                        &&& t->Mint_0.output_contract.state_root == rolled.state_root
                    })
                    &&& (mint.input_contract.contract_id == 0
                        ==> final(state).balances@ == old(state).balances@
                            && final(state).contracts@ == old(state).contracts@)
                    &&& final(state).coins@ == old(state).coins@
                    &&& final(state).messages@ == old(state).messages@
                    &&& final(data).events == old(data).events
                    &&& final(data).fees_consistent()
                    &&& final(data).coinbase == old(data).coinbase
                    &&& final(data).tx_status@.len() == old(data).tx_status@.len() + 1
                    &&& final(data).tx_status@.last().id == mint.tx_id
                    // The mint settles as a success with no receipts, no
                    // gas and no fee of its own.
                    &&& final(data).tx_status@.last().result is Success
                    &&& final(data).tx_status@.last().result.total_fee_spec() == 0
                    &&& final(data).tx_status@.last().result.total_gas_spec() == 0
                    &&& result_receipts(final(data).tx_status@.last().result)
                        == Seq::<Receipt>::empty()
                    &&& final(data).tx_status@.take(old(data).tx_status@.len() as int)
                        == old(data).tx_status@
                },
                Err(_) => final(data).fees_consistent()
                    && final(data).tx_status == old(data).tx_status
                    && final(data).coinbase == old(data).coinbase
                    && final(state).view_state() == old(state).view_state(),
            },
    {
        data.found_mint = true;
        match Self::check_mint_has_expected_index(&mint, data) {
            Ok(()) => {},
            Err(e) => {
                return Err(e);
            },
        }
        match Self::check_gas_price(&mint, gas_price) {
            Ok(()) => {},
            Err(e) => {
                return Err(e);
            },
        }
        // A processed identifier is a collision; checked before anything is
        // recorded, so a colliding mint leaves no phantom status behind.
        if state.processed.contains_key(mint.tx_id as u128) {
            return Err(ExecutorError::TransactionIdCollision(mint.tx_id));
        }
        let mut updated = mint;
        if mint.input_contract.contract_id == 0 {
            match Self::verify_mint_for_empty_contract(&mint) {
                Ok(()) => {},
                Err(e) => {
                    return Err(e);
                },
            }
        } else {
            match Self::check_mint_amount(&mint, data.coinbase) {
                Ok(()) => {},
                Err(e) => {
                    return Err(e);
                },
            }
            let contract_id = mint.input_contract.contract_id;
            if self.forbid_fake_coins {
                if !state.contracts.contains_key(contract_id as u128) {
                    return Err(ExecutorError::TransactionValidity(
                        TransactionValidityError::ContractDoesNotExist(contract_id),
                    ));
                }
            }
            // Fill the input from the contract's latest record.
            let filled_input: ContractInput = match state.contracts.get(contract_id as u128) {
                Some(meta) => ContractInput {
                    utxo_id: meta.utxo_id,
                    balance_root: meta.balance_root,
                    state_root: meta.state_root,
                    tx_pointer: meta.tx_pointer,
                    contract_id,
                },
                None => ContractInput {
                    utxo_id: UtxoId { tx_id: 0, output_index: 0 },
                    balance_root: 0,
                    state_root: 0,
                    tx_pointer: TxPointer::zeroed(),
                    contract_id,
                },
            };
            match Self::balance_increase(
                state, contract_id, mint.mint_asset_id, mint.mint_amount) {
                Ok(()) => {},
                Err(e) => {
                    return Err(e);
                },
            }
            // Record this mint as the contract's latest UTXO.
            let utxo_id = UtxoId { tx_id: mint.tx_id, output_index: 0 };
            let tx_pointer = TxPointer {
                block_height: header.height,
                tx_index: data.tx_count,
            };
            let (balance_root, state_root): (u64, u64) =
                match state.contracts.get(contract_id as u128) {
                Some(meta) => (meta.balance_root, meta.state_root),
                None => (0, 0),
            };
            let _ = state.contracts.insert(contract_id as u128, ContractMeta {
                utxo_id,
                tx_pointer,
                balance_root,
                state_root,
            });
            updated = MintTx {
                tx_id: mint.tx_id,
                tx_pointer: mint.tx_pointer,
                input_contract: filled_input,
                output_contract: ContractOutput {
                    input_index: 0,
                    balance_root,
                    state_root,
                },
                mint_amount: mint.mint_amount,
                mint_asset_id: mint.mint_asset_id,
                gas_price: mint.gas_price,
            };
        }
        // Record the mint's outcome and mark it processed.
        data.tx_status.push(TransactionExecutionStatus {
            id: mint.tx_id,
            result: TransactionExecutionResult::Success {
                receipts: Vec::new(),
                total_gas: 0,
                total_fee: 0,
            },
        });
        proof {
            assert(data.tx_status@.drop_last() =~= old(data).tx_status@);
            assert(data.tx_status@.take(old(data).tx_status@.len() as int)
                =~= old(data).tx_status@);
        }
        let _ = state.processed.insert(mint.tx_id as u128, true);
        Ok(Transaction::Mint(updated))
    }

    /// Executes one transaction of any variant: the mint must be last, a
    /// processed identifier is a collision, and the variant decides the path.
    pub fn execute_transaction(
        &self,
        tx: MaybeCheckedTransaction,
        header: &PartialBlockHeader,
        gas_price: u64,
        data: &mut ExecutionData,
        state: &mut ExecState,
    ) -> (r: Result<Transaction, ExecutorError>)
        requires
            old(state).wf(),
            old(data).fees_consistent(),
        ensures
            final(state).wf(),
            final(data).tx_count == old(data).tx_count,
            final(data).event_inbox_root == old(data).event_inbox_root,
            final(data).l1_leaves == old(data).l1_leaves,
            // A mint seen earlier makes any further transaction an error.
            old(data).found_mint
                ==> r == Err::<Transaction, ExecutorError>(
                    ExecutorError::MintIsNotLastTransaction),
            // A transaction executed before fails with an identifier
            // collision: executing the same transaction twice cannot succeed.
            !old(data).found_mint && old(state).processed@.contains_key(
                tx.id_spec() as u128)
                ==> r == Err::<Transaction, ExecutorError>(
                    ExecutorError::TransactionIdCollision(tx.id_spec())),
            old(data).events@.len() <= final(data).events@.len(),
            final(data).events@.take(old(data).events@.len() as int) == old(data).events@,
            final(data).skipped_transactions == old(data).skipped_transactions,
            // Success is owed exactly where no refusal condition holds.
            r is Ok <==> exec_tx_ok(
                tx, *old(state), *header, old(data).coinbase, old(data).used_gas,
                old(data).used_size, old(data).tx_count, old(data).found_mint,
                gas_price, self.forbid_fake_coins, self.dry_run),
            match r {
                Ok(t) => {
                    &&& t.id_spec() == tx.id_spec()
                    &&& final(state).processed@.contains_key(tx.id_spec() as u128)
                    &&& final(state).processed@
                        =~= old(state).processed@.insert(tx.id_spec() as u128, true)
                    &&& final(data).fees_consistent()
                    &&& final(data).tx_status@.len() == old(data).tx_status@.len() + 1
                    &&& final(data).tx_status@.last().id == tx.id_spec()
                    &&& final(data).tx_status@.take(old(data).tx_status@.len() as int)
                        == old(data).tx_status@
                    &&& (final(data).found_mint <==> t is Mint)
                    &&& (t is Mint <==> tx.tx_spec() is Mint)
                    &&& (t is Mint ==> t->Mint_0.input_contract.contract_id
                        == tx.tx_spec()->Mint_0.input_contract.contract_id
                        && t->Mint_0.mint_amount == tx.tx_spec()->Mint_0.mint_amount
                        && t->Mint_0.mint_asset_id == tx.tx_spec()->Mint_0.mint_asset_id
                        && t->Mint_0.tx_pointer == tx.tx_spec()->Mint_0.tx_pointer
                        && (tx.tx_spec()->Mint_0.input_contract.contract_id == 0
                            ==> t == tx.tx_spec()))
                    &&& (t is Mint ==> t->Mint_0.tx_pointer.tx_index == old(data).tx_count
                        && t->Mint_0.gas_price == gas_price
                        && (t->Mint_0.input_contract.contract_id == 0
                            ==> t->Mint_0.mint_amount == 0)
                        && (t->Mint_0.input_contract.contract_id != 0
                            ==> t->Mint_0.mint_amount == old(data).coinbase)
                        && final(data).tx_status@.last().result.total_fee_spec() == 0)
                },
                Err(_) => final(data).fees_consistent()
                    && final(data).tx_status == old(data).tx_status,
            },
    {
        match Self::check_mint_is_not_found(data) {
            Ok(()) => {},
            Err(e) => {
                return Err(e);
            },
        }
        let tx_id = tx.id();
        match Self::check_tx_is_not_duplicate(tx_id, state) {
            Ok(()) => {},
            Err(e) => {
                return Err(e);
            },
        }
        let checked = match self.convert_maybe_checked_tx_to_checked_tx(tx, header) {
            Ok(t) => t,
            Err(e) => {
                return Err(e);
            },
        };
        match checked {
            Transaction::Script(body) => self.execute_chargeable_transaction(
                crate::tx::TxKind::Script, body, header, gas_price, data, state),
            Transaction::Create(body) => self.execute_chargeable_transaction(
                crate::tx::TxKind::Create, body, header, gas_price, data, state),
            Transaction::Upgrade(body) => self.execute_chargeable_transaction(
                crate::tx::TxKind::Upgrade, body, header, gas_price, data, state),
            Transaction::Upload(body) => self.execute_chargeable_transaction(
                crate::tx::TxKind::Upload, body, header, gas_price, data, state),
            Transaction::Blob(body) => self.execute_chargeable_transaction(
                crate::tx::TxKind::Blob, body, header, gas_price, data, state),
            Transaction::Mint(mint) => self.execute_mint(
                mint, header, gas_price, data, state),
        }
    }

    /// Executes one transaction under a discardable snapshot: on success the
    /// transaction joins the block and the count advances; on failure the
    /// state is exactly what it was.
    pub fn execute_transaction_and_commit(
        &self,
        block: &mut PartialFuelBlock,
        state: &mut ExecState,
        data: &mut ExecutionData,
        tx: MaybeCheckedTransaction,
        gas_price: u64,
    ) -> (r: Result<(), ExecutorError>)
        requires
            old(state).wf(),
            old(data).fees_consistent(),
        ensures
            final(state).wf(),
            final(block).header == old(block).header,
            final(data).event_inbox_root == old(data).event_inbox_root,
            final(data).l1_leaves == old(data).l1_leaves,
            old(data).events@.len() <= final(data).events@.len(),
            final(data).events@.take(old(data).events@.len() as int) == old(data).events@,
            final(data).skipped_transactions == old(data).skipped_transactions,
            // Executed identifiers only accrue.
            forall|k: u128| old(state).processed@.contains_key(k)
                ==> #[trigger] final(state).processed@.contains_key(k),
            // A full block refuses further transactions; otherwise success
            // is owed exactly where the transaction can execute.
            old(data).tx_count == u16::MAX
                ==> r == Err::<(), ExecutorError>(ExecutorError::TooManyTransactions),
            old(data).tx_count < u16::MAX ==> (r is Ok <==> exec_tx_ok(
                tx, *old(state), old(block).header, old(data).coinbase,
                old(data).used_gas, old(data).used_size, old(data).tx_count,
                old(data).found_mint, gas_price, self.forbid_fake_coins,
                self.dry_run)),
            match r {
                Ok(()) => {
                    &&& final(block).transactions@.len()
                        == old(block).transactions@.len() + 1
                    &&& final(block).transactions@.last().id_spec() == tx.id_spec()
                    &&& final(data).tx_status@.len() == old(data).tx_status@.len() + 1
                    &&& final(data).tx_status@.last().id == tx.id_spec()
                    &&& final(block).transactions@.take(
                        old(block).transactions@.len() as int) == old(block).transactions@
                    &&& final(data).tx_count == old(data).tx_count + 1
                    &&& final(data).fees_consistent()
                    &&& final(state).processed@.contains_key(tx.id_spec() as u128)
                    &&& (final(data).found_mint
                        <==> final(block).transactions@.last() is Mint)
                    &&& (final(block).transactions@.last() is Mint
                        <==> tx.tx_spec() is Mint)
                    &&& (final(block).transactions@.last() is Mint
                        ==> final(block).transactions@.last()->Mint_0.input_contract
                            .contract_id
                            == tx.tx_spec()->Mint_0.input_contract.contract_id
                        && final(block).transactions@.last()->Mint_0.mint_amount
                            == tx.tx_spec()->Mint_0.mint_amount
                        && final(block).transactions@.last()->Mint_0.mint_asset_id
                            == tx.tx_spec()->Mint_0.mint_asset_id
                        && final(block).transactions@.last()->Mint_0.tx_pointer
                            == tx.tx_spec()->Mint_0.tx_pointer
                        && (tx.tx_spec()->Mint_0.input_contract.contract_id == 0
                            ==> final(block).transactions@.last() == tx.tx_spec()))
                    &&& old(data).found_mint == false
                    &&& (final(block).transactions@.last() is Mint
                        ==> final(block).transactions@.last()->Mint_0.tx_pointer.tx_index
                            == old(data).tx_count
                        && final(block).transactions@.last()->Mint_0.gas_price == gas_price
                        && (final(block).transactions@.last()
                            ->Mint_0.input_contract.contract_id == 0
                            ==> final(block).transactions@.last()->Mint_0.mint_amount == 0)
                        && (final(block).transactions@.last()
                            ->Mint_0.input_contract.contract_id != 0
                            ==> final(block).transactions@.last()->Mint_0.mint_amount
                                == old(data).coinbase)
                        && final(data).coinbase == old(data).coinbase)
                },
                Err(_) => {
                    &&& final(block).transactions == old(block).transactions
                    &&& final(state).view_state() == old(state).view_state()
                    &&& final(data).tx_count == old(data).tx_count
                    &&& final(data).tx_status == old(data).tx_status
                    &&& final(data).fees_consistent()
                },
            },
    {
        let tx_count = data.tx_count;
        if tx_count == u16::MAX {
            return Err(ExecutorError::TooManyTransactions);
        }
        let snapshot = state.snapshot();
        let executed = self.execute_transaction(tx, &block.header, gas_price, data, state);
        match executed {
            Ok(t) => {
                block.transactions.push(t);
                data.tx_count = tx_count + 1;
                proof {
                    assert(block.transactions@.take(old(block).transactions@.len() as int)
                        =~= old(block).transactions@);
                }
                Ok(())
            },
            Err(e) => {
                *state = snapshot;
                data.tx_count = tx_count;
                Err(e)
            },
        }
    }
}

/// The gas still available under the block's limit.
pub open spec fn remaining_gas_spec(block_gas_limit: u64, used_gas: u64) -> u64 {
    if used_gas <= block_gas_limit {
        (block_gas_limit - used_gas) as u64
    } else {
        0
    }
}

impl<R: RelayerPort, N: NewTxWaiterPort, P: PreconfirmationSenderPort> BlockExecutor<R, N, P> {
    /// Parses and checks one forced transaction from L1. A mint is never
    /// L1-sourced, undecodable payloads are codec errors, and the L1 record
    /// must have claimed at least the transaction's actual gas ceiling.
    pub fn validate_forced_tx(
        relayed_tx: RelayedTransaction,
        block_height: u32,
    ) -> (r: Result<Transaction, ForcedTransactionFailure>)
        ensures
            relayed_tx.parsed is None
                ==> r is Err && r->Err_0 is CodecError,
            relayed_tx.parsed is Some && relayed_tx.parsed->0 is Mint
                ==> r is Err && r->Err_0 is InvalidTransactionType,
            relayed_tx.parsed is Some && !(relayed_tx.parsed->0 is Mint)
                && relayed_tx.parsed->0.max_gas_spec() > relayed_tx.max_gas
                ==> r is Err && r->Err_0 is InsufficientMaxGas
                    && r->Err_0->InsufficientMaxGas_claimed_max_gas == relayed_tx.max_gas
                    && r->Err_0->InsufficientMaxGas_actual_max_gas
                        == relayed_tx.parsed->0.max_gas_spec(),
            relayed_tx.parsed is Some && !(relayed_tx.parsed->0 is Mint)
                && relayed_tx.parsed->0.max_gas_spec() <= relayed_tx.max_gas
                && block_height > relayed_tx.parsed->0.expiration_spec()
                ==> r is Err && r->Err_0 is CheckError,
            // Success is owed: a decodable, non-mint payload whose claimed
            // gas covers its actual ceiling and which has not expired is
            // accepted as it stands.
            r is Ok <==> (relayed_tx.parsed is Some
                && !(relayed_tx.parsed->0 is Mint)
                && relayed_tx.parsed->0.max_gas_spec() <= relayed_tx.max_gas
                && block_height <= relayed_tx.parsed->0.expiration_spec()),
            r is Ok ==> relayed_tx.parsed == Some(r->Ok_0),
    {
        let parsed = match relayed_tx.parsed {
            Some(t) => t,
            None => {
                return Err(ForcedTransactionFailure::CodecError);
            },
        };
        match &parsed {
            Transaction::Mint(_) => {
                return Err(ForcedTransactionFailure::InvalidTransactionType);
            },
            _ => {},
        }
        let actual_max_gas = parsed.max_gas();
        if actual_max_gas > relayed_tx.max_gas {
            return Err(ForcedTransactionFailure::InsufficientMaxGas {
                claimed_max_gas: relayed_tx.max_gas,
                actual_max_gas,
            });
        }
        let expiration = match &parsed {
            Transaction::Script(b) => b.expiration,
            Transaction::Create(b) => b.expiration,
            Transaction::Upgrade(b) => b.expiration,
            Transaction::Upload(b) => b.expiration,
            Transaction::Blob(b) => b.expiration,
            Transaction::Mint(_) => u32::MAX,
        };
        if block_height > expiration {
            return Err(ForcedTransactionFailure::CheckError(
                "the forced transaction expired before this block".to_owned(),
            ));
        }
        Ok(parsed)
    }

    /// Ingests every L1 event between the last reflected height and the
    /// block's: messages join the message table, forced transactions are
    /// checked and gathered, and every event's digest enters the
    /// order-preserving root.
    /// Ingests one L1 event: its digest always enters the root accumulator;
    /// a message joins the message table and is announced, a forced
    /// transaction is checked and either gathered or recorded as a failure
    /// event.
    pub fn process_da_event(
        event: Event,
        da: u64,
        block_height: u32,
        data: &mut ExecutionData,
        state: &mut ExecState,
        root_calculator: &mut MerkleRootCalculator,
        checked_forced_txs: &mut Vec<Transaction>,
    ) -> (r: Result<(), ExecutorError>)
        requires
            old(state).wf(),
            old(root_calculator).wf(),
            old(root_calculator).leaves@.len() < u64::MAX,
        ensures
            final(state).wf(),
            final(root_calculator).wf(),
            // The accumulator takes exactly this event's digest.
            final(root_calculator).leaves@
                == old(root_calculator).leaves@.push(crate::merkle::event_hash_spec(event)),
            final(state).coins@ == old(state).coins@,
            final(state).contracts@ == old(state).contracts@,
            final(state).balances@ == old(state).balances@,
            final(state).processed@ == old(state).processed@,
            final(state).blocks@ == old(state).blocks@,
            final(state).params@ == old(state).params@,
            final(data).coinbase == old(data).coinbase,
            final(data).tx_status == old(data).tx_status,
            final(data).found_mint == old(data).found_mint,
            final(data).tx_count == old(data).tx_count,
            final(data).used_gas == old(data).used_gas,
            final(data).used_size == old(data).used_size,
            final(data).message_ids == old(data).message_ids,
            final(data).skipped_transactions == old(data).skipped_transactions,
            final(data).event_inbox_root == old(data).event_inbox_root,
            final(data).l1_leaves == old(data).l1_leaves,
            match event {
                Event::Message(m) => {
                    &&& (r is Ok <==> m.da_height == da)
                    &&& (m.da_height != da ==> r == Err::<(), ExecutorError>(
                        ExecutorError::RelayerGivesIncorrectMessages)
                        && final(state).messages@ == old(state).messages@
                        && final(data).events == old(data).events
                        && final(checked_forced_txs)@ == old(checked_forced_txs)@)
                    &&& (m.da_height == da ==> {
                        // The message joins the table under its nonce and is
                        // announced.
                        &&& final(state).messages@.contains_key(m.nonce as u128)
                        &&& final(state).messages@[m.nonce as u128].view_msg()
                            == m.view_msg()
                        &&& forall|nk: u128| nk != m.nonce as u128
                            ==> (#[trigger] final(state).messages@.contains_key(nk)
                                <==> old(state).messages@.contains_key(nk))
                                && (final(state).messages@.contains_key(nk)
                                    ==> final(state).messages@[nk]
                                        == old(state).messages@[nk])
                        &&& final(data).events@ == old(data).events@.push(
                            ExecutorEvent::MessageImported(m))
                        &&& final(checked_forced_txs)@ == old(checked_forced_txs)@
                    })
                },
                Event::Transaction(rt) => {
                    &&& r is Ok
                    &&& final(state).messages@ == old(state).messages@
                    // An accepted forced transaction is gathered; a refused
                    // one is recorded as a failure event naming its record.
                    &&& (rt.parsed is Some && !(rt.parsed->0 is Mint)
                        && rt.parsed->0.max_gas_spec() <= rt.max_gas
                        && block_height <= rt.parsed->0.expiration_spec()
                        ==> final(checked_forced_txs)@
                            == old(checked_forced_txs)@.push(rt.parsed->0)
                            && final(data).events == old(data).events)
                    &&& (!(rt.parsed is Some && !(rt.parsed->0 is Mint)
                        && rt.parsed->0.max_gas_spec() <= rt.max_gas
                        && block_height <= rt.parsed->0.expiration_spec())
                        ==> final(checked_forced_txs)@ == old(checked_forced_txs)@
                            && final(data).events@.len() == old(data).events@.len() + 1
                            && final(data).events@.take(old(data).events@.len() as int)
                                == old(data).events@
                            && final(data).events@.last() is ForcedTransactionFailed
                            && final(data).events@.last()->ForcedTransactionFailed_id
                                == rt.id
                            && final(data).events@.last()
                                ->ForcedTransactionFailed_block_height == block_height)
                },
            },
    {
        let leaf = event_hash(&event);
        root_calculator.push(leaf);
        match event {
            Event::Message(message) => {
                if message.da_height != da {
                    return Err(ExecutorError::RelayerGivesIncorrectMessages);
                }
                let stored = message.duplicate();
                let _ = state.messages.insert(message.nonce as u128, stored);
                data.events.push(ExecutorEvent::MessageImported(message));
                proof {
                    assert(data.events@ =~= old(data).events@.push(
                        data.events@.last()));
                }
                Ok(())
            },
            Event::Transaction(relayed_tx) => {
                let id = relayed_tx.id;
                match Self::validate_forced_tx(relayed_tx, block_height) {
                    Ok(checked_tx) => {
                        checked_forced_txs.push(checked_tx);
                    },
                    Err(failure) => {
                        data.events.push(ExecutorEvent::ForcedTransactionFailed {
                            id,
                            block_height,
                            failure: failure.describe(),
                        });
                        proof {
                            assert(data.events@.take(old(data).events@.len() as int)
                                =~= old(data).events@);
                        }
                    },
                }
                Ok(())
            },
        }
    }

    /// Ingests every L1 event between the last reflected height and the
    /// block's: messages join the message table, forced transactions are
    /// checked and gathered, and every event's digest enters the
    /// order-preserving root. The guards before any relayer call are exact:
    /// the genesis block has no previous block, the previous block must be
    /// stored, and the reflected L1 height must be able to advance.
    pub fn process_da(
        &mut self,
        block_height: u32,
        da_block_height: u64,
        data: &mut ExecutionData,
        state: &mut ExecState,
    ) -> (r: Result<Vec<Transaction>, ExecutorError>)
        requires
            old(state).wf(),
            old(data).fees_consistent(),
        ensures
            final(self).consensus_params == old(self).consensus_params,
            final(self).forbid_fake_coins == old(self).forbid_fake_coins,
            final(self).dry_run == old(self).dry_run,
            final(state).wf(),
            final(data).fees_consistent(),
            final(data).found_mint == old(data).found_mint,
            final(data).tx_count == old(data).tx_count,
            final(data).coinbase == old(data).coinbase,
            final(data).tx_status == old(data).tx_status,
            old(data).events@.len() <= final(data).events@.len(),
            final(data).events@.take(old(data).events@.len() as int) == old(data).events@,
            block_height == 0 ==> r == Err::<Vec<Transaction>, ExecutorError>(
                ExecutorError::ExecutingGenesisBlock),
            block_height > 0 && !old(state).blocks@.contains_key((block_height - 1) as u128)
                ==> r == Err::<Vec<Transaction>, ExecutorError>(
                    ExecutorError::PreviousBlockIsNotFound),
            block_height > 0 && old(state).blocks@.contains_key((block_height - 1) as u128)
                && old(state).blocks@[(block_height - 1) as u128].da_height == u64::MAX
                ==> r == Err::<Vec<Transaction>, ExecutorError>(
                    ExecutorError::DaHeightExceededItsLimit),
            r is Ok ==> final(data).root_consistent(),
    {
        proof {
            assert(data.events@.take(data.events@.len() as int) =~= data.events@);
        }
        if block_height == 0 {
            return Err(ExecutorError::ExecutingGenesisBlock);
        }
        let prev_height = block_height - 1;
        let prev_da_height: u64 = match state.blocks.get(prev_height as u128) {
            Some(info) => info.da_height,
            None => {
                return Err(ExecutorError::PreviousBlockIsNotFound);
            },
        };
        if prev_da_height == u64::MAX {
            return Err(ExecutorError::DaHeightExceededItsLimit);
        }
        let next_unprocessed = prev_da_height + 1;
        let mut root_calculator = MerkleRootCalculator::new();
        let mut checked_forced_txs: Vec<Transaction> = Vec::new();
        let mut da = next_unprocessed;
        let mut done = da > da_block_height;
        while !done
            invariant
                self.consensus_params == old(self).consensus_params,
                self.forbid_fake_coins == old(self).forbid_fake_coins,
                self.dry_run == old(self).dry_run,
                block_height > 0,
                old(state).blocks@.contains_key((block_height - 1) as u128),
                old(state).blocks@[(block_height - 1) as u128].da_height != u64::MAX,
                next_unprocessed <= da,
                !done ==> da <= da_block_height,
                state.wf(),
                data.fees_consistent(),
                data.found_mint == old(data).found_mint,
                data.tx_count == old(data).tx_count,
                data.coinbase == old(data).coinbase,
                data.tx_status == old(data).tx_status,
                old(data).events@.len() <= data.events@.len(),
                data.events@.take(old(data).events@.len() as int) == old(data).events@,
                root_calculator.wf(),
            decreases da_block_height - da, (if done { 0int } else { 1int }),
        {
            let events = match self.relayer.get_events(da) {
                Ok(events) => events,
                Err(message) => {
                    return Err(ExecutorError::RelayerError(message));
                },
            };
            let mut rest = events;
            while rest.len() > 0
                invariant
                    self.consensus_params == old(self).consensus_params,
                    self.forbid_fake_coins == old(self).forbid_fake_coins,
                    self.dry_run == old(self).dry_run,
                    block_height > 0,
                    old(state).blocks@.contains_key((block_height - 1) as u128),
                    old(state).blocks@[(block_height - 1) as u128].da_height != u64::MAX,
                    state.wf(),
                    data.fees_consistent(),
                    data.found_mint == old(data).found_mint,
                    data.tx_count == old(data).tx_count,
                    data.coinbase == old(data).coinbase,
                    data.tx_status == old(data).tx_status,
                    old(data).events@.len() <= data.events@.len(),
                    data.events@.take(old(data).events@.len() as int) == old(data).events@,
                    root_calculator.wf(),
                decreases rest@.len(),
            {
                let event = rest.remove(0);
                if root_calculator.count == u64::MAX {
                    return Err(ExecutorError::DaHeightExceededItsLimit);
                }
                match Self::process_da_event(
                    event, da, block_height, data, state, &mut root_calculator,
                    &mut checked_forced_txs) {
                    Ok(()) => {},
                    Err(e) => {
                        return Err(e);
                    },
                }
            }
            if da == da_block_height {
                done = true;
            } else {
                da = da + 1;
            }
        }
        data.event_inbox_root = root_calculator.root();
        proof {
            data.l1_leaves@ = root_calculator.leaves@;
        }
        Ok(checked_forced_txs)
    }

    /// Executes the accepted forced transactions at gas price zero; failures
    /// become events, never fatal.
    pub fn process_relayed_txs(
        &mut self,
        forced_transactions: Vec<Transaction>,
        partial_block: &mut PartialFuelBlock,
        state: &mut ExecState,
        data: &mut ExecutionData,
    ) -> (r: Result<(), ExecutorError>)
        requires
            old(state).wf(),
            old(data).fees_consistent(),
        ensures
            final(self).consensus_params == old(self).consensus_params,
            final(self).forbid_fake_coins == old(self).forbid_fake_coins,
            final(self).dry_run == old(self).dry_run,
            final(state).wf(),
            final(data).fees_consistent(),
            final(partial_block).header == old(partial_block).header,
            final(data).event_inbox_root == old(data).event_inbox_root,
            final(data).l1_leaves == old(data).l1_leaves,
            old(data).events@.len() <= final(data).events@.len(),
            final(data).events@.take(old(data).events@.len() as int) == old(data).events@,
            old(data).tx_count as int == old(partial_block).transactions@.len()
                ==> final(data).tx_count as int
                    == final(partial_block).transactions@.len(),
            // Nothing is dropped: every forced transaction is either executed
            // into the block — its identifier is processed afterwards — or
            // recorded as a failure event naming it.
            forall|i: int|
                0 <= i < forced_transactions@.len()
                    ==> final(state).processed@.contains_key(
                        (#[trigger] forced_transactions@[i]).id_spec() as u128)
                        || exists|j: int|
                            old(data).events@.len() <= j < final(data).events@.len()
                                && (#[trigger] final(data).events@[j])
                                    is ForcedTransactionFailed
                                && final(data).events@[j]->ForcedTransactionFailed_id
                                    == forced_transactions@[i].id_spec(),
    {
        let ghost all = forced_transactions@;
        let ghost ev0 = old(data).events@;
        proof {
            assert(data.events@.take(ev0.len() as int) =~= ev0);
        }
        let mut rest = forced_transactions;
        let mut taken: usize = 0;
        let total = rest.len();
        let block_height = partial_block.header.height;
        while taken < total
            invariant
                self.consensus_params == old(self).consensus_params,
                self.forbid_fake_coins == old(self).forbid_fake_coins,
                self.dry_run == old(self).dry_run,
                0 <= taken <= total,
                total == all.len(),
                rest@ == all.skip(taken as int),
                ev0 == old(data).events@,
                state.wf(),
                data.fees_consistent(),
                partial_block.header == old(partial_block).header,
                data.event_inbox_root == old(data).event_inbox_root,
                data.l1_leaves == old(data).l1_leaves,
                ev0.len() <= data.events@.len(),
                data.events@.take(ev0.len() as int) == ev0,
                old(data).tx_count as int == old(partial_block).transactions@.len()
                    ==> data.tx_count as int == partial_block.transactions@.len(),
                forall|m: int|
                    0 <= m < taken
                        ==> state.processed@.contains_key(
                            (#[trigger] all[m]).id_spec() as u128)
                            || exists|j: int|
                                ev0.len() <= j < data.events@.len()
                                    && (#[trigger] data.events@[j])
                                        is ForcedTransactionFailed
                                    && data.events@[j]->ForcedTransactionFailed_id
                                        == all[m].id_spec(),
            decreases total - taken,
        {
            let ghost ev_before = data.events@;
            let ghost processed_before = state.processed@;
            let checked = rest.remove(0);
            proof {
                assert(all.skip(taken as int)[0] == all[taken as int]);
                assert(rest@ =~= all.skip(taken + 1));
            }
            let tx_id = checked.id();
            let wrapped = MaybeCheckedTransaction::CheckedTransaction(
                checked,
                partial_block.header.consensus_parameters_version,
            );
            match self.execute_transaction_and_commit(
                partial_block, state, data, wrapped, 0) {
                Ok(()) => {},
                Err(err) => {
                    data.events.push(ExecutorEvent::ForcedTransactionFailed {
                        id: tx_id,
                        block_height,
                        failure: err.describe(),
                    });
                    proof {
                        assert(data.events@.last() is ForcedTransactionFailed);
                        assert(data.events@.last()->ForcedTransactionFailed_id
                            == all[taken as int].id_spec());
                    }
                },
            }
            proof {
                assert(data.events@.take(ev0.len() as int) =~= ev0) by {
                    assert forall|j: int| 0 <= j < ev0.len() implies
                        data.events@[j] == ev0[j] by {
                        assert(data.events@.take(ev_before.len() as int)[j]
                            == data.events@[j]);
                        assert(ev_before.take(ev0.len() as int)[j] == ev_before[j]);
                    }
                }
                // The per-transaction facts survive: identifiers only
                // accrue and earlier events stay in place.
                assert forall|m: int| 0 <= m < taken + 1 implies
                    state.processed@.contains_key((#[trigger] all[m]).id_spec() as u128)
                        || exists|j: int|
                            ev0.len() <= j < data.events@.len()
                                && (#[trigger] data.events@[j]) is ForcedTransactionFailed
                                && data.events@[j]->ForcedTransactionFailed_id
                                    == all[m].id_spec() by {
                    if m < taken {
                        if processed_before.contains_key(all[m].id_spec() as u128) {
                        } else {
                            let j = choose|j: int|
                                ev0.len() <= j < ev_before.len()
                                    && (#[trigger] ev_before[j]) is ForcedTransactionFailed
                                    && ev_before[j]->ForcedTransactionFailed_id
                                        == all[m].id_spec();
                            assert(data.events@.take(ev_before.len() as int)[j]
                                == data.events@[j]);
                            assert(data.events@[j] == ev_before[j]);
                        }
                    } else {
                        if !state.processed@.contains_key(all[m].id_spec() as u128) {
                            assert(data.events@[data.events@.len() - 1]
                                is ForcedTransactionFailed);
                        }
                    }
                }
            }
            taken = taken + 1;
        }
        Ok(())
    }

    /// Phase one: when a relayer is wired up, ingest its events and execute
    /// the accepted forced transactions.
    pub fn process_l1_txs(
        &mut self,
        partial_block: &mut PartialFuelBlock,
        state: &mut ExecState,
        data: &mut ExecutionData,
    ) -> (r: Result<(), ExecutorError>)
        requires
            old(state).wf(),
            old(data).fees_consistent(),
            old(data).root_consistent(),
        ensures
            final(self).consensus_params == old(self).consensus_params,
            final(self).forbid_fake_coins == old(self).forbid_fake_coins,
            final(self).dry_run == old(self).dry_run,
            final(state).wf(),
            final(data).fees_consistent(),
            final(partial_block).header == old(partial_block).header,
            old(data).events@.len() <= final(data).events@.len(),
            final(data).events@.take(old(data).events@.len() as int) == old(data).events@,
            r is Ok ==> final(data).root_consistent(),
            old(data).tx_count as int == old(partial_block).transactions@.len()
                ==> final(data).tx_count as int
                    == final(partial_block).transactions@.len(),
    {
        proof {
            assert(data.events@.take(data.events@.len() as int) =~= data.events@);
        }
        if !self.relayer.enabled() {
            return Ok(());
        }
        let block_height = partial_block.header.height;
        let da_block_height = partial_block.header.da_height;
        let forced = match self.process_da(block_height, da_block_height, data, state) {
            Ok(forced) => forced,
            Err(e) => {
                return Err(e);
            },
        };
        self.process_relayed_txs(forced, partial_block, state, data)
    }

    /// Phase two, one candidate: a transaction the source offered is either
    /// skipped for want of gas — recorded with the claimed and the remaining
    /// gas — executed into the block with a recorded status, or squeezed
    /// out with its error recorded; a provisional outcome is handed back
    /// for the latter two.
    pub fn process_l2_candidate(
        &self,
        partial_block: &mut PartialFuelBlock,
        state: &mut ExecState,
        data: &mut ExecutionData,
        tx: MaybeCheckedTransaction,
        gas_price: u64,
    ) -> (r: Option<Preconfirmation>)
        requires
            old(state).wf(),
            old(data).fees_consistent(),
        ensures
            final(state).wf(),
            final(data).fees_consistent(),
            final(partial_block).header == old(partial_block).header,
            final(data).event_inbox_root == old(data).event_inbox_root,
            final(data).l1_leaves == old(data).l1_leaves,
            old(data).events@.len() <= final(data).events@.len(),
            final(data).events@.take(old(data).events@.len() as int) == old(data).events@,
            forall|k: u128| old(state).processed@.contains_key(k)
                ==> #[trigger] final(state).processed@.contains_key(k),
            old(data).tx_count as int == old(partial_block).transactions@.len()
                ==> final(data).tx_count as int
                    == final(partial_block).transactions@.len(),
            old(data).skipped_transactions@.len()
                <= final(data).skipped_transactions@.len(),
            final(data).skipped_transactions@.len()
                <= old(data).skipped_transactions@.len() + 1,
            final(data).skipped_transactions@.take(
                old(data).skipped_transactions@.len() as int)
                == old(data).skipped_transactions@,
            ({
                let remaining = remaining_gas_spec(
                    self.consensus_params.block_gas_limit, old(data).used_gas);
                let id = tx.id_spec();
                if tx.tx_spec().max_gas_spec() > remaining {
                    // Skipped for want of gas: recorded with the claimed
                    // and the remaining gas; nothing else moves and nothing
                    // is announced.
                    &&& r is None
                    &&& final(data).skipped_transactions@.len()
                        == old(data).skipped_transactions@.len() + 1
                    &&& final(data).skipped_transactions@.last().0 == id
                    &&& final(data).skipped_transactions@.last().1 is GasOverflow
                    &&& final(data).skipped_transactions@.last().1->GasOverflow_1
                        == tx.tx_spec().max_gas_spec()
                    &&& final(data).skipped_transactions@.last().1->GasOverflow_2
                        == remaining
                    &&& final(partial_block).transactions
                        == old(partial_block).transactions
                    &&& final(data).tx_status == old(data).tx_status
                    &&& final(data).tx_count == old(data).tx_count
                    &&& final(state).view_state() == old(state).view_state()
                } else if old(data).tx_count < u16::MAX && exec_tx_ok(
                    tx, *old(state), old(partial_block).header, old(data).coinbase,
                    old(data).used_gas, old(data).used_size, old(data).tx_count,
                    old(data).found_mint, gas_price, self.forbid_fake_coins,
                    self.dry_run) {
                    // Executed: appended with a recorded status whose
                    // provisional mirror is announced.
                    &&& r is Some
                    &&& r->0.tx_id == id
                    &&& !(r->0.status is SqueezedOut)
                    &&& (r->0.status is Success
                        <==> final(data).tx_status@.last().result is Success)
                    &&& final(partial_block).transactions@.len()
                        == old(partial_block).transactions@.len() + 1
                    &&& final(partial_block).transactions@.last().id_spec() == id
                    &&& final(data).tx_status@.len() == old(data).tx_status@.len() + 1
                    &&& final(data).tx_status@.last().id == id
                    &&& final(data).tx_count == old(data).tx_count + 1
                    &&& final(data).skipped_transactions
                        == old(data).skipped_transactions
                    &&& final(state).processed@.contains_key(id as u128)
                } else {
                    // Squeezed out: recorded exactly once and announced as
                    // squeezed out; the state keeps its snapshot.
                    &&& r is Some
                    &&& r->0.tx_id == id
                    &&& r->0.status is SqueezedOut
                    &&& final(data).skipped_transactions@.len()
                        == old(data).skipped_transactions@.len() + 1
                    &&& final(data).skipped_transactions@.last().0 == id
                    &&& final(partial_block).transactions
                        == old(partial_block).transactions
                    &&& final(data).tx_status == old(data).tx_status
                    &&& final(data).tx_count == old(data).tx_count
                    &&& final(state).view_state() == old(state).view_state()
                }
            }),
    {
        proof {
            assert(data.events@.take(data.events@.len() as int) =~= data.events@);
            assert(data.skipped_transactions@.take(
                data.skipped_transactions@.len() as int)
                =~= data.skipped_transactions@);
        }
        let block_gas_limit = self.consensus_params.block_gas_limit;
        let remaining_gas = if block_gas_limit >= data.used_gas {
            block_gas_limit - data.used_gas
        } else {
            0
        };
        let tx_id = tx.id();
        let tx_max_gas = match &tx {
            MaybeCheckedTransaction::Transaction(t) => t.max_gas(),
            MaybeCheckedTransaction::CheckedTransaction(t, _) => t.max_gas(),
        };
        if tx_max_gas > remaining_gas {
            data.skipped_transactions.push((
                tx_id,
                ExecutorError::GasOverflow(
                    "the transaction cannot fit in the remaining gas limit".to_owned(),
                    tx_max_gas,
                    remaining_gas,
                ),
            ));
            proof {
                assert(data.skipped_transactions@.take(
                    old(data).skipped_transactions@.len() as int)
                    =~= old(data).skipped_transactions@);
            }
            return None;
        }
        match self.execute_transaction_and_commit(
            partial_block, state, data, tx, gas_price) {
            Ok(()) => {
                // The provisional outcome mirrors the recorded one.
                let tx_slot = partial_block.transactions.len() - 1;
                let status_slot = data.tx_status.len() - 1;
                let status = convert_tx_execution_result_to_preconfirmation(
                    &partial_block.transactions[tx_slot],
                    tx_id,
                    &data.tx_status[status_slot].result,
                    partial_block.header.height,
                    data.tx_count,
                );
                Some(status)
            },
            Err(err) => {
                let reason = err.describe();
                data.skipped_transactions.push((tx_id, err));
                proof {
                    assert(data.skipped_transactions@.take(
                        old(data).skipped_transactions@.len() as int)
                        =~= old(data).skipped_transactions@);
                }
                Some(Preconfirmation {
                    tx_id,
                    status: PreconfirmationStatus::SqueezedOut { reason },
                })
            },
        }
    }

    /// Phase two, one batch: every transaction the source yielded in it is
    /// either executed into the block with a recorded status or recorded in
    /// the skipped transactions; provisional outcomes are streamed
    /// best-effort and the unsent remainder is handed back.
    fn process_l2_batch(
        &mut self,
        partial_block: &mut PartialFuelBlock,
        batch: Vec<MaybeCheckedTransaction>,
        statuses: Vec<Preconfirmation>,
        state: &mut ExecState,
        data: &mut ExecutionData,
        gas_price: u64,
    ) -> (r: Vec<Preconfirmation>)
        requires
            old(state).wf(),
            old(data).fees_consistent(),
        ensures
            final(self).consensus_params == old(self).consensus_params,
            final(self).forbid_fake_coins == old(self).forbid_fake_coins,
            final(self).dry_run == old(self).dry_run,
            final(state).wf(),
            final(data).fees_consistent(),
            final(partial_block).header == old(partial_block).header,
            final(data).event_inbox_root == old(data).event_inbox_root,
            final(data).l1_leaves == old(data).l1_leaves,
            old(data).events@.len() <= final(data).events@.len(),
            final(data).events@.take(old(data).events@.len() as int) == old(data).events@,
            forall|k: u128| old(state).processed@.contains_key(k)
                ==> #[trigger] final(state).processed@.contains_key(k),
            old(data).tx_count as int == old(partial_block).transactions@.len()
                ==> final(data).tx_count as int
                    == final(partial_block).transactions@.len(),
            old(data).skipped_transactions@.len()
                <= final(data).skipped_transactions@.len(),
            final(data).skipped_transactions@.len()
                <= old(data).skipped_transactions@.len() + batch@.len(),
            final(data).skipped_transactions@.take(
                old(data).skipped_transactions@.len() as int)
                == old(data).skipped_transactions@,
            // Nothing is dropped: every transaction of the batch either
            // executed — its identifier is processed afterwards — or a
            // skipped entry recorded here names it.
            forall|i: int| 0 <= i < batch@.len()
                ==> final(state).processed@.contains_key(
                    (#[trigger] batch@[i]).id_spec() as u128)
                    || exists|j: int|
                        old(data).skipped_transactions@.len() <= j
                            < final(data).skipped_transactions@.len()
                            && (#[trigger] final(data).skipped_transactions@[j]).0
                                == batch@[i].id_spec(),
    {
        let ghost all = batch@;
        let ghost ev0 = old(data).events@;
        let ghost sk0 = old(data).skipped_transactions@;
        proof {
            assert(data.events@.take(ev0.len() as int) =~= ev0);
            assert(data.skipped_transactions@.take(sk0.len() as int) =~= sk0);
        }
        let mut statuses = statuses;
        let mut rest = batch;
        let mut taken: usize = 0;
        let total = rest.len();
        while taken < total
            invariant
                self.consensus_params == old(self).consensus_params,
                self.forbid_fake_coins == old(self).forbid_fake_coins,
                self.dry_run == old(self).dry_run,
                0 <= taken <= total,
                total == all.len(),
                rest@ == all.skip(taken as int),
                ev0 == old(data).events@,
                sk0 == old(data).skipped_transactions@,
                state.wf(),
                data.fees_consistent(),
                partial_block.header == old(partial_block).header,
                data.event_inbox_root == old(data).event_inbox_root,
                data.l1_leaves == old(data).l1_leaves,
                ev0.len() <= data.events@.len(),
                data.events@.take(ev0.len() as int) == ev0,
                forall|k: u128| old(state).processed@.contains_key(k)
                    ==> #[trigger] state.processed@.contains_key(k),
                old(data).tx_count as int == old(partial_block).transactions@.len()
                    ==> data.tx_count as int == partial_block.transactions@.len(),
                sk0.len() <= data.skipped_transactions@.len(),
                data.skipped_transactions@.len() <= sk0.len() + taken,
                data.skipped_transactions@.take(sk0.len() as int) == sk0,
                forall|m: int| 0 <= m < taken
                    ==> state.processed@.contains_key(
                        (#[trigger] all[m]).id_spec() as u128)
                        || exists|j: int|
                            sk0.len() <= j < data.skipped_transactions@.len()
                                && (#[trigger] data.skipped_transactions@[j]).0
                                    == all[m].id_spec(),
            decreases total - taken,
        {
            let ghost ev_before = data.events@;
            let ghost sk_before = data.skipped_transactions@;
            let ghost processed_before = state.processed@;
            let tx = rest.remove(0);
            proof {
                assert(all.skip(taken as int)[0] == all[taken as int]);
                assert(rest@ =~= all.skip(taken + 1));
            }
            match self.process_l2_candidate(partial_block, state, data, tx, gas_price) {
                None => {},
                Some(p) => {
                    statuses.push(p);
                    let sent = self.preconfirmation_sender.try_send(statuses);
                    statuses = sent;
                },
            }
            proof {
                assert(data.events@.take(ev0.len() as int) =~= ev0) by {
                    assert forall|j: int| 0 <= j < ev0.len() implies
                        data.events@[j] == ev0[j] by {
                        assert(data.events@.take(ev_before.len() as int)[j]
                            == data.events@[j]);
                        assert(ev_before.take(ev0.len() as int)[j] == ev_before[j]);
                    }
                }
                assert(data.skipped_transactions@.take(sk0.len() as int) =~= sk0) by {
                    assert forall|j: int| 0 <= j < sk0.len() implies
                        data.skipped_transactions@[j] == sk0[j] by {
                        assert(data.skipped_transactions@.take(
                            sk_before.len() as int)[j]
                            == data.skipped_transactions@[j]);
                        assert(sk_before.take(sk0.len() as int)[j] == sk_before[j]);
                    }
                }
                // The per-transaction facts survive: identifiers only
                // accrue and earlier skipped entries stay in place.
                assert forall|m: int| 0 <= m < taken + 1 implies
                    state.processed@.contains_key((#[trigger] all[m]).id_spec() as u128)
                        || exists|j: int|
                            sk0.len() <= j < data.skipped_transactions@.len()
                                && (#[trigger] data.skipped_transactions@[j]).0
                                    == all[m].id_spec() by {
                    if m < taken {
                        if processed_before.contains_key(all[m].id_spec() as u128) {
                        } else {
                            let j = choose|j: int|
                                sk0.len() <= j < sk_before.len()
                                    && (#[trigger] sk_before[j]).0 == all[m].id_spec();
                            assert(data.skipped_transactions@.take(
                                sk_before.len() as int)[j]
                                == data.skipped_transactions@[j]);
                            assert(data.skipped_transactions@[j] == sk_before[j]);
                        }
                    } else {
                        if !state.processed@.contains_key(all[m].id_spec() as u128) {
                            assert((data.skipped_transactions@[
                                data.skipped_transactions@.len() - 1]).0
                                == all[m].id_spec());
                        }
                    }
                }
            }
            taken = taken + 1;
        }
        statuses
    }

    /// Phase two: gathers candidate transactions under the remaining gas,
    /// size and count budgets, executes each under a discardable snapshot,
    /// records skips, and streams provisional outcomes. The gathering never
    /// fails: a candidate that cannot execute is recorded, not fatal.
    pub fn process_l2_txs<T: TransactionsSource>(
        &mut self,
        partial_block: &mut PartialFuelBlock,
        components: &mut Components<T>,
        state: &mut ExecState,
        data: &mut ExecutionData,
    ) -> (r: Result<(), ExecutorError>)
        requires
            old(state).wf(),
            old(data).fees_consistent(),
        ensures
            final(self).consensus_params == old(self).consensus_params,
            final(self).forbid_fake_coins == old(self).forbid_fake_coins,
            final(self).dry_run == old(self).dry_run,
            final(state).wf(),
            final(data).fees_consistent(),
            final(partial_block).header == old(partial_block).header,
            final(data).event_inbox_root == old(data).event_inbox_root,
            final(data).l1_leaves == old(data).l1_leaves,
            old(data).events@.len() <= final(data).events@.len(),
            final(data).events@.take(old(data).events@.len() as int) == old(data).events@,
            final(components).header_to_produce == old(components).header_to_produce,
            final(components).gas_price == old(components).gas_price,
            final(components).coinbase_recipient == old(components).coinbase_recipient,
            forall|k: u128| old(state).processed@.contains_key(k)
                ==> #[trigger] final(state).processed@.contains_key(k),
            old(data).tx_count as int == old(partial_block).transactions@.len()
                ==> final(data).tx_count as int
                    == final(partial_block).transactions@.len(),
            old(data).skipped_transactions@.len()
                <= final(data).skipped_transactions@.len(),
            final(data).skipped_transactions@.take(
                old(data).skipped_transactions@.len() as int)
                == old(data).skipped_transactions@,
            // The gathering itself is never fatal.
            r is Ok,
    {
        let ghost ev0 = old(data).events@;
        let ghost sk0 = old(data).skipped_transactions@;
        proof {
            assert(data.events@.take(ev0.len() as int) =~= ev0);
            assert(data.skipped_transactions@.take(sk0.len() as int) =~= sk0);
        }
        let block_gas_limit = self.consensus_params.block_gas_limit;
        let block_size_limit = self.consensus_params.block_transaction_size_limit;
        let cap = max_tx_count();
        let mut statuses: Vec<Preconfirmation> = Vec::new();
        // Bounds the rounds of refilling from the source, so an unquiet
        // source cannot hold the block open forever.
        let mut refills_left: u32 = 65536;
        loop
            invariant
                self.consensus_params == old(self).consensus_params,
                self.forbid_fake_coins == old(self).forbid_fake_coins,
                self.dry_run == old(self).dry_run,
                block_gas_limit == old(self).consensus_params.block_gas_limit,
                block_size_limit
                    == old(self).consensus_params.block_transaction_size_limit,
                cap == u16::MAX - 1,
                ev0 == old(data).events@,
                sk0 == old(data).skipped_transactions@,
                state.wf(),
                data.fees_consistent(),
                partial_block.header == old(partial_block).header,
                data.event_inbox_root == old(data).event_inbox_root,
                data.l1_leaves == old(data).l1_leaves,
                ev0.len() <= data.events@.len(),
                data.events@.take(ev0.len() as int) == ev0,
                components.header_to_produce == old(components).header_to_produce,
                components.gas_price == old(components).gas_price,
                components.coinbase_recipient == old(components).coinbase_recipient,
                forall|k: u128| old(state).processed@.contains_key(k)
                    ==> #[trigger] state.processed@.contains_key(k),
                old(data).tx_count as int == old(partial_block).transactions@.len()
                    ==> data.tx_count as int == partial_block.transactions@.len(),
                sk0.len() <= data.skipped_transactions@.len(),
                data.skipped_transactions@.take(sk0.len() as int) == sk0,
            decreases refills_left,
        {
            let remaining_gas = if block_gas_limit >= data.used_gas {
                block_gas_limit - data.used_gas
            } else {
                0
            };
            let remaining_size = if block_size_limit >= data.used_size {
                block_size_limit - data.used_size
            } else {
                0
            };
            let remaining_tx_count = if cap >= data.tx_count {
                cap - data.tx_count
            } else {
                0
            };
            let batch = components.transactions_source.next(
                remaining_gas, remaining_tx_count, remaining_size);
            if batch.len() == 0 {
                break;
            }
            let ghost ev_before = data.events@;
            let ghost sk_before = data.skipped_transactions@;
            let sent = self.process_l2_batch(
                partial_block, batch, statuses, state, data, components.gas_price);
            statuses = sent;
            proof {
                assert(data.events@.take(ev0.len() as int) =~= ev0) by {
                    assert forall|j: int| 0 <= j < ev0.len() implies
                        data.events@[j] == ev0[j] by {
                        assert(data.events@.take(ev_before.len() as int)[j]
                            == data.events@[j]);
                        assert(ev_before.take(ev0.len() as int)[j] == ev_before[j]);
                    }
                }
                assert(data.skipped_transactions@.take(sk0.len() as int) =~= sk0) by {
                    assert forall|j: int| 0 <= j < sk0.len() implies
                        data.skipped_transactions@[j] == sk0[j] by {
                        assert(data.skipped_transactions@.take(
                            sk_before.len() as int)[j]
                            == data.skipped_transactions@[j]);
                        assert(sk_before.take(sk0.len() as int)[j] == sk_before[j]);
                    }
                }
            }
            if refills_left == 0 {
                break;
            }
            refills_left = refills_left - 1;
        }
        if statuses.len() > 0 {
            self.preconfirmation_sender.send(statuses);
        }
        Ok(())
    }

    /// Phase three: builds the fee-settling mint and executes it through the
    /// common path.
    #[verifier::rlimit(100)]
    pub fn produce_mint_tx<T: TransactionsSource>(
        &mut self,
        partial_block: &mut PartialFuelBlock,
        components: &Components<T>,
        state: &mut ExecState,
        data: &mut ExecutionData,
    ) -> (r: Result<(), ExecutorError>)
        requires
            old(state).wf(),
            old(data).fees_consistent(),
        ensures
            final(self).consensus_params == old(self).consensus_params,
            final(self).forbid_fake_coins == old(self).forbid_fake_coins,
            final(self).dry_run == old(self).dry_run,
            final(state).wf(),
            final(data).fees_consistent(),
            final(partial_block).header == old(partial_block).header,
            final(data).event_inbox_root == old(data).event_inbox_root,
            final(data).l1_leaves == old(data).l1_leaves,
            // Success is owed unless the block is full, a mint already
            // stands, the built identifier collides, or — for a settling
            // mint — the coinbase contract cannot take the deposit.
            ({
                let amount = if components.coinbase_recipient != 0 {
                    old(data).coinbase
                } else {
                    0
                };
                let mid = produced_mint_id(
                    old(partial_block).header.height, old(data).tx_count, amount,
                    components.gas_price, components.coinbase_recipient);
                r is Ok <==> (old(data).tx_count < u16::MAX
                    && !old(data).found_mint
                    && !old(state).processed@.contains_key(mid as u128)
                    && (components.coinbase_recipient != 0
                        ==> (old(self).forbid_fake_coins ==> old(state).contracts@.contains_key(
                            components.coinbase_recipient as u128))
                            && balance_before(
                                old(state).balances@,
                                components.coinbase_recipient,
                                old(self).consensus_params.base_asset_id,
                            ) + amount <= u64::MAX))
            }),
            r is Ok ==> {
                let txs = final(partial_block).transactions@;
                &&& txs.len() == old(partial_block).transactions@.len() + 1
                &&& txs.last() is Mint
                &&& txs.last()->Mint_0.tx_pointer.tx_index == old(data).tx_count
                &&& txs.last()->Mint_0.tx_pointer.block_height
                    == old(partial_block).header.height
                &&& txs.last()->Mint_0.gas_price == components.gas_price
                // The mint settles in the base asset.
                &&& txs.last()->Mint_0.mint_asset_id
                    == old(self).consensus_params.base_asset_id
                &&& (components.coinbase_recipient == 0
                    ==> txs.last()->Mint_0.mint_amount == 0)
                &&& (components.coinbase_recipient != 0
                    ==> txs.last()->Mint_0.mint_amount == final(data).coinbase)
                // A zero-recipient mint is appended exactly as built: the
                // canonical zero contract input and output.
                &&& (components.coinbase_recipient == 0
                    ==> txs.last() == Transaction::Mint(produced_mint_spec(
                        old(partial_block).header.height, old(data).tx_count, 0,
                        old(self).consensus_params.base_asset_id,
                        components.gas_price, 0))
                        && txs.last()->Mint_0.input_contract
                            == canonical_zero_contract_input()
                        && txs.last()->Mint_0.output_contract
                            == canonical_zero_contract_output())
                &&& final(data).found_mint
                // The mint itself pays no fee: the accrued coinbase is
                // untouched, so the amount equals the fees accrued before.
                &&& final(data).coinbase == old(data).coinbase
                &&& (old(data).tx_count as int == old(partial_block).transactions@.len()
                    ==> txs.last()->Mint_0.tx_pointer.tx_index as int == txs.len() - 1)
            },
    {
        let coinbase_contract_id = components.coinbase_recipient;
        let gas_price = components.gas_price;
        let amount_to_mint = if coinbase_contract_id != 0 {
            data.coinbase
        } else {
            0
        };
        let block_height = partial_block.header.height;
        // A deterministic identifier that commits to the mint's fields.
        let mut id_acc = crate::merkle::mix_step(3, block_height as u64);
        id_acc = crate::merkle::mix_step(id_acc, data.tx_count as u64);
        id_acc = crate::merkle::mix_step(id_acc, amount_to_mint);
        id_acc = crate::merkle::mix_step(id_acc, gas_price);
        id_acc = crate::merkle::mix_step(id_acc, coinbase_contract_id);
        let coinbase_tx = MintTx {
            tx_id: id_acc,
            tx_pointer: TxPointer { block_height, tx_index: data.tx_count },
            input_contract: ContractInput {
                utxo_id: UtxoId { tx_id: 0, output_index: 0 },
                balance_root: 0,
                state_root: 0,
                tx_pointer: TxPointer { block_height: 0, tx_index: 0 },
                contract_id: coinbase_contract_id,
            },
            output_contract: ContractOutput {
                input_index: 0,
                balance_root: 0,
                state_root: 0,
            },
            mint_amount: amount_to_mint,
            mint_asset_id: self.consensus_params.base_asset_id,
            gas_price,
        };
        let wrapped = MaybeCheckedTransaction::Transaction(Transaction::Mint(coinbase_tx));
        match self.execute_transaction_and_commit(
            partial_block, state, data, wrapped, gas_price) {
            Ok(()) => Ok(()),
            Err(e) => Err(e),
        }
    }
}

/// Deep equality of two inputs, byte payloads included.
pub fn input_eq(a: &Input, b: &Input) -> (r: bool)
    ensures
        r <==> a.view_input() == b.view_input(),
{
    match (a, b) {
        (
            Input::CoinSigned {
                utxo_id: u1, owner: o1, amount: a1, asset_id: s1, tx_pointer: p1,
                witness_index: w1,
            },
            Input::CoinSigned {
                utxo_id: u2, owner: o2, amount: a2, asset_id: s2, tx_pointer: p2,
                witness_index: w2,
            },
        ) => u1 == u2 && o1 == o2 && a1 == a2 && s1 == s2 && p1 == p2 && w1 == w2,
        (
            Input::CoinPredicate {
                utxo_id: u1, owner: o1, amount: a1, asset_id: s1, tx_pointer: p1,
                predicate_gas_used: g1,
            },
            Input::CoinPredicate {
                utxo_id: u2, owner: o2, amount: a2, asset_id: s2, tx_pointer: p2,
                predicate_gas_used: g2,
            },
        ) => u1 == u2 && o1 == o2 && a1 == a2 && s1 == s2 && p1 == p2 && g1 == g2,
        (Input::Contract(c1), Input::Contract(c2)) => c1 == c2,
        (
            Input::MessageCoinSigned {
                sender: s1, recipient: r1, amount: a1, nonce: n1, witness_index: w1,
            },
            Input::MessageCoinSigned {
                sender: s2, recipient: r2, amount: a2, nonce: n2, witness_index: w2,
            },
        ) => s1 == s2 && r1 == r2 && a1 == a2 && n1 == n2 && w1 == w2,
        (
            Input::MessageCoinPredicate {
                sender: s1, recipient: r1, amount: a1, nonce: n1, predicate_gas_used: g1,
            },
            Input::MessageCoinPredicate {
                sender: s2, recipient: r2, amount: a2, nonce: n2, predicate_gas_used: g2,
            },
        ) => s1 == s2 && r1 == r2 && a1 == a2 && n1 == n2 && g1 == g2,
        (
            Input::MessageDataSigned {
                sender: s1, recipient: r1, amount: a1, nonce: n1, data: d1,
                witness_index: w1,
            },
            Input::MessageDataSigned {
                sender: s2, recipient: r2, amount: a2, nonce: n2, data: d2,
                witness_index: w2,
            },
        ) => s1 == s2 && r1 == r2 && a1 == a2 && n1 == n2 && w1 == w2
            && matches!(crate::order::bytes_cmp(d1, d2), crate::order::KeyCmp::Equal),
        (
            Input::MessageDataPredicate {
                sender: s1, recipient: r1, amount: a1, nonce: n1, data: d1,
                predicate_gas_used: g1,
            },
            Input::MessageDataPredicate {
                sender: s2, recipient: r2, amount: a2, nonce: n2, data: d2,
                predicate_gas_used: g2,
            },
        ) => s1 == s2 && r1 == r2 && a1 == a2 && n1 == n2 && g1 == g2
            && matches!(crate::order::bytes_cmp(d1, d2), crate::order::KeyCmp::Equal),
        _ => false,
    }
}

/// Deep equality of two chargeable bodies.
pub fn chargeable_eq(a: &ChargeableTx, b: &ChargeableTx) -> (r: bool)
    ensures
        r <==> a.view_tx() == b.view_tx(),
{
    let scalars_ok = a.tx_id == b.tx_id && a.max_fee_limit == b.max_fee_limit
        && a.expiration == b.expiration && a.size == b.size && a.min_gas == b.min_gas
        && a.max_gas == b.max_gas && a.reverts == b.reverts;
    if !scalars_ok {
        return false;
    }
    if a.inputs.len() != b.inputs.len() {
        proof {
            assert(a.view_tx().inputs.len() != b.view_tx().inputs.len());
        }
        return false;
    }
    if a.outputs.len() != b.outputs.len() {
        return false;
    }
    if a.receipts.len() != b.receipts.len() {
        return false;
    }
    let n = a.inputs.len();
    let mut i: usize = 0;
    while i < n
        invariant
            0 <= i <= n,
            n == a.inputs@.len(),
            n == b.inputs@.len(),
            forall|m: int| 0 <= m < i
                ==> (#[trigger] a.inputs@[m]).view_input() == b.inputs@[m].view_input(),
        decreases n - i,
    {
        if !input_eq(&a.inputs[i], &b.inputs[i]) {
            proof {
                assert(a.view_tx().inputs[i as int] != b.view_tx().inputs[i as int]);
            }
            return false;
        }
        i = i + 1;
    }
    let no = a.outputs.len();
    let mut j: usize = 0;
    while j < no
        invariant
            0 <= j <= no,
            no == a.outputs@.len(),
            no == b.outputs@.len(),
            forall|m: int| 0 <= m < j ==> (#[trigger] a.outputs@[m]) == b.outputs@[m],
        decreases no - j,
    {
        if !(a.outputs[j] == b.outputs[j]) {
            proof {
                assert(a.view_tx().outputs[j as int] != b.view_tx().outputs[j as int]);
            }
            return false;
        }
        j = j + 1;
    }
    let nr = a.receipts.len();
    let mut k: usize = 0;
    while k < nr
        invariant
            0 <= k <= nr,
            nr == a.receipts@.len(),
            nr == b.receipts@.len(),
            forall|m: int| 0 <= m < k ==> (#[trigger] a.receipts@[m]) == b.receipts@[m],
        decreases nr - k,
    {
        if !(a.receipts[k] == b.receipts[k]) {
            proof {
                assert(a.view_tx().receipts[k as int] != b.view_tx().receipts[k as int]);
            }
            return false;
        }
        k = k + 1;
    }
    proof {
        assert(a.view_tx().inputs =~= b.view_tx().inputs);
        assert(a.view_tx().outputs =~= b.view_tx().outputs);
        assert(a.view_tx().receipts =~= b.view_tx().receipts);
    }
    true
}

/// Deep equality of two transactions.
pub fn tx_eq(a: &Transaction, b: &Transaction) -> (r: bool)
    ensures
        r <==> a.view_tx() == b.view_tx(),
{
    match (a, b) {
        (Transaction::Script(x), Transaction::Script(y)) => chargeable_eq(x, y),
        (Transaction::Create(x), Transaction::Create(y)) => chargeable_eq(x, y),
        (Transaction::Upgrade(x), Transaction::Upgrade(y)) => chargeable_eq(x, y),
        (Transaction::Upload(x), Transaction::Upload(y)) => chargeable_eq(x, y),
        (Transaction::Blob(x), Transaction::Blob(y)) => chargeable_eq(x, y),
        (Transaction::Mint(x), Transaction::Mint(y)) => x == y,
        _ => false,
    }
}

/// The header the generator settles: the partial header's fields, the
/// counts, and the roots over the transaction identifiers, the message
/// identifiers, and the event inbox.
pub open spec fn gen_header_spec(
    partial: PartialBlockHeader,
    txs: Seq<Transaction>,
    message_ids: Seq<u64>,
    event_inbox_root: u64,
) -> BlockHeader {
    BlockHeader {
        height: partial.height,
        da_height: partial.da_height,
        prev_root: partial.prev_root,
        time: partial.time,
        consensus_parameters_version: partial.consensus_parameters_version,
        state_transition_bytecode_version: partial.state_transition_bytecode_version,
        transactions_count: txs.len() as u16,
        message_receipt_count: message_ids.len() as u32,
        transactions_root: crate::merkle::merkle_root(tx_ids_of(txs)),
        message_outbox_root: crate::merkle::merkle_root(message_ids),
        event_inbox_root,
    }
}

/// The identifiers of a block's transactions, in order.
pub open spec fn tx_ids_of(txs: Seq<Transaction>) -> Seq<u64> {
    Seq::new(txs.len(), |i: int| txs[i].id_spec())
}

/// Generates the finished block: counts and the transaction and message
/// roots settle into the header beside the event-inbox root.
pub fn generate_block(
    partial: PartialFuelBlock,
    message_ids: &Vec<u64>,
    event_inbox_root: u64,
) -> (r: Result<Block, ExecutorError>)
    ensures
        match r {
            Ok(b) => {
                &&& b.header.partial_spec() == partial.header
                &&& b.header.transactions_count as int == partial.transactions@.len()
                &&& b.header.message_receipt_count as int == message_ids@.len()
                &&& b.header.transactions_root == crate::merkle::merkle_root(
                    tx_ids_of(partial.transactions@))
                &&& b.header.message_outbox_root == crate::merkle::merkle_root(
                    message_ids@)
                &&& b.header.event_inbox_root == event_inbox_root
                &&& b.transactions == partial.transactions
            },
            Err(e) => e is BlockHeaderError
                && (partial.transactions@.len() > u16::MAX
                    || message_ids@.len() > u32::MAX),
        },
{
    if partial.transactions.len() > 65535 {
        return Err(ExecutorError::BlockHeaderError(
            "too many transactions for the header's counter".to_owned(),
        ));
    }
    if message_ids.len() > 4294967295 {
        return Err(ExecutorError::BlockHeaderError(
            "too many message receipts for the header's counter".to_owned(),
        ));
    }
    let mut tx_root_calc = MerkleRootCalculator::new();
    proof {
        assert(tx_root_calc.leaves@ =~= tx_ids_of(partial.transactions@).take(0));
    }
    let n = partial.transactions.len();
    let mut i: usize = 0;
    while i < n
        invariant
            0 <= i <= n,
            n <= 65535,
            n == partial.transactions@.len(),
            tx_root_calc.wf(),
            tx_root_calc.leaves@ == tx_ids_of(partial.transactions@).take(i as int),
        decreases n - i,
    {
        let id = partial.transactions[i].id();
        tx_root_calc.push(id);
        proof {
            assert(tx_root_calc.leaves@
                =~= tx_ids_of(partial.transactions@).take(i + 1));
        }
        i = i + 1;
    }
    proof {
        assert(tx_ids_of(partial.transactions@).take(n as int)
            =~= tx_ids_of(partial.transactions@));
    }
    let mut msg_root_calc = MerkleRootCalculator::new();
    proof {
        assert(msg_root_calc.leaves@ =~= message_ids@.take(0));
    }
    let m = message_ids.len();
    let mut j: usize = 0;
    while j < m
        invariant
            0 <= j <= m,
            m <= 4294967295,
            m == message_ids@.len(),
            msg_root_calc.wf(),
            msg_root_calc.leaves@ == message_ids@.take(j as int),
        decreases m - j,
    {
        msg_root_calc.push(message_ids[j]);
        proof {
            assert(msg_root_calc.leaves@ =~= message_ids@.take(j + 1));
        }
        j = j + 1;
    }
    proof {
        assert(message_ids@.take(m as int) =~= message_ids@);
    }
    let header = BlockHeader {
        height: partial.header.height,
        da_height: partial.header.da_height,
        prev_root: partial.header.prev_root,
        time: partial.header.time,
        consensus_parameters_version: partial.header.consensus_parameters_version,
        state_transition_bytecode_version: partial.header.state_transition_bytecode_version,
        transactions_count: partial.transactions.len() as u16,
        message_receipt_count: message_ids.len() as u32,
        transactions_root: tx_root_calc.root(),
        message_outbox_root: msg_root_calc.root(),
        event_inbox_root,
    };
    Ok(Block { header, transactions: partial.transactions })
}

impl<R: RelayerPort, N: NewTxWaiterPort, P: PreconfirmationSenderPort> BlockExecutor<R, N, P> {
    /// The gas price and coinbase contract a received block fixes in its
    /// final transaction, which must be the mint.
    pub fn get_coinbase_info_from_mint_tx(
        transactions: &Vec<Transaction>,
    ) -> (r: Result<(u64, u64), ExecutorError>)
        ensures
            match r {
                Ok((gas_price, coinbase)) => transactions@.len() > 0
                    && transactions@.last() is Mint
                    && gas_price == transactions@.last()->Mint_0.gas_price
                    && coinbase
                        == transactions@.last()->Mint_0.input_contract.contract_id,
                Err(e) => e == ExecutorError::MintMissing
                    && (transactions@.len() == 0 || !(transactions@.last() is Mint)),
            },
    {
        if transactions.len() == 0 {
            return Err(ExecutorError::MintMissing);
        }
        let idx = transactions.len() - 1;
        match &transactions[idx] {
            Transaction::Mint(mint) => Ok((mint.gas_price, mint.input_contract.contract_id)),
            _ => Err(ExecutorError::MintMissing),
        }
    }

    /// Compares the re-executed transactions and the regenerated header with
    /// the received block, field for field.
    pub fn check_block_matches(
        &self,
        new_partial: PartialFuelBlock,
        old_block: &Block,
        data: &ExecutionData,
    ) -> (r: Result<(), ExecutorError>)
        ensures
            // The check accepts exactly a field-for-field match: every
            // re-executed transaction equals the received one, and the
            // regenerated header equals the received header.
            r is Ok <==> ({
                let shorter = if new_partial.transactions@.len()
                    <= old_block.transactions@.len() {
                    new_partial.transactions@.len() as int
                } else {
                    old_block.transactions@.len() as int
                };
                &&& forall|m: int| 0 <= m < shorter
                    ==> (#[trigger] new_partial.transactions@[m]).view_tx()
                        == old_block.transactions@[m].view_tx()
                &&& new_partial.transactions@.len() <= u16::MAX
                &&& data.message_ids@.len() <= u32::MAX
                &&& gen_header_spec(
                    new_partial.header,
                    new_partial.transactions@,
                    data.message_ids@,
                    data.event_inbox_root,
                ) == old_block.header
            }),
            // A differing transaction decides first, and the first one is
            // named; equal transactions with a differing header are a block
            // mismatch.
            (exists|m: int|
                0 <= m < new_partial.transactions@.len()
                    && m < old_block.transactions@.len()
                    && (#[trigger] new_partial.transactions@[m]).view_tx()
                        != old_block.transactions@[m].view_tx())
                ==> exists|m: int|
                    0 <= m < new_partial.transactions@.len()
                        && m < old_block.transactions@.len()
                        && (#[trigger] new_partial.transactions@[m]).view_tx()
                            != old_block.transactions@[m].view_tx()
                        && (forall|p: int| 0 <= p < m
                            ==> (#[trigger] new_partial.transactions@[p]).view_tx()
                                == old_block.transactions@[p].view_tx())
                        && r == Err::<(), ExecutorError>(
                            ExecutorError::InvalidTransactionOutcome(
                                old_block.transactions@[m].id_spec())),
            (forall|m: int|
                0 <= m < new_partial.transactions@.len()
                    && m < old_block.transactions@.len()
                    ==> (#[trigger] new_partial.transactions@[m]).view_tx()
                        == old_block.transactions@[m].view_tx())
                && new_partial.transactions@.len() <= u16::MAX
                && data.message_ids@.len() <= u32::MAX
                && gen_header_spec(
                    new_partial.header,
                    new_partial.transactions@,
                    data.message_ids@,
                    data.event_inbox_root,
                ) != old_block.header
                ==> r == Err::<(), ExecutorError>(ExecutorError::BlockMismatch),
            r is Err ==> r->Err_0 is InvalidTransactionOutcome
                || r->Err_0 is BlockMismatch || r->Err_0 is BlockHeaderError,
    {
        let n = if new_partial.transactions.len() < old_block.transactions.len() {
            new_partial.transactions.len()
        } else {
            old_block.transactions.len()
        };
        let mut i: usize = 0;
        while i < n
            invariant
                0 <= i <= n,
                n == (if new_partial.transactions@.len() <= old_block.transactions@.len() {
                    new_partial.transactions@.len() as int
                } else {
                    old_block.transactions@.len() as int
                }),
                forall|m: int| 0 <= m < i
                    ==> (#[trigger] new_partial.transactions@[m]).view_tx()
                        == old_block.transactions@[m].view_tx(),
            decreases n - i,
        {
            if !tx_eq(&new_partial.transactions[i], &old_block.transactions[i]) {
                let transaction_id = old_block.transactions[i].id();
                return Err(ExecutorError::InvalidTransactionOutcome(transaction_id));
            }
            i = i + 1;
        }
        let ghost txs_snapshot = new_partial.transactions@;
        let ghost header_snapshot = new_partial.header;
        let new_block = match generate_block(
            new_partial, &data.message_ids, data.event_inbox_root) {
            Ok(b) => b,
            Err(e) => {
                return Err(e);
            },
        };
        proof {
            assert(new_block.header == gen_header_spec(
                header_snapshot, txs_snapshot, data.message_ids@,
                data.event_inbox_root));
        }
        if !(new_block.header == old_block.header) {
            return Err(ExecutorError::BlockMismatch);
        }
        Ok(())
    }

    /// The gathering rounds: runs the gathering loop, then waits; the block
    /// closes on a timeout, and an unquiet waiter cannot hold it open past a
    /// fixed number of rounds.
    fn gather_l2_rounds<T: TransactionsSource>(
        &mut self,
        partial_block: &mut PartialFuelBlock,
        components: &mut Components<T>,
        state: &mut ExecState,
        data: &mut ExecutionData,
    ) -> (r: Result<(), ExecutorError>)
        requires
            old(state).wf(),
            old(data).fees_consistent(),
        ensures
            final(self).consensus_params == old(self).consensus_params,
            final(self).forbid_fake_coins == old(self).forbid_fake_coins,
            final(self).dry_run == old(self).dry_run,
            final(state).wf(),
            final(data).fees_consistent(),
            final(partial_block).header == old(partial_block).header,
            final(data).event_inbox_root == old(data).event_inbox_root,
            final(data).l1_leaves == old(data).l1_leaves,
            final(components).header_to_produce == old(components).header_to_produce,
            final(components).gas_price == old(components).gas_price,
            final(components).coinbase_recipient == old(components).coinbase_recipient,
            forall|k: u128| old(state).processed@.contains_key(k)
                ==> #[trigger] final(state).processed@.contains_key(k),
            old(data).tx_count as int == old(partial_block).transactions@.len()
                ==> final(data).tx_count as int
                    == final(partial_block).transactions@.len(),
            old(data).skipped_transactions@.len()
                <= final(data).skipped_transactions@.len(),
            final(data).skipped_transactions@.take(
                old(data).skipped_transactions@.len() as int)
                == old(data).skipped_transactions@,
            // Each round records or executes, never fails.
            r is Ok,
    {
        let ghost sk0 = old(data).skipped_transactions@;
        proof {
            assert(data.skipped_transactions@.take(sk0.len() as int)
                =~= data.skipped_transactions@);
        }
        let mut rounds_left: u32 = 65536;
        loop
            invariant
                self.consensus_params == old(self).consensus_params,
                self.forbid_fake_coins == old(self).forbid_fake_coins,
                self.dry_run == old(self).dry_run,
                state.wf(),
                data.fees_consistent(),
                partial_block.header == old(partial_block).header,
                data.event_inbox_root == old(data).event_inbox_root,
                data.l1_leaves == old(data).l1_leaves,
                components.header_to_produce == old(components).header_to_produce,
                components.gas_price == old(components).gas_price,
                components.coinbase_recipient == old(components).coinbase_recipient,
                sk0 == old(data).skipped_transactions@,
                forall|k: u128| old(state).processed@.contains_key(k)
                    ==> #[trigger] state.processed@.contains_key(k),
                old(data).tx_count as int == old(partial_block).transactions@.len()
                    ==> data.tx_count as int == partial_block.transactions@.len(),
                sk0.len() <= data.skipped_transactions@.len(),
                data.skipped_transactions@.take(sk0.len() as int) == sk0,
            decreases rounds_left,
        {
            let ghost sk_before = data.skipped_transactions@;
            match self.process_l2_txs(partial_block, components, state, data) {
                Ok(()) => {},
                Err(e) => {
                    return Err(e);
                },
            }
            proof {
                assert(data.skipped_transactions@.take(sk0.len() as int) =~= sk0) by {
                    assert forall|j: int| 0 <= j < sk0.len() implies
                        data.skipped_transactions@[j] == sk0[j] by {
                        assert(data.skipped_transactions@.take(
                            sk_before.len() as int)[j]
                            == data.skipped_transactions@[j]);
                        assert(sk_before.take(sk0.len() as int)[j] == sk_before[j]);
                    }
                }
            }
            match self.new_tx_waiter.wait_for_new_transactions() {
                WaitNewTransactionsResult::Timeout => {
                    break;
                },
                WaitNewTransactionsResult::NewTransaction => {
                    if rounds_left == 0 {
                        break;
                    }
                    rounds_left = rounds_left - 1;
                },
            }
        }
        Ok(())
    }

    /// Produces a block: the L1 phase, the gathering loop paced by the
    /// waiter, and the closing mint.
    #[verifier::rlimit(100)]
    #[verifier::spinoff_prover]
    pub fn produce_block<T: TransactionsSource>(
        &mut self,
        components: &mut Components<T>,
        state: &mut ExecState,
    ) -> (r: Result<(PartialFuelBlock, ExecutionData), ExecutorError>)
        requires
            old(state).wf(),
        ensures
            final(state).wf(),
            match r {
                Ok((partial, data)) => {
                    let txs = partial.transactions@;
                    &&& txs.len() >= 1
                    &&& txs.last() is Mint
                    &&& txs.last()->Mint_0.tx_pointer.tx_index as int == txs.len() - 1
                    &&& txs.last()->Mint_0.tx_pointer.block_height
                        == old(components).header_to_produce.height
                    &&& txs.last()->Mint_0.gas_price == old(components).gas_price
                    &&& txs.last()->Mint_0.mint_asset_id
                        == old(self).consensus_params.base_asset_id
                    &&& (old(components).coinbase_recipient == 0
                        ==> txs.last()->Mint_0.mint_amount == 0
                            && txs.last()->Mint_0.input_contract
                                == canonical_zero_contract_input()
                            && txs.last()->Mint_0.output_contract
                                == canonical_zero_contract_output())
                    &&& (old(components).coinbase_recipient != 0
                        ==> txs.last()->Mint_0.mint_amount == data.coinbase)
                    &&& data.fees_consistent()
                    &&& data.root_consistent()
                    &&& data.found_mint
                    &&& partial.header == old(components).header_to_produce
                },
                Err(_) => true,
            },
    {
        let mut partial_block = PartialFuelBlock {
            header: components.header_to_produce,
            transactions: Vec::new(),
        };
        let mut data = ExecutionData::new();
        match self.process_l1_txs(&mut partial_block, state, &mut data) {
            Ok(()) => {},
            Err(e) => {
                return Err(e);
            },
        }
        match self.gather_l2_rounds(&mut partial_block, components, state, &mut data) {
            Ok(()) => {},
            Err(e) => {
                return Err(e);
            },
        }
        match self.produce_mint_tx(&mut partial_block, components, state, &mut data) {
            Ok(()) => {},
            Err(e) => {
                return Err(e);
            },
        }
        Ok((partial_block, data))
    }

    /// A dry run: the gathering loop alone, no L1 phase and no mint; the
    /// changes are handed back, never meant to be committed.
    pub fn dry_run_block<T: TransactionsSource>(
        &mut self,
        components: &mut Components<T>,
        state: &mut ExecState,
    ) -> (r: Result<(PartialFuelBlock, ExecutionData), ExecutorError>)
        requires
            old(state).wf(),
        ensures
            final(state).wf(),
            forall|k: u128| old(state).processed@.contains_key(k)
                ==> #[trigger] final(state).processed@.contains_key(k),
            // A dry run never fails: a candidate that cannot execute is
            // recorded in the skipped transactions, and the block comes
            // back on the requested header with one status per appended
            // transaction.
            r is Ok,
            ({
                let built = r->Ok_0;
                &&& built.0.header == old(components).header_to_produce
                &&& built.1.fees_consistent()
                &&& built.1.tx_count as int == built.0.transactions@.len()
            }),
    {
        let mut partial_block = PartialFuelBlock {
            header: components.header_to_produce,
            transactions: Vec::new(),
        };
        let mut data = ExecutionData::new();
        match self.process_l2_txs(&mut partial_block, components, state, &mut data) {
            Ok(()) => {},
            Err(e) => {
                return Err(e);
            },
        }
        Ok((partial_block, data))
    }

    /// Validates a received block: the same phases replayed with the gas
    /// price and coinbase its mint fixes; every transaction must re-execute,
    /// and the outcome must match the block field for field.
    pub fn validate_block(
        &mut self,
        block: &Block,
        state: &mut ExecState,
    ) -> (r: Result<ExecutionData, ExecutorError>)
        requires
            old(state).wf(),
        ensures
            final(state).wf(),
            // A received block without the mint as its final transaction is
            // refused outright.
            block.transactions@.len() == 0 || !(block.transactions@.last() is Mint)
                ==> r == Err::<ExecutionData, ExecutorError>(ExecutorError::MintMissing),
            // An accepted replay hands back internally consistent data: the
            // coinbase equals the fees of the recorded statuses, and the
            // event-inbox root is the root over the ingested L1 leaves.
            r is Ok ==> r->Ok_0.fees_consistent() && r->Ok_0.root_consistent(),
    {
        let mut data = ExecutionData::new();
        let (gas_price, _coinbase_contract_id) =
            match Self::get_coinbase_info_from_mint_tx(&block.transactions) {
            Ok(pair) => pair,
            Err(e) => {
                return Err(e);
            },
        };
        let mut partial_block = PartialFuelBlock {
            header: block.header.partial(),
            transactions: Vec::new(),
        };
        match self.process_l1_txs(&mut partial_block, state, &mut data) {
            Ok(()) => {},
            Err(e) => {
                return Err(e);
            },
        }
        let processed_l1_tx_count = partial_block.transactions.len();
        let total = block.transactions.len();
        let mut i: usize = if processed_l1_tx_count < total {
            processed_l1_tx_count
        } else {
            total
        };
        while i < total
            invariant
                state.wf(),
                data.fees_consistent(),
                data.root_consistent(),
                i <= total,
                total == block.transactions@.len(),
                block.transactions@.len() > 0,
                block.transactions@.last() is Mint,
            decreases total - i,
        {
            let tx = block.transactions[i].duplicate_tx();
            let wrapped = MaybeCheckedTransaction::Transaction(tx);
            match self.execute_transaction_and_commit(
                &mut partial_block, state, &mut data, wrapped, gas_price) {
                Ok(()) => {},
                Err(e) => {
                    return Err(e);
                },
            }
            i = i + 1;
        }
        match self.check_block_matches(partial_block, block, &data) {
            Ok(()) => {},
            Err(e) => {
                return Err(e);
            },
        }
        Ok(data)
    }
}

/// The dynamic outputs among the first `n`: the change outputs and the
/// variable outputs with value, at their coin slots; slots beyond the index
/// space are left out.
pub open spec fn dynamic_outputs_spec(outputs: Seq<Output>, tx_id: u64, n: int) -> Seq<
    (UtxoId, Output),
> 
    decreases n,
{
    if n <= 0 {
        Seq::empty()
    } else {
        let rest = dynamic_outputs_spec(outputs, tx_id, n - 1);
        let o = outputs[n - 1];
        let dynamic = o is Change || (o is Variable && o->Variable_amount != 0);
        if dynamic && n - 1 < 65536 {
            rest.push((UtxoId { tx_id, output_index: (n - 1) as u16 }, o))
        } else {
            rest
        }
    }
}

/// The inputs a transaction carries; a mint carries none.
pub open spec fn tx_inputs_of(t: Transaction) -> Seq<Input> {
    match t {
        Transaction::Script(b) => b.inputs@,
        Transaction::Create(b) => b.inputs@,
        Transaction::Upgrade(b) => b.inputs@,
        Transaction::Upload(b) => b.inputs@,
        Transaction::Blob(b) => b.inputs@,
        Transaction::Mint(_) => Seq::empty(),
    }
}

/// The outputs one transaction exposes to provisional observers.
pub open spec fn tx_outputs_of(t: Transaction) -> Seq<Output> {
    match t {
        Transaction::Script(b) => b.outputs@,
        Transaction::Create(b) => b.outputs@,
        Transaction::Upgrade(b) => b.outputs@,
        Transaction::Upload(b) => b.outputs@,
        Transaction::Blob(b) => b.outputs@,
        Transaction::Mint(_) => Seq::empty(),
    }
}

/// Builds the provisional outcome of one executed transaction: its dynamic
/// outputs are the change outputs and the variable outputs with value.
pub fn convert_tx_execution_result_to_preconfirmation(
    tx: &Transaction,
    tx_id: u64,
    tx_exec_result: &TransactionExecutionResult,
    block_height: u32,
    tx_index: u16,
) -> (r: Preconfirmation)
    ensures
        r.tx_id == tx_id,
        // The provisional status mirrors the recorded outcome: its kind, its
        // totals, its receipts, and the dynamic outputs.
        match tx_exec_result {
            TransactionExecutionResult::Success { receipts, total_gas, total_fee } => {
                &&& r.status is Success
                &&& r.status->Success_total_gas == total_gas
                &&& r.status->Success_total_fee == total_fee
                &&& r.status->Success_tx_pointer
                    == (TxPointer { block_height, tx_index })
                &&& r.status->Success_receipts@ == receipts@
                &&& r.status->Success_outputs@ == dynamic_outputs_spec(
                    tx_outputs_of(*tx), tx_id, tx_outputs_of(*tx).len() as int)
            },
            TransactionExecutionResult::Failed { receipts, total_gas, total_fee } => {
                &&& r.status is Failure
                &&& r.status->Failure_total_gas == total_gas
                &&& r.status->Failure_total_fee == total_fee
                &&& r.status->Failure_tx_pointer
                    == (TxPointer { block_height, tx_index })
                &&& r.status->Failure_receipts@ == receipts@
                &&& r.status->Failure_outputs@ == dynamic_outputs_spec(
                    tx_outputs_of(*tx), tx_id, tx_outputs_of(*tx).len() as int)
            },
        },
{
    let tx_pointer = TxPointer { block_height, tx_index };
    let mut dynamic_outputs: Vec<(UtxoId, Output)> = Vec::new();
    let outputs: &Vec<Output> = match tx {
        Transaction::Script(b) => &b.outputs,
        Transaction::Create(b) => &b.outputs,
        Transaction::Upgrade(b) => &b.outputs,
        Transaction::Upload(b) => &b.outputs,
        Transaction::Blob(b) => &b.outputs,
        Transaction::Mint(_) => {
            proof {
                assert(dynamic_outputs_spec(tx_outputs_of(*tx), tx_id, 0)
                    =~= Seq::<(UtxoId, Output)>::empty());
            }
            return Preconfirmation {
                tx_id,
                status: match tx_exec_result {
                    TransactionExecutionResult::Success { receipts, total_gas, total_fee } =>
                        PreconfirmationStatus::Success {
                            total_gas: *total_gas,
                            total_fee: *total_fee,
                            tx_pointer,
                            receipts: BlockExecutor::<
                                crate::ports::DisabledRelayer,
                                crate::ports::TimeoutOnlyTxWaiter,
                                crate::ports::TransparentPreconfirmationSender,
                            >::copy_receipts(receipts),
                            outputs: Vec::new(),
                        },
                    TransactionExecutionResult::Failed { receipts, total_gas, total_fee } =>
                        PreconfirmationStatus::Failure {
                            total_gas: *total_gas,
                            total_fee: *total_fee,
                            tx_pointer,
                            receipts: BlockExecutor::<
                                crate::ports::DisabledRelayer,
                                crate::ports::TimeoutOnlyTxWaiter,
                                crate::ports::TransparentPreconfirmationSender,
                            >::copy_receipts(receipts),
                            outputs: Vec::new(),
                        },
                },
            };
        },
    };
    let n = outputs.len();
    let mut i: usize = 0;
    while i < n && i < 65536
        invariant
            0 <= i <= n,
            n == outputs@.len(),
            outputs@ == tx_outputs_of(*tx),
            dynamic_outputs@ == dynamic_outputs_spec(tx_outputs_of(*tx), tx_id, i as int),
        decreases n - i,
    {
        let output = outputs[i];
        let dynamic = match output {
            Output::Change { .. } => true,
            Output::Variable { amount, .. } => amount != 0,
            _ => false,
        };
        if dynamic {
            dynamic_outputs.push((UtxoId { tx_id, output_index: i as u16 }, output));
            proof {
                assert(dynamic_outputs@ =~= dynamic_outputs_spec(
                    tx_outputs_of(*tx), tx_id, i + 1));
            }
        }
        i = i + 1;
    }
    proof {
        if i < n {
            // Slots beyond the index space stay out, as the spec leaves them.
            assert(dynamic_outputs@ == dynamic_outputs_spec(
                tx_outputs_of(*tx), tx_id, n as int)) by {
                lemma_dynamic_outputs_stable(tx_outputs_of(*tx), tx_id, i as int, n as int);
            }
        }
    }
    let status = match tx_exec_result {
        TransactionExecutionResult::Success { receipts, total_gas, total_fee } =>
            PreconfirmationStatus::Success {
                total_gas: *total_gas,
                total_fee: *total_fee,
                tx_pointer,
                receipts: BlockExecutor::<
                    crate::ports::DisabledRelayer,
                    crate::ports::TimeoutOnlyTxWaiter,
                    crate::ports::TransparentPreconfirmationSender,
                >::copy_receipts(receipts),
                outputs: dynamic_outputs,
            },
        TransactionExecutionResult::Failed { receipts, total_gas, total_fee } =>
            PreconfirmationStatus::Failure {
                total_gas: *total_gas,
                total_fee: *total_fee,
                tx_pointer,
                receipts: BlockExecutor::<
                    crate::ports::DisabledRelayer,
                    crate::ports::TimeoutOnlyTxWaiter,
                    crate::ports::TransparentPreconfirmationSender,
                >::copy_receipts(receipts),
                outputs: dynamic_outputs,
            },
    };
    Preconfirmation { tx_id, status }
}

/// Past the index space the dynamic-output list stops growing.
proof fn lemma_dynamic_outputs_stable(outputs: Seq<Output>, tx_id: u64, a: int, b: int)
    requires
        65536 <= a <= b <= outputs.len(),
    ensures
        dynamic_outputs_spec(outputs, tx_id, b) == dynamic_outputs_spec(outputs, tx_id, a),
    decreases b - a,
{
    if b > a {
        lemma_dynamic_outputs_stable(outputs, tx_id, a, b - 1);
    }
}

/// The executor instance: a relayer, a typed state to execute against, and
/// the per-block options.
pub struct ExecutionInstance<R> {
    pub relayer: R,
    pub database: ExecState,
    pub options: ExecutionOptions,
}

impl<R: RelayerPort> ExecutionInstance<R> {
    pub fn new(relayer: R, database: ExecState, options: ExecutionOptions) -> (r:
        ExecutionInstance<R>)
        ensures
            r.database == database,
            r.options == options,
    {
        ExecutionInstance { relayer, database, options }
    }

    /// Produces a block from the components, or dry-runs them, and hands
    /// back the block's outcome beside the uncommitted state.
    pub fn produce_without_commit<T: TransactionsSource, N: NewTxWaiterPort, P: PreconfirmationSenderPort>(
        self,
        components: Components<T>,
        dry_run: bool,
        new_tx_waiter: N,
        preconfirmation_sender: P,
    ) -> (r: Result<UncommittedResult, ExecutorError>)
        requires
            self.database.wf(),
        ensures
            // Unknown consensus-parameter versions are refused outright.
            !self.database.params@.contains_key(
                components.header_to_produce.consensus_parameters_version as u128)
                ==> r == Err::<UncommittedResult, ExecutorError>(
                    ExecutorError::ConsensusParametersNotFound(
                        components.header_to_produce.consensus_parameters_version)),
            match r {
                Ok(u) => {
                    let txs = u.result.block.transactions@;
                    &&& u.state.wf()
                    &&& !dry_run ==> {
                        &&& txs.len() >= 1
                        &&& txs.last() is Mint
                        &&& txs.last()->Mint_0.tx_pointer.tx_index as int == txs.len() - 1
                        &&& txs.last()->Mint_0.tx_pointer.block_height
                            == components.header_to_produce.height
                        &&& txs.last()->Mint_0.gas_price == components.gas_price
                        &&& (components.coinbase_recipient == 0
                            ==> txs.last()->Mint_0.mint_amount == 0
                                && txs.last()->Mint_0.input_contract
                                    == canonical_zero_contract_input()
                                && txs.last()->Mint_0.output_contract
                                    == canonical_zero_contract_output())
                        &&& (components.coinbase_recipient != 0
                            ==> txs.last()->Mint_0.mint_amount as nat
                                == fee_sum(u.result.tx_status@))
                    }
                },
                Err(_) => true,
            },
    {
        let version = components.header_to_produce.consensus_parameters_version;
        let ExecutionInstance { relayer, database, options } = self;
        let mut state = database;
        let consensus_params: ConsensusParameters = match state.params.get(version as u128) {
            Some(p) => *p,
            None => {
                return Err(ExecutorError::ConsensusParametersNotFound(version));
            },
        };
        let mut executor = BlockExecutor {
            relayer,
            consensus_params,
            forbid_fake_coins: options.forbid_fake_coins,
            dry_run,
            new_tx_waiter,
            preconfirmation_sender,
        };
        let mut comps = components;
        let produced = if dry_run {
            executor.dry_run_block(&mut comps, &mut state)
        } else {
            executor.produce_block(&mut comps, &mut state)
        };
        let (partial_block, data) = match produced {
            Ok(pair) => pair,
            Err(e) => {
                return Err(e);
            },
        };
        let ghost txs_before = partial_block.transactions@;
        let block = match generate_block(
            partial_block, &data.message_ids, data.event_inbox_root) {
            Ok(b) => b,
            Err(e) => {
                return Err(e);
            },
        };
        let ExecutionData {
            coinbase: _,
            used_gas: _,
            used_size: _,
            tx_count: _,
            found_mint: _,
            message_ids: _,
            tx_status,
            events,
            skipped_transactions,
            event_inbox_root: _,
            l1_leaves: _,
        } = data;
        Ok(UncommittedResult {
            result: ExecutionResult { block, skipped_transactions, tx_status, events },
            state,
        })
    }

    /// Re-executes a received block and demands a field-for-field match.
    pub fn validate_without_commit(self, block: &Block) -> (r: Result<
        UncommittedValidationResult,
        ExecutorError,
    >)
        requires
            self.database.wf(),
        ensures
            // Unknown consensus-parameter versions are refused outright, and
            // a block without the mint as its final transaction after that.
            !self.database.params@.contains_key(
                block.header.consensus_parameters_version as u128)
                ==> r == Err::<UncommittedValidationResult, ExecutorError>(
                    ExecutorError::ConsensusParametersNotFound(
                        block.header.consensus_parameters_version)),
            self.database.params@.contains_key(
                block.header.consensus_parameters_version as u128)
                && (block.transactions@.len() == 0
                    || !(block.transactions@.last() is Mint))
                ==> r == Err::<UncommittedValidationResult, ExecutorError>(
                    ExecutorError::MintMissing),
            match r {
                Ok(u) => u.state.wf(),
                Err(_) => true,
            },
    {
        let version = block.header.consensus_parameters_version;
        let ExecutionInstance { relayer, database, options } = self;
        let mut state = database;
        let consensus_params: ConsensusParameters = match state.params.get(version as u128) {
            Some(p) => *p,
            None => {
                return Err(ExecutorError::ConsensusParametersNotFound(version));
            },
        };
        let mut executor = BlockExecutor {
            relayer,
            consensus_params,
            forbid_fake_coins: options.forbid_fake_coins,
            dry_run: false,
            new_tx_waiter: crate::ports::TimeoutOnlyTxWaiter,
            preconfirmation_sender: crate::ports::TransparentPreconfirmationSender,
        };
        let data = match executor.validate_block(block, &mut state) {
            Ok(data) => data,
            Err(e) => {
                return Err(e);
            },
        };
        let ExecutionData {
            coinbase: _,
            used_gas: _,
            used_size: _,
            tx_count: _,
            found_mint: _,
            message_ids: _,
            tx_status,
            events,
            skipped_transactions: _,
            event_inbox_root: _,
            l1_leaves: _,
        } = data;
        Ok(UncommittedValidationResult {
            result: ValidationResult { tx_status, events },
            state,
        })
    }
}

} // verus!
