//! The ports the executor consumes: the relayer that yields L1 events, the
//! source of candidate L2 transactions, the waiter that paces the gathering
//! loop, and the sink for provisional per-transaction outcomes.

use vstd::prelude::*;
use crate::tx::{Event, Transaction, TxPointer, Output, Receipt, UtxoId};

verus! {

/// A transaction as a source may hand it over: either raw, or already
/// checked against a consensus-parameters version.
pub enum MaybeCheckedTransaction {
    Transaction(Transaction),
    CheckedTransaction(Transaction, u32),
}

impl MaybeCheckedTransaction {
    pub open spec fn tx_spec(self) -> Transaction {
        match self {
            MaybeCheckedTransaction::Transaction(t) => t,
            MaybeCheckedTransaction::CheckedTransaction(t, _) => t,
        }
    }

    pub open spec fn id_spec(self) -> u64 {
        self.tx_spec().id_spec()
    }

    pub fn id(&self) -> (r: u64)
        ensures
            r == self.id_spec(),
    {
        match self {
            MaybeCheckedTransaction::Transaction(t) => t.id(),
            MaybeCheckedTransaction::CheckedTransaction(t, _) => t.id(),
        }
    }
}

/// Ingests L1 events in data-availability order.
pub trait RelayerPort {
    /// Is a relayer wired up at all?
    fn enabled(&self) -> bool;

    /// The events recorded at one L1 height, in delivery order.
    fn get_events(&mut self, da_height: u64) -> Result<Vec<Event>, String>;
}

/// Yields candidate L2 transactions bounded by the remaining budgets.
pub trait TransactionsSource {
    fn next(
        &mut self,
        gas_limit: u64,
        tx_count_limit: u16,
        size_limit: u32,
    ) -> Vec<MaybeCheckedTransaction>;
}

/// The result of waiting for new transactions between gathering rounds.
pub enum WaitNewTransactionsResult {
    /// A new transaction arrived; the gathering loop runs again.
    NewTransaction,
    /// Nothing arrived in time; the block closes.
    Timeout,
}

/// The only cooperative pause point of the gathering loop.
pub trait NewTxWaiterPort {
    fn wait_for_new_transactions(&mut self) -> WaitNewTransactionsResult;
}

/// A provisional per-transaction outcome streamed before the block settles.
pub enum PreconfirmationStatus {
    Success {
        total_gas: u64,
        total_fee: u64,
        tx_pointer: TxPointer,
        receipts: Vec<Receipt>,
        outputs: Vec<(UtxoId, Output)>,
    },
    Failure {
        total_gas: u64,
        total_fee: u64,
        tx_pointer: TxPointer,
        receipts: Vec<Receipt>,
        outputs: Vec<(UtxoId, Output)>,
    },
    SqueezedOut { reason: String },
}

pub struct Preconfirmation {
    pub tx_id: u64,
    pub status: PreconfirmationStatus,
}

/// Fans provisional outcomes out to observers.
pub trait PreconfirmationSenderPort {
    /// Best-effort, non-blocking send: hands back what could not be sent.
    fn try_send(&mut self, preconfirmations: Vec<Preconfirmation>) -> Vec<Preconfirmation>;

    /// Flushes what remains.
    fn send(&mut self, preconfirmations: Vec<Preconfirmation>);
}

/// A source that hands out a fixed list of transactions once.
pub struct OnceTransactionsSource {
    pub transactions: Vec<MaybeCheckedTransaction>,
}

impl OnceTransactionsSource {
    /// Hands out the first transactions, up to the limit, keeping the rest.
    pub fn take_up_to(&mut self, tx_count_limit: u16) -> (r: Vec<MaybeCheckedTransaction>)
        ensures
            ({
                let k = if tx_count_limit as int <= old(self).transactions@.len() {
                    tx_count_limit as int
                } else {
                    old(self).transactions@.len() as int
                };
                r@ == old(self).transactions@.take(k)
                    && final(self).transactions@ == old(self).transactions@.skip(k)
            }),
    {
        let ghost orig = self.transactions@;
        let mut out: Vec<MaybeCheckedTransaction> = Vec::new();
        let mut taken: usize = 0;
        let limit = tx_count_limit as usize;
        while taken < limit && self.transactions.len() > 0
            invariant
                taken <= limit,
                taken <= orig.len(),
                out@ == orig.take(taken as int),
                self.transactions@ == orig.skip(taken as int),
            decreases limit - taken,
        {
            let t = self.transactions.remove(0);
            proof {
                assert(orig.skip(taken as int)[0] == orig[taken as int]);
                assert(out@.push(t) =~= orig.take(taken as int + 1));
                assert(self.transactions@ =~= orig.skip(taken as int + 1));
            }
            out.push(t);
            taken = taken + 1;
        }
        proof {
            let k = if limit as int <= orig.len() { limit as int } else { orig.len() as int };
            assert(taken as int == k);
        }
        out
    }

    pub fn new(transactions: Vec<Transaction>) -> (r: OnceTransactionsSource) {
        let mut wrapped: Vec<MaybeCheckedTransaction> = Vec::new();
        let mut rest = transactions;
        let ghost n = rest@.len();
        while rest.len() > 0
            invariant
                rest@.len() + wrapped@.len() == n,
            decreases rest@.len(),
        {
            let t = rest.remove(0);
            wrapped.push(MaybeCheckedTransaction::Transaction(t));
        }
        OnceTransactionsSource { transactions: wrapped }
    }

    pub fn new_maybe_checked(transactions: Vec<MaybeCheckedTransaction>) -> (r:
        OnceTransactionsSource)
        ensures
            r.transactions == transactions,
    {
        OnceTransactionsSource { transactions }
    }
}

impl TransactionsSource for OnceTransactionsSource {
    /// Hands out up to the requested number of remaining transactions.
    fn next(
        &mut self,
        _gas_limit: u64,
        tx_count_limit: u16,
        _size_limit: u32,
    ) -> Vec<MaybeCheckedTransaction> {
        self.take_up_to(tx_count_limit)
    }
}

/// A relayer that is switched off.
pub struct DisabledRelayer;

impl RelayerPort for DisabledRelayer {
    fn enabled(&self) -> bool {
        false
    }

    fn get_events(&mut self, _da_height: u64) -> Result<Vec<Event>, String> {
        Ok(Vec::new())
    }
}

/// A relayer backed by a fixed log: the events of L1 height `h` sit at index
/// `h - first_height` of the log.
pub struct FixedRelayer {
    pub first_height: u64,
    pub event_log: Vec<Vec<Event>>,
}

impl RelayerPort for FixedRelayer {
    fn enabled(&self) -> bool {
        true
    }

    fn get_events(&mut self, da_height: u64) -> Result<Vec<Event>, String> {
        if da_height < self.first_height {
            return Ok(Vec::new());
        }
        let offset = da_height - self.first_height;
        if offset >= self.event_log.len() as u64 {
            return Ok(Vec::new());
        }
        let idx = offset as usize;
        let events = self.event_log.remove(idx);
        self.event_log.insert(idx, Vec::new());
        Ok(events)
    }
}

/// A waiter that never waits: the block closes after the first round.
pub struct TimeoutOnlyTxWaiter;

impl NewTxWaiterPort for TimeoutOnlyTxWaiter {
    fn wait_for_new_transactions(&mut self) -> WaitNewTransactionsResult {
        WaitNewTransactionsResult::Timeout
    }
}

/// A sender that drops everything silently.
pub struct TransparentPreconfirmationSender;

impl PreconfirmationSenderPort for TransparentPreconfirmationSender {
    fn try_send(&mut self, _preconfirmations: Vec<Preconfirmation>) -> Vec<Preconfirmation> {
        Vec::new()
    }

    fn send(&mut self, _preconfirmations: Vec<Preconfirmation>) {
    }
}

} // verus!
