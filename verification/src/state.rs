//! The typed state the executor reads and writes: coins, messages, contract
//! records, processed-transaction markers, block headers and consensus
//! parameters, each an association table with an injectively packed key.

use vstd::prelude::*;
use crate::assoc::{asset_key, asset_key_spec, utxo_key, utxo_key_spec, AssocMap};
use crate::tx::{CompressedCoin, ConsensusParameters, Message, MessageV, TxPointer, UtxoId};

verus! {

/// Which transaction last touched a contract, and the roots of its balance
/// and state trees.
#[derive(PartialEq, Eq, Structural, Clone, Copy, Debug)]
pub struct ContractMeta {
    pub utxo_id: UtxoId,
    pub tx_pointer: TxPointer,
    pub balance_root: u64,
    pub state_root: u64,
}

/// What the chain knows about one block: the L1 height it reflected.
#[derive(PartialEq, Eq, Structural, Clone, Copy, Debug)]
pub struct BlockInfo {
    pub da_height: u64,
}

/// The executor's typed view of the chain state.
pub struct ExecState {
    pub coins: AssocMap<CompressedCoin>,
    pub messages: AssocMap<Message>,
    pub contracts: AssocMap<ContractMeta>,
    pub balances: AssocMap<u64>,
    pub processed: AssocMap<bool>,
    pub blocks: AssocMap<BlockInfo>,
    pub params: AssocMap<ConsensusParameters>,
}

/// The ghost image of the whole state.
pub ghost struct StateV {
    pub coins: Map<u128, CompressedCoin>,
    pub messages: Map<u128, MessageV>,
    pub contracts: Map<u128, ContractMeta>,
    pub balances: Map<u128, u64>,
    pub processed: Set<u128>,
    pub blocks: Map<u128, BlockInfo>,
    pub params: Map<u128, ConsensusParameters>,
}

impl ExecState {
    pub open spec fn wf(self) -> bool {
        &&& self.coins.wf()
        &&& self.messages.wf()
        &&& self.contracts.wf()
        &&& self.balances.wf()
        &&& self.processed.wf()
        &&& self.blocks.wf()
        &&& self.params.wf()
    }

    pub open spec fn view_state(self) -> StateV {
        StateV {
            coins: self.coins@,
            messages: Map::new(
                |k: u128| self.messages@.contains_key(k),
                |k: u128| self.messages@[k].view_msg(),
            ),
            contracts: self.contracts@,
            balances: self.balances@,
            processed: self.processed@.dom(),
            blocks: self.blocks@,
            params: self.params@,
        }
    }

    /// An empty chain state.
    pub fn new() -> (r: ExecState)
        ensures
            r.wf(),
            r.view_state().coins =~= Map::<u128, CompressedCoin>::empty(),
            r.view_state().messages =~= Map::<u128, MessageV>::empty(),
            r.view_state().contracts =~= Map::<u128, ContractMeta>::empty(),
            r.view_state().balances =~= Map::<u128, u64>::empty(),
            r.view_state().processed =~= Set::<u128>::empty(),
            r.view_state().blocks =~= Map::<u128, BlockInfo>::empty(),
            r.view_state().params =~= Map::<u128, ConsensusParameters>::empty(),
    {
        ExecState {
            coins: AssocMap::new(),
            messages: AssocMap::new(),
            contracts: AssocMap::new(),
            balances: AssocMap::new(),
            processed: AssocMap::new(),
            blocks: AssocMap::new(),
            params: AssocMap::new(),
        }
    }

    /// A deep copy, used to open and discard per-transaction snapshots.
    pub fn snapshot(&self) -> (r: ExecState)
        requires
            self.wf(),
        ensures
            r.wf(),
            r.view_state() == self.view_state(),
    {
        let coins = self.coins.duplicate();
        let contracts = self.contracts.duplicate();
        let balances = self.balances.duplicate();
        let processed = self.processed.duplicate();
        let blocks = self.blocks.duplicate();
        let params = self.params.duplicate();
        let n = self.messages.entries.len();
        let mut message_entries: Vec<(u128, Message)> = Vec::new();
        let mut i: usize = 0;
        while i < n
            invariant
                0 <= i <= n,
                n == self.messages.entries@.len(),
                self.messages.wf(),
                message_entries@.len() == i,
                forall|m: int| 0 <= m < i
                    ==> (#[trigger] message_entries@[m]).0 == self.messages.entries@[m].0
                        && message_entries@[m].1.view_msg()
                            == self.messages.entries@[m].1.view_msg(),
            decreases n - i,
        {
            let e = &self.messages.entries[i];
            message_entries.push((e.0, e.1.duplicate()));
            i = i + 1;
        }
        let messages = AssocMap { entries: message_entries };
        proof {
            assert(messages.wf()) by {
                assert forall|p: int, q: int| 0 <= p < q < messages.entries@.len() implies
                    (#[trigger] messages.entries@[p]).0
                        != (#[trigger] messages.entries@[q]).0 by {
                    assert(self.messages.entries@[p].0 != self.messages.entries@[q].0);
                }
            }
            let r = ExecState {
                coins, messages, contracts, balances, processed, blocks, params,
            };
            assert forall|k: u128| #[trigger] r.messages@.contains_key(k)
                || self.messages@.contains_key(k) implies
                (r.messages@.contains_key(k) <==> self.messages@.contains_key(k))
                    && (r.messages@.contains_key(k)
                        ==> r.messages@[k].view_msg() == self.messages@[k].view_msg()) by {
                if crate::assoc::assoc_has(r.messages.entries@, k) {
                    let m = crate::assoc::assoc_at(r.messages.entries@, k);
                    assert(self.messages.entries@[m].0 == k);
                    crate::assoc::lemma_assoc_entry(r.messages.entries@, m);
                    crate::assoc::lemma_assoc_entry(self.messages.entries@, m);
                }
                if crate::assoc::assoc_has(self.messages.entries@, k) {
                    let m = crate::assoc::assoc_at(self.messages.entries@, k);
                    assert(r.messages.entries@[m].0 == k);
                    crate::assoc::lemma_assoc_entry(r.messages.entries@, m);
                    crate::assoc::lemma_assoc_entry(self.messages.entries@, m);
                }
            }
            assert(r.view_state().messages =~= self.view_state().messages);
            assert(r.view_state() == self.view_state()) by {
                assert(r.view_state().coins =~= self.view_state().coins);
                assert(r.view_state().contracts =~= self.view_state().contracts);
                assert(r.view_state().balances =~= self.view_state().balances);
                assert(r.view_state().processed =~= self.view_state().processed);
                assert(r.view_state().blocks =~= self.view_state().blocks);
                assert(r.view_state().params =~= self.view_state().params);
            }
        }
        ExecState { coins, messages, contracts, balances, processed, blocks, params }
    }

    /// The spendable balance an owner holds in an asset: the sum of that
    /// owner's coins of the asset and, for the base asset, of the owner's
    /// message-coin amounts. Retryable messages carry data and are excluded.
    /// Saturates only when the true sum leaves the type.
    pub fn balance_of(&self, owner: u64, asset_id: u64, base_asset_id: u64) -> (r: u64)
        requires
            self.wf(),
        ensures
            ({
                let total = balance_spec(
                    self.coins.entries@,
                    self.messages.entries@,
                    owner,
                    asset_id,
                    base_asset_id,
                    self.coins.entries@.len() as int,
                    self.messages.entries@.len() as int,
                );
                if total <= u64::MAX {
                    r as nat == total
                } else {
                    r == u64::MAX
                }
            }),
    {
        let mut total: u64 = 0;
        let n = self.coins.entries.len();
        let mut i: usize = 0;
        while i < n
            invariant
                0 <= i <= n,
                n == self.coins.entries@.len(),
                self.wf(),
                ({
                    let sum = balance_spec(
                        self.coins.entries@, self.messages.entries@, owner, asset_id,
                        base_asset_id, i as int, 0);
                    if sum <= u64::MAX {
                        total as nat == sum
                    } else {
                        total == u64::MAX
                    }
                }),
            decreases n - i,
        {
            let e = &self.coins.entries[i];
            if e.1.owner == owner && e.1.asset_id == asset_id {
                if total <= u64::MAX - e.1.amount {
                    total = total + e.1.amount;
                } else {
                    total = u64::MAX;
                }
            }
            i = i + 1;
        }
        let m = self.messages.entries.len();
        let mut j: usize = 0;
        while j < m
            invariant
                0 <= j <= m,
                m == self.messages.entries@.len(),
                n == self.coins.entries@.len(),
                self.wf(),
                ({
                    let sum = balance_spec(
                        self.coins.entries@, self.messages.entries@, owner, asset_id,
                        base_asset_id, n as int, j as int);
                    if sum <= u64::MAX {
                        total as nat == sum
                    } else {
                        total == u64::MAX
                    }
                }),
            decreases m - j,
        {
            let e = &self.messages.entries[j];
            let counts = e.1.recipient == owner && asset_id == base_asset_id
                && e.1.data.len() == 0;
            if counts {
                if total <= u64::MAX - e.1.amount {
                    total = total + e.1.amount;
                } else {
                    total = u64::MAX;
                }
            }
            j = j + 1;
        }
        total
    }
}

/// The balance sum over the first `nc` coin entries and `nm` message entries.
pub open spec fn balance_spec(
    coins: Seq<(u128, CompressedCoin)>,
    messages: Seq<(u128, Message)>,
    owner: u64,
    asset_id: u64,
    base_asset_id: u64,
    nc: int,
    nm: int,
) -> nat
    decreases nc, nm,
{
    if nm > 0 && nm <= messages.len() {
        let e = messages[nm - 1].1;
        let part = balance_spec(coins, messages, owner, asset_id, base_asset_id, nc, nm - 1);
        if e.recipient == owner && asset_id == base_asset_id && e.data@.len() == 0 {
            part + e.amount as nat
        } else {
            part
        }
    } else if nc > 0 && nc <= coins.len() {
        let e = coins[nc - 1].1;
        let part = balance_spec(coins, messages, owner, asset_id, base_asset_id, nc - 1, 0);
        if e.owner == owner && e.asset_id == asset_id {
            part + e.amount as nat
        } else {
            part
        }
    } else {
        0
    }
}

} // verus!
