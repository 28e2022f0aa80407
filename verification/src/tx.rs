//! The executor's data model: coins, messages, transaction inputs and
//! outputs, the transaction variants, headers and blocks. Identifiers,
//! addresses, asset ids, hashes and state roots are held as plain 64-bit
//! values; byte payloads are byte vectors.

use vstd::prelude::*;

verus! {

/// The position of a transaction inside the chain: its block and its index
/// within that block.
#[derive(PartialEq, Eq, Structural, Clone, Copy, Debug)]
pub struct TxPointer {
    pub block_height: u32,
    pub tx_index: u16,
}

impl TxPointer {
    pub fn new(block_height: u32, tx_index: u16) -> (r: TxPointer)
        ensures
            r.block_height == block_height,
            r.tx_index == tx_index,
    {
        TxPointer { block_height, tx_index }
    }

    pub fn zeroed() -> (r: TxPointer)
        ensures
            r.block_height == 0,
            r.tx_index == 0,
    {
        TxPointer { block_height: 0, tx_index: 0 }
    }
}

/// An unspent output: the transaction that created it and the output slot.
#[derive(PartialEq, Eq, Structural, Clone, Copy, Debug)]
pub struct UtxoId {
    pub tx_id: u64,
    pub output_index: u16,
}

impl UtxoId {
    pub fn new(tx_id: u64, output_index: u16) -> (r: UtxoId)
        ensures
            r.tx_id == tx_id,
            r.output_index == output_index,
    {
        UtxoId { tx_id, output_index }
    }
}

/// A coin as the store records it.
#[derive(PartialEq, Eq, Structural, Clone, Copy, Debug)]
pub struct CompressedCoin {
    pub owner: u64,
    pub amount: u64,
    pub asset_id: u64,
    pub tx_pointer: TxPointer,
}

/// An L1 message addressed by its nonce. A message with payload data is
/// retryable: spending it is rolled back when the transaction reverts.
#[derive(Debug)]
pub struct Message {
    pub sender: u64,
    pub recipient: u64,
    pub nonce: u64,
    pub amount: u64,
    pub data: Vec<u8>,
    pub da_height: u64,
}

/// The ghost image of a message.
pub ghost struct MessageV {
    pub sender: u64,
    pub recipient: u64,
    pub nonce: u64,
    pub amount: u64,
    pub data: Seq<u8>,
    pub da_height: u64,
}

impl Message {
    pub open spec fn view_msg(self) -> MessageV {
        MessageV {
            sender: self.sender,
            recipient: self.recipient,
            nonce: self.nonce,
            amount: self.amount,
            data: self.data@,
            da_height: self.da_height,
        }
    }

    /// Messages carrying data are retryable.
    pub open spec fn is_retryable_spec(self) -> bool {
        self.data@.len() > 0
    }

    pub fn is_retryable(&self) -> (r: bool)
        ensures
            r == self.is_retryable_spec(),
    {
        self.data.len() > 0
    }

    /// A field-for-field copy.
    pub fn duplicate(&self) -> (r: Message)
        ensures
            r.view_msg() == self.view_msg(),
    {
        Message {
            sender: self.sender,
            recipient: self.recipient,
            nonce: self.nonce,
            amount: self.amount,
            data: crate::order::clone_bytes(&self.data),
            da_height: self.da_height,
        }
    }
}

/// The contract input: which UTXO last touched the contract and its roots.
#[derive(PartialEq, Eq, Structural, Clone, Copy, Debug)]
pub struct ContractInput {
    pub utxo_id: UtxoId,
    pub balance_root: u64,
    pub state_root: u64,
    pub tx_pointer: TxPointer,
    pub contract_id: u64,
}

/// The contract output: the input slot it answers and the recomputed roots.
#[derive(PartialEq, Eq, Structural, Clone, Copy, Debug)]
pub struct ContractOutput {
    pub input_index: u16,
    pub balance_root: u64,
    pub state_root: u64,
}

/// A transaction input.
#[derive(Debug)]
pub enum Input {
    CoinSigned {
        utxo_id: UtxoId,
        owner: u64,
        amount: u64,
        asset_id: u64,
        tx_pointer: TxPointer,
        witness_index: u16,
    },
    CoinPredicate {
        utxo_id: UtxoId,
        owner: u64,
        amount: u64,
        asset_id: u64,
        tx_pointer: TxPointer,
        predicate_gas_used: u64,
    },
    Contract(ContractInput),
    MessageCoinSigned { sender: u64, recipient: u64, amount: u64, nonce: u64, witness_index: u16 },
    MessageCoinPredicate {
        sender: u64,
        recipient: u64,
        amount: u64,
        nonce: u64,
        predicate_gas_used: u64,
    },
    MessageDataSigned {
        sender: u64,
        recipient: u64,
        amount: u64,
        nonce: u64,
        data: Vec<u8>,
        witness_index: u16,
    },
    MessageDataPredicate {
        sender: u64,
        recipient: u64,
        amount: u64,
        nonce: u64,
        data: Vec<u8>,
        predicate_gas_used: u64,
    },
}

/// The ghost image of an input.
pub ghost enum InputV {
    CoinSigned {
        utxo_id: UtxoId,
        owner: u64,
        amount: u64,
        asset_id: u64,
        tx_pointer: TxPointer,
        witness_index: u16,
    },
    CoinPredicate {
        utxo_id: UtxoId,
        owner: u64,
        amount: u64,
        asset_id: u64,
        tx_pointer: TxPointer,
        predicate_gas_used: u64,
    },
    Contract(ContractInput),
    MessageCoinSigned { sender: u64, recipient: u64, amount: u64, nonce: u64, witness_index: u16 },
    MessageCoinPredicate {
        sender: u64,
        recipient: u64,
        amount: u64,
        nonce: u64,
        predicate_gas_used: u64,
    },
    MessageDataSigned {
        sender: u64,
        recipient: u64,
        amount: u64,
        nonce: u64,
        data: Seq<u8>,
        witness_index: u16,
    },
    MessageDataPredicate {
        sender: u64,
        recipient: u64,
        amount: u64,
        nonce: u64,
        data: Seq<u8>,
        predicate_gas_used: u64,
    },
}

impl Input {
    pub open spec fn view_input(self) -> InputV {
        match self {
            Input::CoinSigned { utxo_id, owner, amount, asset_id, tx_pointer, witness_index } =>
                InputV::CoinSigned { utxo_id, owner, amount, asset_id, tx_pointer, witness_index },
            Input::CoinPredicate {
                utxo_id,
                owner,
                amount,
                asset_id,
                tx_pointer,
                predicate_gas_used,
            } => InputV::CoinPredicate {
                utxo_id,
                owner,
                amount,
                asset_id,
                tx_pointer,
                predicate_gas_used,
            },
            Input::Contract(ci) => InputV::Contract(ci),
            Input::MessageCoinSigned { sender, recipient, amount, nonce, witness_index } =>
                InputV::MessageCoinSigned { sender, recipient, amount, nonce, witness_index },
            Input::MessageCoinPredicate {
                sender,
                recipient,
                amount,
                nonce,
                predicate_gas_used,
            } => InputV::MessageCoinPredicate {
                sender,
                recipient,
                amount,
                nonce,
                predicate_gas_used,
            },
            Input::MessageDataSigned { sender, recipient, amount, nonce, data, witness_index } =>
                InputV::MessageDataSigned {
                    sender,
                    recipient,
                    amount,
                    nonce,
                    data: data@,
                    witness_index,
                },
            Input::MessageDataPredicate {
                sender,
                recipient,
                amount,
                nonce,
                data,
                predicate_gas_used,
            } => InputV::MessageDataPredicate {
                sender,
                recipient,
                amount,
                nonce,
                data: data@,
                predicate_gas_used,
            },
        }
    }


    /// A field-for-field copy.
    pub fn duplicate(&self) -> (r: Input)
        ensures
            r.view_input() == self.view_input(),
    {
        match self {
            Input::CoinSigned { utxo_id, owner, amount, asset_id, tx_pointer, witness_index } =>
                Input::CoinSigned {
                    utxo_id: *utxo_id,
                    owner: *owner,
                    amount: *amount,
                    asset_id: *asset_id,
                    tx_pointer: *tx_pointer,
                    witness_index: *witness_index,
                },
            Input::CoinPredicate {
                utxo_id,
                owner,
                amount,
                asset_id,
                tx_pointer,
                predicate_gas_used,
            } => Input::CoinPredicate {
                utxo_id: *utxo_id,
                owner: *owner,
                amount: *amount,
                asset_id: *asset_id,
                tx_pointer: *tx_pointer,
                predicate_gas_used: *predicate_gas_used,
            },
            Input::Contract(ci) => Input::Contract(*ci),
            Input::MessageCoinSigned { sender, recipient, amount, nonce, witness_index } =>
                Input::MessageCoinSigned {
                    sender: *sender,
                    recipient: *recipient,
                    amount: *amount,
                    nonce: *nonce,
                    witness_index: *witness_index,
                },
            Input::MessageCoinPredicate { sender, recipient, amount, nonce, predicate_gas_used } =>
                Input::MessageCoinPredicate {
                    sender: *sender,
                    recipient: *recipient,
                    amount: *amount,
                    nonce: *nonce,
                    predicate_gas_used: *predicate_gas_used,
                },
            Input::MessageDataSigned { sender, recipient, amount, nonce, data, witness_index } =>
                Input::MessageDataSigned {
                    sender: *sender,
                    recipient: *recipient,
                    amount: *amount,
                    nonce: *nonce,
                    data: crate::order::clone_bytes(data),
                    witness_index: *witness_index,
                },
            Input::MessageDataPredicate {
                sender,
                recipient,
                amount,
                nonce,
                data,
                predicate_gas_used,
            } => Input::MessageDataPredicate {
                sender: *sender,
                recipient: *recipient,
                amount: *amount,
                nonce: *nonce,
                data: crate::order::clone_bytes(data),
                predicate_gas_used: *predicate_gas_used,
            },
        }
    }
}

/// A transaction output.
#[derive(PartialEq, Eq, Structural, Clone, Copy, Debug)]
pub enum Output {
    Coin { to: u64, amount: u64, asset_id: u64 },
    Contract(ContractOutput),
    Change { to: u64, amount: u64, asset_id: u64 },
    Variable { to: u64, amount: u64, asset_id: u64 },
    ContractCreated { contract_id: u64, state_root: u64 },
}

impl Output {
    /// Outputs that materialise a coin when their amount is positive.
    pub open spec fn coin_fields(self) -> Option<(u64, u64, u64)> {
        match self {
            Output::Coin { to, amount, asset_id } => Some((to, amount, asset_id)),
            Output::Change { to, amount, asset_id } => Some((to, amount, asset_id)),
            Output::Variable { to, amount, asset_id } => Some((to, amount, asset_id)),
            _ => None,
        }
    }
}

/// A receipt the virtual machine produced while running a transaction.
#[derive(PartialEq, Eq, Structural, Clone, Copy, Debug)]
pub enum Receipt {
    ScriptResult { gas_used: u64 },
    MessageOut { message_id: u64 },
    Panic { contract_id: u64 },
}


/// Which chargeable variant a transaction is.
#[derive(PartialEq, Eq, Structural, Clone, Copy, Debug)]
pub enum TxKind {
    Script,
    Create,
    Upgrade,
    Upload,
    Blob,
}

/// The body shared by every chargeable transaction variant. The gas figures
/// and the machine's verdict are carried with the transaction: the virtual
/// machine is an opaque deterministic executor whose outcome on a ready
/// transaction is fixed by the transaction itself.
#[derive(Debug)]
pub struct ChargeableTx {
    pub tx_id: u64,
    pub inputs: Vec<Input>,
    pub outputs: Vec<Output>,
    pub max_fee_limit: u64,
    pub expiration: u32,
    pub size: u32,
    pub min_gas: u64,
    pub max_gas: u64,
    pub reverts: bool,
    pub receipts: Vec<Receipt>,
}

/// The ghost image of a chargeable transaction.
pub ghost struct ChargeableTxV {
    pub tx_id: u64,
    pub inputs: Seq<InputV>,
    pub outputs: Seq<Output>,
    pub max_fee_limit: u64,
    pub expiration: u32,
    pub size: u32,
    pub min_gas: u64,
    pub max_gas: u64,
    pub reverts: bool,
    pub receipts: Seq<Receipt>,
}

impl ChargeableTx {
    pub open spec fn view_tx(self) -> ChargeableTxV {
        ChargeableTxV {
            tx_id: self.tx_id,
            inputs: Seq::new(self.inputs@.len(), |i: int| self.inputs@[i].view_input()),
            outputs: self.outputs@,
            max_fee_limit: self.max_fee_limit,
            expiration: self.expiration,
            size: self.size,
            min_gas: self.min_gas,
            max_gas: self.max_gas,
            reverts: self.reverts,
            receipts: self.receipts@,
        }
    }
}

/// The synthetic last transaction of a block: it settles the block's fees to
/// the coinbase contract.
#[derive(PartialEq, Eq, Structural, Clone, Copy, Debug)]
pub struct MintTx {
    pub tx_id: u64,
    pub tx_pointer: TxPointer,
    pub input_contract: ContractInput,
    pub output_contract: ContractOutput,
    pub mint_amount: u64,
    pub mint_asset_id: u64,
    pub gas_price: u64,
}

/// A transaction of any variant.
#[derive(Debug)]
pub enum Transaction {
    Script(ChargeableTx),
    Create(ChargeableTx),
    Upgrade(ChargeableTx),
    Upload(ChargeableTx),
    Blob(ChargeableTx),
    Mint(MintTx),
}

/// The ghost image of a transaction.
pub ghost enum TransactionV {
    Script(ChargeableTxV),
    Create(ChargeableTxV),
    Upgrade(ChargeableTxV),
    Upload(ChargeableTxV),
    Blob(ChargeableTxV),
    Mint(MintTx),
}

impl Transaction {
    pub open spec fn view_tx(self) -> TransactionV {
        match self {
            Transaction::Script(t) => TransactionV::Script(t.view_tx()),
            Transaction::Create(t) => TransactionV::Create(t.view_tx()),
            Transaction::Upgrade(t) => TransactionV::Upgrade(t.view_tx()),
            Transaction::Upload(t) => TransactionV::Upload(t.view_tx()),
            Transaction::Blob(t) => TransactionV::Blob(t.view_tx()),
            Transaction::Mint(m) => TransactionV::Mint(m),
        }
    }

    pub open spec fn id_spec(self) -> u64 {
        match self {
            Transaction::Script(t) => t.tx_id,
            Transaction::Create(t) => t.tx_id,
            Transaction::Upgrade(t) => t.tx_id,
            Transaction::Upload(t) => t.tx_id,
            Transaction::Blob(t) => t.tx_id,
            Transaction::Mint(m) => m.tx_id,
        }
    }

    /// The identifier that commits to the whole transaction.
    pub fn id(&self) -> (r: u64)
        ensures
            r == self.id_spec(),
    {
        match self {
            Transaction::Script(t) => t.tx_id,
            Transaction::Create(t) => t.tx_id,
            Transaction::Upgrade(t) => t.tx_id,
            Transaction::Upload(t) => t.tx_id,
            Transaction::Blob(t) => t.tx_id,
            Transaction::Mint(m) => m.tx_id,
        }
    }


    pub open spec fn max_gas_spec(self) -> u64 {
        match self {
            Transaction::Script(t) => t.max_gas,
            Transaction::Create(t) => t.max_gas,
            Transaction::Upgrade(t) => t.max_gas,
            Transaction::Upload(t) => t.max_gas,
            Transaction::Blob(t) => t.max_gas,
            Transaction::Mint(_) => 0,
        }
    }

    pub fn max_gas(&self) -> (r: u64)
        ensures
            r == self.max_gas_spec(),
    {
        match self {
            Transaction::Script(t) => t.max_gas,
            Transaction::Create(t) => t.max_gas,
            Transaction::Upgrade(t) => t.max_gas,
            Transaction::Upload(t) => t.max_gas,
            Transaction::Blob(t) => t.max_gas,
            Transaction::Mint(_) => 0,
        }
    }

    pub open spec fn expiration_spec(self) -> u32 {
        match self {
            Transaction::Script(t) => t.expiration,
            Transaction::Create(t) => t.expiration,
            Transaction::Upgrade(t) => t.expiration,
            Transaction::Upload(t) => t.expiration,
            Transaction::Blob(t) => t.expiration,
            Transaction::Mint(_) => u32::MAX,
        }
    }
}

/// The header a block is produced against.
#[derive(PartialEq, Eq, Structural, Clone, Copy, Debug)]
pub struct PartialBlockHeader {
    pub height: u32,
    pub da_height: u64,
    pub prev_root: u64,
    pub time: u64,
    pub consensus_parameters_version: u32,
    pub state_transition_bytecode_version: u32,
}

/// The finished header of a block.
#[derive(PartialEq, Eq, Structural, Clone, Copy, Debug)]
pub struct BlockHeader {
    pub height: u32,
    pub da_height: u64,
    pub prev_root: u64,
    pub time: u64,
    pub consensus_parameters_version: u32,
    pub state_transition_bytecode_version: u32,
    pub transactions_count: u16,
    pub message_receipt_count: u32,
    pub transactions_root: u64,
    pub message_outbox_root: u64,
    pub event_inbox_root: u64,
}

impl BlockHeader {
    pub open spec fn partial_spec(self) -> PartialBlockHeader {
        PartialBlockHeader {
            height: self.height,
            da_height: self.da_height,
            prev_root: self.prev_root,
            time: self.time,
            consensus_parameters_version: self.consensus_parameters_version,
            state_transition_bytecode_version: self.state_transition_bytecode_version,
        }
    }

    /// The producing-side image of this header.
    pub fn partial(&self) -> (r: PartialBlockHeader)
        ensures
            r == self.partial_spec(),
    {
        PartialBlockHeader {
            height: self.height,
            da_height: self.da_height,
            prev_root: self.prev_root,
            time: self.time,
            consensus_parameters_version: self.consensus_parameters_version,
            state_transition_bytecode_version: self.state_transition_bytecode_version,
        }
    }
}

/// A block under construction: the header it will settle and the transactions
/// gathered so far.
pub struct PartialFuelBlock {
    pub header: PartialBlockHeader,
    pub transactions: Vec<Transaction>,
}

/// A finished block.
pub struct Block {
    pub header: BlockHeader,
    pub transactions: Vec<Transaction>,
}


/// The parameters consensus fixes for a range of blocks.
#[derive(PartialEq, Eq, Structural, Clone, Copy, Debug)]
pub struct ConsensusParameters {
    pub base_asset_id: u64,
    pub block_gas_limit: u64,
    pub block_transaction_size_limit: u32,
}

/// A forced transaction as the relayer delivers it: the L1 record's claims
/// beside the parse outcome of its serialized payload. `parsed` is `None`
/// when the payload fails to decode.
pub struct RelayedTransaction {
    pub id: u64,
    pub max_gas: u64,
    pub parsed: Option<Transaction>,
}

/// An L1 event in delivery order.
pub enum Event {
    Message(Message),
    Transaction(RelayedTransaction),
}

impl ChargeableTx {
    /// A field-for-field copy.
    pub fn duplicate(&self) -> (r: ChargeableTx)
        ensures
            r.view_tx() == self.view_tx(),
    {
        let mut inputs: Vec<Input> = Vec::new();
        let ni = self.inputs.len();
        let mut i: usize = 0;
        while i < ni
            invariant
                0 <= i <= ni,
                ni == self.inputs@.len(),
                inputs@.len() == i,
                forall|m: int| 0 <= m < i
                    ==> (#[trigger] inputs@[m]).view_input()
                        == self.inputs@[m].view_input(),
            decreases ni - i,
        {
            inputs.push(self.inputs[i].duplicate());
            i = i + 1;
        }
        let mut outputs: Vec<Output> = Vec::new();
        let no = self.outputs.len();
        let mut j: usize = 0;
        while j < no
            invariant
                0 <= j <= no,
                no == self.outputs@.len(),
                outputs@ == self.outputs@.take(j as int),
            decreases no - j,
        {
            outputs.push(self.outputs[j]);
            proof {
                assert(outputs@ =~= self.outputs@.take(j + 1));
            }
            j = j + 1;
        }
        let mut receipts: Vec<Receipt> = Vec::new();
        let nr = self.receipts.len();
        let mut k: usize = 0;
        while k < nr
            invariant
                0 <= k <= nr,
                nr == self.receipts@.len(),
                receipts@ == self.receipts@.take(k as int),
            decreases nr - k,
        {
            receipts.push(self.receipts[k]);
            proof {
                assert(receipts@ =~= self.receipts@.take(k + 1));
            }
            k = k + 1;
        }
        proof {
            assert(self.outputs@.take(no as int) =~= self.outputs@);
            assert(self.receipts@.take(nr as int) =~= self.receipts@);
        }
        let r = ChargeableTx {
            tx_id: self.tx_id,
            inputs,
            outputs,
            max_fee_limit: self.max_fee_limit,
            expiration: self.expiration,
            size: self.size,
            min_gas: self.min_gas,
            max_gas: self.max_gas,
            reverts: self.reverts,
            receipts,
        };
        proof {
            assert(r.view_tx().inputs =~= self.view_tx().inputs);
        }
        r
    }
}

impl Transaction {
    /// A field-for-field copy.
    pub fn duplicate_tx(&self) -> (r: Transaction)
        ensures
            r.view_tx() == self.view_tx(),
    {
        match self {
            Transaction::Script(b) => Transaction::Script(b.duplicate()),
            Transaction::Create(b) => Transaction::Create(b.duplicate()),
            Transaction::Upgrade(b) => Transaction::Upgrade(b.duplicate()),
            Transaction::Upload(b) => Transaction::Upload(b.duplicate()),
            Transaction::Blob(b) => Transaction::Blob(b.duplicate()),
            Transaction::Mint(m) => Transaction::Mint(*m),
        }
    }
}

} // verus!
