//! The chain data model: accounts, receipts, compute tasks, transactions
//! and blocks, each with its mathematical view.

use vstd::prelude::*;

use crate::primitives as p;
use crate::primitives::{copy_bytes, Address, Duplicate};

verus! {

/// Version of the receipt format this node accepts.
pub const RECEIPT_VERSION: u8 = 1;

/// Version of the compute task envelope this node accepts.
pub const COMPUTE_TASK_VERSION: u8 = 1;

/// Largest accepted `execution_spec` of a compute task, in bytes.
pub const MAX_EXECUTION_SPEC_BYTES: usize = 1024;

/// On-chain account state.
#[derive(Clone, Copy, Debug, PartialEq, Eq)]
pub struct Account {
    pub address: Address,
    pub balance: u128,
    pub nonce: u64,
}

/// Why an account operation was refused.
#[derive(Clone, Copy, Debug, PartialEq, Eq)]
pub enum AccountError {
    /// The transaction nonce is not the account's next nonce.
    InvalidNonce,
    /// The sender cannot cover the amount.
    InsufficientBalance,
    /// The receiver's balance would exceed `u128::MAX`.
    BalanceOverflow,
}

impl View for Account {
    type V = Account;

    open spec fn view(&self) -> Account {
        *self
    }
}

impl Duplicate for Account {
    fn duplicate(&self) -> (r: Self) {
        *self
    }
}

impl Account {
    /// A fresh account: zero balance, nonce zero.
    pub open spec fn spec_new(address: Address) -> Account {
        Account { address, balance: 0, nonce: 0 }
    }

    /// Creates a fresh account for `address`.
    pub fn new(address: Address) -> (r: Account)
        ensures
            r == Account::spec_new(address),
    {
        Account { address, balance: 0, nonce: 0 }
    }

    /// The account after a transaction with `nonce` is accepted, or `None`
    /// when the nonce is not the expected one (or the nonce space is spent).
    pub open spec fn spec_after_nonce(self, nonce: u64) -> Option<Account> {
        if nonce == self.nonce && self.nonce < u64::MAX {
            Some(Account { nonce: (self.nonce + 1) as u64, ..self })
        } else {
            None
        }
    }

    /// Checks that `nonce` is this account's next nonce and consumes it.
    pub fn validate_and_increment_nonce(&mut self, nonce: u64) -> (r: Result<(), AccountError>)
        ensures
            match old(self).spec_after_nonce(nonce) {
                Some(a) => r is Ok && *final(self) == a,
                None => r is Err && *final(self) == *old(self),
            },
    {
        if nonce != self.nonce || self.nonce == u64::MAX {
            return Err(AccountError::InvalidNonce);
        }
        self.nonce = self.nonce + 1;
        Ok(())
    }

    /// The pair of balances after moving `amount` from `from` to `to`, or
    /// `None` when `from` cannot cover it or `to` would overflow.
    pub open spec fn spec_transfer(from: Account, to: Account, amount: u128) -> Option<(Account, Account)> {
        if from.balance >= amount && to.balance + amount <= u128::MAX {
            Some((
                Account { balance: (from.balance - amount) as u128, ..from },
                Account { balance: (to.balance + amount) as u128, ..to },
            ))
        } else {
            None
        }
    }

    /// Moves `amount` from `from` to `to`; on failure neither changes.
    pub fn transfer(from: &mut Account, to: &mut Account, amount: u128) -> (r: Result<(), AccountError>)
        ensures
            match Account::spec_transfer(*old(from), *old(to), amount) {
                Some((f, t)) => r is Ok && *final(from) == f && *final(to) == t,
                None => r is Err && *final(from) == *old(from) && *final(to) == *old(to),
            },
    {
        if from.balance < amount {
            return Err(AccountError::InsufficientBalance);
        }
        if to.balance > u128::MAX - amount {
            return Err(AccountError::BalanceOverflow);
        }
        from.balance = from.balance - amount;
        to.balance = to.balance + amount;
        Ok(())
    }
}

/// The kind of a transaction.
#[derive(Clone, Copy, Debug, PartialEq, Eq)]
pub enum TransactionType {
    Transfer,
    Stake,
    ComputeTask,
    AnchorReceipt,
}

/// A signed claim by an executor that it ran a task.
#[derive(Clone, Debug, PartialEq, Eq)]
pub struct Receipt {
    pub version: u8,
    pub task_id: [u8; 32],
    pub input_commitment: [u8; 32],
    pub output_commitment: [u8; 32],
    pub executor: Address,
    pub metadata: Vec<u8>,
    pub signature: [u8; 64],
}

/// The mathematical value of a [`Receipt`].
pub struct SpecReceipt {
    pub version: u8,
    pub task_id: [u8; 32],
    pub input_commitment: [u8; 32],
    pub output_commitment: [u8; 32],
    pub executor: Address,
    pub metadata: Seq<u8>,
    pub signature: [u8; 64],
}

impl View for Receipt {
    type V = SpecReceipt;

    open spec fn view(&self) -> SpecReceipt {
        SpecReceipt {
            version: self.version,
            task_id: self.task_id,
            input_commitment: self.input_commitment,
            output_commitment: self.output_commitment,
            executor: self.executor,
            metadata: self.metadata@,
            signature: self.signature,
        }
    }
}

impl Duplicate for Receipt {
    fn duplicate(&self) -> (r: Self) {
        Receipt {
            version: self.version,
            task_id: self.task_id,
            input_commitment: self.input_commitment,
            output_commitment: self.output_commitment,
            executor: self.executor,
            metadata: copy_bytes(&self.metadata),
            signature: self.signature,
        }
    }
}

/// A compute task committed on chain: who submits it, who may answer it,
/// and a commitment to its input.
#[derive(Clone, Debug, PartialEq, Eq)]
pub struct ComputeTask {
    pub version: u8,
    pub submitter: Address,
    pub executor: Address,
    pub salt: [u8; 32],
    pub input_commitment: [u8; 32],
    pub execution_spec: Vec<u8>,
}

/// The mathematical value of a [`ComputeTask`].
pub struct SpecComputeTask {
    pub version: u8,
    pub submitter: Address,
    pub executor: Address,
    pub salt: [u8; 32],
    pub input_commitment: [u8; 32],
    pub execution_spec: Seq<u8>,
}

impl View for ComputeTask {
    type V = SpecComputeTask;

    open spec fn view(&self) -> SpecComputeTask {
        SpecComputeTask {
            version: self.version,
            submitter: self.submitter,
            executor: self.executor,
            salt: self.salt,
            input_commitment: self.input_commitment,
            execution_spec: self.execution_spec@,
        }
    }
}

impl Duplicate for ComputeTask {
    fn duplicate(&self) -> (r: Self) {
        ComputeTask {
            version: self.version,
            submitter: self.submitter,
            executor: self.executor,
            salt: self.salt,
            input_commitment: self.input_commitment,
            execution_spec: copy_bytes(&self.execution_spec),
        }
    }
}

/// The payload a transaction carries.
#[derive(Clone, Debug, PartialEq, Eq)]
pub enum TransactionPayload {
    /// No payload: a transfer or a stake.
    Empty,
    AnchorReceipt(Box<Receipt>),
    ComputeTask(Box<ComputeTask>),
}

/// The mathematical value of a [`TransactionPayload`].
pub enum SpecPayload {
    Empty,
    AnchorReceipt(SpecReceipt),
    ComputeTask(SpecComputeTask),
}

impl View for TransactionPayload {
    type V = SpecPayload;

    open spec fn view(&self) -> SpecPayload {
        match self {
            TransactionPayload::Empty => SpecPayload::Empty,
            TransactionPayload::AnchorReceipt(r) => SpecPayload::AnchorReceipt(r@),
            TransactionPayload::ComputeTask(t) => SpecPayload::ComputeTask(t@),
        }
    }
}

impl Duplicate for TransactionPayload {
    fn duplicate(&self) -> (r: Self) {
        match self {
            TransactionPayload::Empty => TransactionPayload::Empty,
            TransactionPayload::AnchorReceipt(r) => TransactionPayload::AnchorReceipt(Box::new(r.duplicate())),
            TransactionPayload::ComputeTask(t) => TransactionPayload::ComputeTask(Box::new(t.duplicate())),
        }
    }
}

/// A signed transaction.
#[derive(Clone, Debug, PartialEq, Eq)]
pub struct Transaction {
    pub tx_type: TransactionType,
    pub sender: Address,
    pub receiver: Address,
    pub amount: u128,
    pub nonce: u64,
    pub payload: TransactionPayload,
    pub signature: [u8; 64],
}

/// The mathematical value of a [`Transaction`].
pub struct SpecTransaction {
    pub tx_type: TransactionType,
    pub sender: Address,
    pub receiver: Address,
    pub amount: u128,
    pub nonce: u64,
    pub payload: SpecPayload,
    pub signature: [u8; 64],
}

impl View for Transaction {
    type V = SpecTransaction;

    open spec fn view(&self) -> SpecTransaction {
        SpecTransaction {
            tx_type: self.tx_type,
            sender: self.sender,
            receiver: self.receiver,
            amount: self.amount,
            nonce: self.nonce,
            payload: self.payload@,
            signature: self.signature,
        }
    }
}

impl Duplicate for Transaction {
    fn duplicate(&self) -> (r: Self) {
        Transaction {
            tx_type: self.tx_type,
            sender: self.sender,
            receiver: self.receiver,
            amount: self.amount,
            nonce: self.nonce,
            payload: self.payload.duplicate(),
            signature: self.signature,
        }
    }
}

/// The views of a sequence of transactions.
pub open spec fn txs_view(s: Seq<Transaction>) -> Seq<SpecTransaction> {
    Seq::new(s.len(), |i: int| s[i]@)
}

/// Copies a list of transactions.
pub fn copy_transactions(v: &Vec<Transaction>) -> (r: Vec<Transaction>)
    ensures
        txs_view(r@) == txs_view(v@),
{
    let mut out: Vec<Transaction> = Vec::new();
    let mut i: usize = 0;
    while i < v.len()
        invariant
            0 <= i <= v.len(),
            txs_view(out@) == txs_view(v@).subrange(0, i as int),
        decreases v.len() - i,
    {
        let ghost prev = out@;
        let t = v[i].duplicate();
        out.push(t);
        proof {
            assert(txs_view(prev).len() == prev.len());
            assert(prev.len() == i);
            assert(out@ == prev.push(t));
            assert(txs_view(out@).len() == i + 1);
            assert forall|k: int| 0 <= k < i + 1 implies txs_view(out@)[k] == txs_view(v@)[k] by {
                if k < i {
                    assert(txs_view(prev)[k] == txs_view(v@).subrange(0, i as int)[k]);
                }
            }
        }
        i += 1;
        proof {
            assert(txs_view(out@) =~= txs_view(v@).subrange(0, i as int));
        }
    }
    proof {
        assert(txs_view(out@) =~= txs_view(v@));
    }
    out
}

/// A block header.
#[derive(Clone, Copy, Debug, PartialEq, Eq)]
pub struct BlockHeader {
    pub parent_hash: p::Hash,
    pub state_root: p::Hash,
    pub transactions_root: p::Hash,
    pub timestamp: u64,
    pub height: u64,
}

/// A block body: the ordered transactions.
#[derive(Clone, Debug, PartialEq, Eq)]
pub struct BlockBody {
    pub transactions: Vec<Transaction>,
}

/// A block.
#[derive(Clone, Debug, PartialEq, Eq)]
pub struct Block {
    pub header: BlockHeader,
    pub body: BlockBody,
}

/// The mathematical value of a [`Block`].
pub struct SpecBlock {
    pub header: BlockHeader,
    pub transactions: Seq<SpecTransaction>,
}

impl View for Block {
    type V = SpecBlock;

    open spec fn view(&self) -> SpecBlock {
        SpecBlock { header: self.header, transactions: txs_view(self.body.transactions@) }
    }
}

impl Duplicate for Block {
    fn duplicate(&self) -> (r: Self) {
        Block {
            header: self.header,
            body: BlockBody { transactions: copy_transactions(&self.body.transactions) },
        }
    }
}

} // verus!
