//! The consensus rules that decide whether a block may extend the chain,
//! and what applying it writes. Admission of transactions into the pool
//! reuses the same rule checks.

use vstd::prelude::*;

use crate::codec::{enc_receipt, enc_task, task_encodable};
use crate::crypto::{
    spec_block_hash, spec_receipt_signature_valid, spec_task_id, spec_transactions_root,
    spec_tx_hash, spec_tx_signature_valid,
};
use crate::model::{
    Account, ComputeTask, Receipt, SpecBlock, SpecComputeTask, SpecPayload, SpecReceipt,
    SpecTransaction, Transaction, TransactionPayload, TransactionType, COMPUTE_TASK_VERSION,
    MAX_EXECUTION_SPEC_BYTES, RECEIPT_VERSION,
};
use crate::primitives as p;
use crate::primitives::{Address, KeyEq};
use crate::storage::{SpecBatchOp, StorageError, StoreView};

verus! {

/// Largest accepted receipt metadata, in bytes.
pub const MAX_RECEIPT_METADATA_BYTES: usize = 4096;

/// A storage-side failure while applying a block.
#[derive(Debug, PartialEq, Eq)]
pub enum StorageFault {
    /// The storage engine failed.
    Engine(StorageError),
    /// The block at the current height is not stored.
    ParentBlockMissing,
    /// The bytes stored for a registered task do not decode.
    CorruptTask([u8; 32]),
}

/// Why a block was rejected. Transaction-level rules carry the index of
/// the first offending transaction.
#[derive(Debug, PartialEq, Eq)]
#[allow(inconsistent_fields)]
pub enum ApplyBlockError {
    /// The parent hash is not the hash of the stored tip.
    BadParent { expected: p::Hash, got: p::Hash },
    /// The height is not one above the stored tip.
    BadHeight { expected: u64, got: u64 },
    /// The header's transactions root is not the body's.
    TransactionsRootMismatch,
    /// The payload does not match the transaction type.
    TypePayloadMismatch(usize),
    /// An anchoring moves money or names a receiver.
    AnchorFieldConstraint(usize),
    /// The transaction signature does not verify.
    InvalidSignature(usize),
    /// The sender of an anchoring or a task commitment has no account.
    SenderAccountMissing(usize),
    /// The nonce is not the sender's next one.
    InvalidNonce(usize),
    /// The sender cannot cover the amount (or, for a transfer, has no account).
    InsufficientBalance(usize),
    /// The receipt metadata exceeds [`MAX_RECEIPT_METADATA_BYTES`].
    ReceiptMetadataTooLarge(usize),
    /// The receipt version is not supported.
    ReceiptVersionUnsupported(usize),
    /// The sender is not the receipt's executor.
    SenderExecutorMismatch(usize),
    /// The receipt signature does not verify.
    InvalidReceiptSignature(usize),
    /// A receipt is already anchored under the same task id.
    TaskIdAlreadyAnchored(usize),
    /// An earlier transaction of the block anchors the same task id.
    TaskIdRepeatedInBlock(usize),
    /// A task commitment moves money or names a receiver.
    TaskFieldConstraint(usize),
    /// The task envelope version is not supported.
    TaskVersionUnsupported(usize),
    /// The task's execution specification is too long.
    ExecutionSpecTooLarge(usize),
    /// The sender is not the task's submitter.
    SenderSubmitterMismatch(usize),
    /// A task with this id is already registered.
    TaskAlreadyRegistered(usize),
    /// An earlier transaction of the block commits the same task.
    TaskRepeatedInBlock(usize),
    /// No task is registered under the receipt's task id, before the
    /// block or earlier in it.
    TaskNotRegistered(usize),
    /// The receipt's input commitment is not the task's.
    ReceiptInputCommitmentMismatch(usize),
    /// The task names another executor.
    ReceiptExecutorNotAuthorised(usize),
    /// Storage failed or holds corrupt task bytes.
    Storage(StorageFault),
}

/// Whether a result is a failure of the storage engine itself (the one
/// outcome the rules do not determine).
pub open spec fn engine_failed<T>(r: Result<T, ApplyBlockError>) -> bool {
    r matches Err(ApplyBlockError::Storage(StorageFault::Engine(_)))
}

// ── Rule (a)/(k): the payload matches the type ────────────────────────

/// The consensus-relevant payload of a well-typed transaction.
pub enum TypedPayload<'a> {
    Plain,
    Anchor(&'a Receipt),
    Task(&'a ComputeTask),
}

/// The mathematical value of a [`TypedPayload`].
pub enum PayloadKind {
    Plain,
    Anchor(SpecReceipt),
    Task(SpecComputeTask),
}

impl<'a> TypedPayload<'a> {
    pub open spec fn kind(&self) -> PayloadKind {
        match self {
            TypedPayload::Plain => PayloadKind::Plain,
            TypedPayload::Anchor(r) => PayloadKind::Anchor(r@),
            TypedPayload::Task(t) => PayloadKind::Task(t@),
        }
    }
}

/// `AnchorReceipt` carries a receipt, `ComputeTask` a task, `Transfer` and
/// `Stake` nothing; every other pairing is malformed.
pub open spec fn spec_type_payload(t: SpecTransaction) -> Option<PayloadKind> {
    match (t.tx_type, t.payload) {
        (TransactionType::AnchorReceipt, SpecPayload::AnchorReceipt(r)) => Some(PayloadKind::Anchor(r)),
        (TransactionType::ComputeTask, SpecPayload::ComputeTask(k)) => Some(PayloadKind::Task(k)),
        (TransactionType::Transfer, SpecPayload::Empty) => Some(PayloadKind::Plain),
        (TransactionType::Stake, SpecPayload::Empty) => Some(PayloadKind::Plain),
        _ => None,
    }
}

pub fn check_type_payload(tx: &Transaction) -> (r: Result<TypedPayload<'_>, ()>)
    ensures
        match spec_type_payload(tx@) {
            Some(k) => r matches Ok(tp) && tp.kind() == k,
            None => r is Err,
        },
{
    match (tx.tx_type, &tx.payload) {
        (TransactionType::AnchorReceipt, TransactionPayload::AnchorReceipt(receipt)) => Ok(
            TypedPayload::Anchor(receipt),
        ),
        (TransactionType::ComputeTask, TransactionPayload::ComputeTask(task)) => Ok(
            TypedPayload::Task(task),
        ),
        (TransactionType::Transfer, TransactionPayload::Empty) => Ok(TypedPayload::Plain),
        (TransactionType::Stake, TransactionPayload::Empty) => Ok(TypedPayload::Plain),
        _ => Err(()),
    }
}

/// Rule (b)/(l): an anchoring or a task commitment moves no money.
pub open spec fn canonical_fields(t: SpecTransaction) -> bool {
    t.amount == 0 && t.receiver == Address::spec_zero()
}

pub fn has_canonical_fields(tx: &Transaction) -> (r: bool)
    ensures
        r == canonical_fields(tx@),
{
    let zero = Address::zero();
    tx.amount == 0 && tx.receiver.key_eq(&zero)
}

// ── Rules (m)–(o): the task envelope ──────────────────────────────────

/// Why a compute task envelope failed.
#[derive(Clone, Copy, Debug, PartialEq, Eq)]
pub enum TaskRuleViolation {
    Version,
    SpecTooLarge,
    SubmitterMismatch,
}

/// Rules (m) version, (n) size bound, (o) submitter is the sender, in that
/// order; on success the task id.
pub open spec fn spec_task_envelope(sender: Address, task: SpecComputeTask) -> Result<[u8; 32], TaskRuleViolation> {
    if task.version != COMPUTE_TASK_VERSION {
        Err(TaskRuleViolation::Version)
    } else if task.execution_spec.len() > MAX_EXECUTION_SPEC_BYTES {
        Err(TaskRuleViolation::SpecTooLarge)
    } else if task.submitter != sender {
        Err(TaskRuleViolation::SubmitterMismatch)
    } else {
        Ok(spec_task_id(task))
    }
}

pub fn check_task_envelope(tx: &Transaction, task: &ComputeTask) -> (r: Result<[u8; 32], TaskRuleViolation>)
    ensures
        r == spec_task_envelope(tx@.sender, task@),
{
    if task.version != COMPUTE_TASK_VERSION {
        return Err(TaskRuleViolation::Version);
    }
    if task.execution_spec.len() > MAX_EXECUTION_SPEC_BYTES {
        return Err(TaskRuleViolation::SpecTooLarge);
    }
    if !task.submitter.key_eq(&tx.sender) {
        return Err(TaskRuleViolation::SubmitterMismatch);
    }
    Ok(task.task_id())
}

// ── Rules (q)–(s): the receipt answers a registered task ──────────────

/// Why a receipt is not bound to its task.
#[derive(Clone, Copy, Debug, PartialEq, Eq)]
pub enum BindingViolation {
    TaskNotRegistered,
    InputCommitmentMismatch,
    ExecutorNotAuthorised,
}

pub open spec fn spec_receipt_binding(r: SpecReceipt, task: Option<SpecComputeTask>) -> Result<(), BindingViolation> {
    match task {
        None => Err(BindingViolation::TaskNotRegistered),
        Some(t) => if r.input_commitment != t.input_commitment {
            Err(BindingViolation::InputCommitmentMismatch)
        } else if r.executor != t.executor {
            Err(BindingViolation::ExecutorNotAuthorised)
        } else {
            Ok(())
        },
    }
}

pub fn check_receipt_binding(receipt: &Receipt, task: Option<&ComputeTask>) -> (r: Result<(), BindingViolation>)
    ensures
        r == spec_receipt_binding(
            receipt@,
            match task {
                Some(t) => Some(t@),
                None => None,
            },
        ),
{
    let task = match task {
        Some(t) => t,
        None => return Err(BindingViolation::TaskNotRegistered),
    };
    if !receipt.input_commitment.key_eq(&task.input_commitment) {
        return Err(BindingViolation::InputCommitmentMismatch);
    }
    if !receipt.executor.key_eq(&task.executor) {
        return Err(BindingViolation::ExecutorNotAuthorised);
    }
    Ok(())
}

/// `b` begins with the encoding of `t`.
pub open spec fn decodes_to(b: Seq<u8>, t: SpecComputeTask) -> bool {
    task_encodable(t) && enc_task(t).is_prefix_of(b)
}

/// The task whose encoding `b` begins with (meaningful when one does).
pub open spec fn decoded_task(b: Seq<u8>) -> SpecComputeTask {
    choose|t: SpecComputeTask| decodes_to(b, t)
}

/// The task registered under `id` in prior state: absent, decoded, or
/// corrupt (bytes that begin with no task's encoding).
pub open spec fn spec_load_task(st: StoreView, id: [u8; 32]) -> Result<Option<SpecComputeTask>, StorageFault> {
    match st.task(id) {
        None => Ok(None),
        Some(b) => if decodes_to(b, decoded_task(b)) {
            Ok(Some(decoded_task(b)))
        } else {
            Err(StorageFault::CorruptTask(id))
        },
    }
}

// ── Applying a block ──────────────────────────────────────────────────

/// The state that validation accumulates over a block's transactions.
pub struct BlockRun {
    /// Accounts changed so far, by address.
    pub cache: Map<Address, Account>,
    /// The last allocated transaction sequence number.
    pub seq: u64,
    /// Task ids anchored earlier in the block, in order.
    pub anchored: Seq<[u8; 32]>,
    /// Tasks committed earlier in the block.
    pub tasks: Map<[u8; 32], SpecComputeTask>,
    /// The writes accumulated so far.
    pub ops: Seq<SpecBatchOp>,
}

impl BlockRun {
    pub open spec fn start(st: StoreView) -> BlockRun {
        BlockRun {
            cache: Map::empty(),
            seq: st.last_included_tx_seq,
            anchored: Seq::empty(),
            tasks: Map::empty(),
            ops: Seq::empty(),
        }
    }
}

/// The current value of an account: changed earlier in the block, or as
/// stored.
pub open spec fn lookup(st: StoreView, run: BlockRun, a: Address) -> Option<Account> {
    if run.cache.contains_key(a) { Some(run.cache[a]) } else { st.account(a) }
}

pub open spec fn task_violation_error(v: TaskRuleViolation, i: usize) -> ApplyBlockError {
    match v {
        TaskRuleViolation::Version => ApplyBlockError::TaskVersionUnsupported(i),
        TaskRuleViolation::SpecTooLarge => ApplyBlockError::ExecutionSpecTooLarge(i),
        TaskRuleViolation::SubmitterMismatch => ApplyBlockError::SenderSubmitterMismatch(i),
    }
}

pub open spec fn binding_violation_error(v: BindingViolation, i: usize) -> ApplyBlockError {
    match v {
        BindingViolation::TaskNotRegistered => ApplyBlockError::TaskNotRegistered(i),
        BindingViolation::InputCommitmentMismatch => ApplyBlockError::ReceiptInputCommitmentMismatch(i),
        BindingViolation::ExecutorNotAuthorised => ApplyBlockError::ReceiptExecutorNotAuthorised(i),
    }
}

/// A `ComputeTask` transaction (rules d, m–p).
pub open spec fn step_task(
    st: StoreView,
    run: BlockRun,
    i: usize,
    tx: SpecTransaction,
    h: p::Hash,
    task: SpecComputeTask,
) -> Result<BlockRun, ApplyBlockError> {
    match lookup(st, run, tx.sender) {
        None => Err(ApplyBlockError::SenderAccountMissing(i)),
        Some(acc) => match acc.spec_after_nonce(tx.nonce) {
            None => Err(ApplyBlockError::InvalidNonce(i)),
            Some(acc2) => match spec_task_envelope(tx.sender, task) {
                Err(v) => Err(task_violation_error(v, i)),
                Ok(id) => if st.tasks.contains_key(id) {
                    Err(ApplyBlockError::TaskAlreadyRegistered(i))
                } else if run.tasks.contains_key(id) {
                    Err(ApplyBlockError::TaskRepeatedInBlock(i))
                } else {
                    let seq = (run.seq + 1) as u64;
                    Ok(BlockRun {
                        cache: run.cache.insert(tx.sender, acc2),
                        seq,
                        anchored: run.anchored,
                        tasks: run.tasks.insert(id, task),
                        ops: run.ops + seq![
                            SpecBatchOp::PutTransaction(h, tx),
                            SpecBatchOp::PutTxSeqIndex(seq, h),
                            SpecBatchOp::PutTask(id, enc_task(task)),
                            SpecBatchOp::PutAccount(tx.sender, acc2),
                        ],
                    })
                },
            },
        },
    }
}

/// An `AnchorReceipt` transaction (rules d–j, q–s).
pub open spec fn step_anchor(
    st: StoreView,
    run: BlockRun,
    i: usize,
    tx: SpecTransaction,
    h: p::Hash,
    r: SpecReceipt,
) -> Result<BlockRun, ApplyBlockError> {
    match lookup(st, run, tx.sender) {
        None => Err(ApplyBlockError::SenderAccountMissing(i)),
        Some(acc) => match acc.spec_after_nonce(tx.nonce) {
            None => Err(ApplyBlockError::InvalidNonce(i)),
            Some(acc2) => if r.metadata.len() > MAX_RECEIPT_METADATA_BYTES {
                Err(ApplyBlockError::ReceiptMetadataTooLarge(i))
            } else if r.version != RECEIPT_VERSION {
                Err(ApplyBlockError::ReceiptVersionUnsupported(i))
            } else if tx.sender != r.executor {
                Err(ApplyBlockError::SenderExecutorMismatch(i))
            } else if !spec_receipt_signature_valid(r) {
                Err(ApplyBlockError::InvalidReceiptSignature(i))
            } else if st.receipts.contains_key(r.task_id) {
                Err(ApplyBlockError::TaskIdAlreadyAnchored(i))
            } else if run.anchored.contains(r.task_id) {
                Err(ApplyBlockError::TaskIdRepeatedInBlock(i))
            } else {
                match spec_load_task(st, r.task_id) {
                    Err(f) => Err(ApplyBlockError::Storage(f)),
                    Ok(stored) => {
                        let registered = match stored {
                            Some(t) => Some(t),
                            None => if run.tasks.contains_key(r.task_id) {
                                Some(run.tasks[r.task_id])
                            } else {
                                None
                            },
                        };
                        match spec_receipt_binding(r, registered) {
                            Err(v) => Err(binding_violation_error(v, i)),
                            Ok(_) => {
                                let seq = (run.seq + 1) as u64;
                                Ok(BlockRun {
                                    cache: run.cache.insert(tx.sender, acc2),
                                    seq,
                                    anchored: run.anchored.push(r.task_id),
                                    tasks: run.tasks,
                                    ops: run.ops + seq![
                                        SpecBatchOp::PutTransaction(h, tx),
                                        SpecBatchOp::PutTxSeqIndex(seq, h),
                                        SpecBatchOp::PutReceipt(r.task_id, enc_receipt(r)),
                                        SpecBatchOp::PutAccount(tx.sender, acc2),
                                    ],
                                })
                            },
                        }
                    },
                }
            },
        },
    }
}

/// A `Transfer` or `Stake` transaction: nonce, then the balance move. The
/// receiver is read before the sender's change is recorded, and recorded
/// after it.
pub open spec fn step_transfer(
    st: StoreView,
    run: BlockRun,
    i: usize,
    tx: SpecTransaction,
    h: p::Hash,
) -> Result<BlockRun, ApplyBlockError> {
    match lookup(st, run, tx.sender) {
        None => Err(ApplyBlockError::InsufficientBalance(i)),
        Some(acc) => match acc.spec_after_nonce(tx.nonce) {
            None => Err(ApplyBlockError::InvalidNonce(i)),
            Some(acc2) => {
                let recv = match lookup(st, run, tx.receiver) {
                    Some(a) => a,
                    None => Account::spec_new(tx.receiver),
                };
                match Account::spec_transfer(acc2, recv, tx.amount) {
                    None => Err(ApplyBlockError::InsufficientBalance(i)),
                    Some((s3, r3)) => {
                        let seq = (run.seq + 1) as u64;
                        Ok(BlockRun {
                            cache: run.cache.insert(tx.sender, s3).insert(tx.receiver, r3),
                            seq,
                            anchored: run.anchored,
                            tasks: run.tasks,
                            ops: run.ops + seq![
                                SpecBatchOp::PutTransaction(h, tx),
                                SpecBatchOp::PutTxSeqIndex(seq, h),
                                SpecBatchOp::PutAccount(tx.sender, s3),
                                SpecBatchOp::PutAccount(tx.receiver, r3),
                            ],
                        })
                    },
                }
            },
        },
    }
}

/// The `i`-th transaction of a block, in the normative rule order.
pub open spec fn tx_step(st: StoreView, run: BlockRun, i: usize, tx: SpecTransaction) -> Result<BlockRun, ApplyBlockError> {
    match spec_type_payload(tx) {
        None => Err(ApplyBlockError::TypePayloadMismatch(i)),
        Some(kind) => if kind is Anchor && !canonical_fields(tx) {
            Err(ApplyBlockError::AnchorFieldConstraint(i))
        } else if kind is Task && !canonical_fields(tx) {
            Err(ApplyBlockError::TaskFieldConstraint(i))
        } else if !spec_tx_signature_valid(tx) {
            Err(ApplyBlockError::InvalidSignature(i))
        } else {
            let h = spec_tx_hash(tx);
            if st.transactions.contains_key(h) {
                match kind {
                    PayloadKind::Anchor(_) => Err(ApplyBlockError::TaskIdAlreadyAnchored(i)),
                    PayloadKind::Task(_) => Err(ApplyBlockError::TaskAlreadyRegistered(i)),
                    PayloadKind::Plain => Ok(run),
                }
            } else {
                match kind {
                    PayloadKind::Task(k) => step_task(st, run, i, tx, h, k),
                    PayloadKind::Anchor(r) => step_anchor(st, run, i, tx, h, r),
                    PayloadKind::Plain => step_transfer(st, run, i, tx, h),
                }
            }
        },
    }
}

/// Validation of a block's transactions, in body order, stopping at the
/// first rejection.
pub open spec fn run_txs(st: StoreView, txs: Seq<SpecTransaction>) -> Result<BlockRun, ApplyBlockError>
    decreases txs.len(),
{
    if txs.len() == 0 {
        Ok(BlockRun::start(st))
    } else {
        match run_txs(st, txs.drop_last()) {
            Err(e) => Err(e),
            Ok(run) => tx_step(st, run, (txs.len() - 1) as usize, txs.last()),
        }
    }
}

/// The writes that close an accepted block: the sequence counters (when
/// it carried transactions), the block, and its height index entry.
pub open spec fn closing_ops(b: SpecBlock, seq: u64, bh: p::Hash) -> Seq<SpecBatchOp> {
    (if b.transactions.len() > 0 {
        seq![SpecBatchOp::SetTxSeq(seq), SpecBatchOp::SetLastIncludedTxSeq(seq)]
    } else {
        Seq::empty()
    }) + seq![SpecBatchOp::PutBlock(bh, b), SpecBatchOp::PutBlockHeightIndex(b.header.height, bh)]
}

/// The verdict on a block against prior state: its hash and the writes
/// that apply it, or the first rule it breaks.
pub open spec fn block_outcome(st: StoreView, b: SpecBlock) -> Result<(p::Hash, Seq<SpecBatchOp>), ApplyBlockError> {
    let cur = st.latest_height;
    let expected = (cur + 1) as u64;
    if b.header.height != expected {
        Err(ApplyBlockError::BadHeight { expected, got: b.header.height })
    } else {
        match st.block_at(cur) {
            None => Err(ApplyBlockError::Storage(StorageFault::ParentBlockMissing)),
            Some(parent) => {
                let ph = spec_block_hash(parent);
                if b.header.parent_hash != ph {
                    Err(ApplyBlockError::BadParent { expected: ph, got: b.header.parent_hash })
                } else if b.header.transactions_root != spec_transactions_root(b.transactions) {
                    Err(ApplyBlockError::TransactionsRootMismatch)
                } else {
                    match run_txs(st, b.transactions) {
                        Err(e) => Err(e),
                        Ok(run) => {
                            let bh = spec_block_hash(b);
                            Ok((bh, run.ops + closing_ops(b, run.seq, bh)))
                        },
                    }
                }
            },
        }
    }
}

} // verus!
