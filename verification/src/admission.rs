//! Admission of submitted transactions into the pool: the consensus
//! checks a block would apply, read against committed state and against
//! what is already pending.

use vstd::prelude::*;

use crate::crypto::{spec_receipt_signature_valid, spec_tx_hash, spec_tx_signature_valid};
use crate::mempool::{
    has_anchor_id, has_compute_id, has_hash, pending_task_with_id, spec_sender_pending, MempoolError,
    PoolEntry,
};
use crate::model::{SpecTransaction, RECEIPT_VERSION};
use crate::primitives as p;
use crate::rules::{
    canonical_fields, spec_load_task, spec_receipt_binding, spec_task_envelope, spec_type_payload,
    tx_step, BindingViolation, BlockRun, PayloadKind, StorageFault, TaskRuleViolation,
    MAX_RECEIPT_METADATA_BYTES,
};
use crate::storage::StoreView;

verus! {

/// Maximum transactions one sender may hold pending (a node-local
/// resource bound, not a consensus rule).
pub const MAX_PENDING_PER_SENDER: usize = 64;

/// Why a submitted transaction was not admitted.
#[derive(Debug, PartialEq, Eq)]
pub enum SubmitError {
    /// The payload does not match the transaction type.
    PayloadMismatch,
    /// An anchoring moves money or names a receiver.
    AnchorFieldConstraint,
    /// A task commitment moves money or names a receiver.
    TaskFieldConstraint,
    /// Storage failed, or stored task bytes are corrupt.
    Storage(StorageFault),
    /// The receipt's task id is already anchored.
    TaskIdAlreadyAnchored,
    /// The task is already registered.
    TaskAlreadyRegistered,
    /// The transaction signature does not verify.
    InvalidSignature,
    /// The sender cannot cover its pending debits and this amount (or has
    /// no account).
    InsufficientBalance,
    /// Every nonce of the sender is spent or pending.
    NonceExhausted,
    /// The nonce is not the next one the sender may use.
    InvalidNonce { expected: u64 },
    /// The sender already holds the maximum of pending transactions.
    TooManyPending,
    /// The receipt metadata is too long.
    ReceiptMetadataTooLarge,
    /// The receipt version is not supported.
    ReceiptVersionUnsupported,
    /// The sender is not the receipt's executor.
    SenderExecutorMismatch,
    /// The receipt signature does not verify.
    InvalidReceiptSignature,
    /// No task is registered or pending under the receipt's task id.
    TaskNotRegistered,
    /// The receipt's input commitment is not the task's.
    ReceiptInputCommitmentMismatch,
    /// The task names another executor.
    ReceiptExecutorNotAuthorised,
    /// The task envelope version is not supported.
    TaskVersionUnsupported,
    /// The task's execution specification is too long.
    ExecutionSpecTooLarge,
    /// The sender is not the task's submitter.
    SenderSubmitterMismatch,
    /// A commitment of the same task is already pending.
    ComputeTaskPending,
    /// An anchoring for the same task id is already pending.
    TaskIdPending,
    /// The pool refused the transaction.
    Pool(MempoolError),
}

/// Whether admission failed in the storage engine itself.
pub open spec fn submit_engine_failed<T>(r: Result<T, SubmitError>) -> bool {
    r matches Err(SubmitError::Storage(StorageFault::Engine(_)))
}

pub open spec fn envelope_submit_error(v: TaskRuleViolation) -> SubmitError {
    match v {
        TaskRuleViolation::Version => SubmitError::TaskVersionUnsupported,
        TaskRuleViolation::SpecTooLarge => SubmitError::ExecutionSpecTooLarge,
        TaskRuleViolation::SubmitterMismatch => SubmitError::SenderSubmitterMismatch,
    }
}

pub open spec fn binding_submit_error(v: BindingViolation) -> SubmitError {
    match v {
        BindingViolation::TaskNotRegistered => SubmitError::TaskNotRegistered,
        BindingViolation::InputCommitmentMismatch => SubmitError::ReceiptInputCommitmentMismatch,
        BindingViolation::ExecutorNotAuthorised => SubmitError::ReceiptExecutorNotAuthorised,
    }
}

/// The payload-specific admission rules, run once nonce, balance and the
/// per-sender bound have held.
pub open spec fn admission_payload(
    st: StoreView,
    v: Seq<PoolEntry>,
    tx: SpecTransaction,
    h: p::Hash,
    kind: PayloadKind,
) -> Result<(p::Hash, bool), SubmitError> {
    match kind {
        PayloadKind::Anchor(r) => if r.metadata.len() > MAX_RECEIPT_METADATA_BYTES {
            Err(SubmitError::ReceiptMetadataTooLarge)
        } else if r.version != RECEIPT_VERSION {
            Err(SubmitError::ReceiptVersionUnsupported)
        } else if tx.sender != r.executor {
            Err(SubmitError::SenderExecutorMismatch)
        } else if !spec_receipt_signature_valid(r) {
            Err(SubmitError::InvalidReceiptSignature)
        } else if st.receipts.contains_key(r.task_id) {
            Err(SubmitError::TaskIdAlreadyAnchored)
        } else {
            match spec_load_task(st, r.task_id) {
                Err(f) => Err(SubmitError::Storage(f)),
                Ok(stored) => {
                    let registered = match stored {
                        Some(t) => Some(t),
                        None => if has_compute_id(v, r.task_id) {
                            Some(pending_task_with_id(v, r.task_id))
                        } else {
                            None
                        },
                    };
                    match spec_receipt_binding(r, registered) {
                        Err(b) => Err(binding_submit_error(b)),
                        Ok(_) => if has_anchor_id(v, r.task_id) {
                            Err(SubmitError::TaskIdPending)
                        } else {
                            Ok((h, true))
                        },
                    }
                },
            }
        },
        PayloadKind::Task(k) => match spec_task_envelope(tx.sender, k) {
            Err(e) => Err(envelope_submit_error(e)),
            Ok(id) => if st.tasks.contains_key(id) {
                Err(SubmitError::TaskAlreadyRegistered)
            } else if has_compute_id(v, id) {
                Err(SubmitError::ComputeTaskPending)
            } else {
                Ok((h, true))
            },
        },
        PayloadKind::Plain => Ok((h, true)),
    }
}

/// The verdict on a submitted transaction against committed state `st`
/// and pending entries `v`: its hash and whether it joins the pool (an
/// already-known transaction is accepted without joining again), or why
/// it is refused.
pub open spec fn admission(st: StoreView, v: Seq<PoolEntry>, tx: SpecTransaction) -> Result<(p::Hash, bool), SubmitError> {
    match spec_type_payload(tx) {
        None => Err(SubmitError::PayloadMismatch),
        Some(kind) => if kind is Anchor && !canonical_fields(tx) {
            Err(SubmitError::AnchorFieldConstraint)
        } else if kind is Task && !canonical_fields(tx) {
            Err(SubmitError::TaskFieldConstraint)
        } else {
            let h = spec_tx_hash(tx);
            if st.transactions.contains_key(h) {
                match kind {
                    PayloadKind::Anchor(_) => Err(SubmitError::TaskIdAlreadyAnchored),
                    PayloadKind::Task(_) => Err(SubmitError::TaskAlreadyRegistered),
                    PayloadKind::Plain => Ok((h, false)),
                }
            } else if !spec_tx_signature_valid(tx) {
                Err(SubmitError::InvalidSignature)
            } else if has_hash(v, h) {
                Ok((h, false))
            } else {
                match st.account(tx.sender) {
                    None => Err(SubmitError::InsufficientBalance),
                    Some(acc) => {
                        let pend = spec_sender_pending(v, tx.sender, acc.nonce);
                        match pend.expected_nonce {
                            None => Err(SubmitError::NonceExhausted),
                            Some(exp) => if tx.nonce != exp {
                                Err(SubmitError::InvalidNonce { expected: exp })
                            } else if pend.pending_debit + tx.amount > u128::MAX || acc.balance
                                < pend.pending_debit + tx.amount {
                                Err(SubmitError::InsufficientBalance)
                            } else if pend.len >= MAX_PENDING_PER_SENDER {
                                Err(SubmitError::TooManyPending)
                            } else {
                                admission_payload(st, v, tx, h, kind)
                            },
                        }
                    },
                }
            }
        },
    }
}

/// Admission agrees with the block rules: a transaction that the block
/// rules accept as the first of a block on `st` is admitted into an empty
/// pool, under its hash, and joins the pool unless it is already stored.
/// A `Stake` with no payload takes the transfer path in both.
pub proof fn law_admission_agrees_with_block_rules(st: StoreView, tx: SpecTransaction)
    requires
        tx_step(st, BlockRun::start(st), 0, tx) is Ok,
    ensures
        admission(st, Seq::empty(), tx) == Ok::<(p::Hash, bool), SubmitError>(
            (spec_tx_hash(tx), !st.transactions.contains_key(spec_tx_hash(tx))),
        ),
{
    let v = Seq::<PoolEntry>::empty();
    let h = spec_tx_hash(tx);
    assert(!has_hash(v, h));
    if !st.transactions.contains_key(h) {
        let acc = st.account(tx.sender)->Some_0;
        assert(st.account(tx.sender) is Some);
        assert(!crate::mempool::has_sender_nonce(v, tx.sender, acc.nonce));
        assert(crate::mempool::chain_end(v, tx.sender, acc.nonce as int) == acc.nonce);
        assert(v.filter(|e: PoolEntry| e.1.sender == tx.sender) =~= v);
        let pend = spec_sender_pending(v, tx.sender, acc.nonce);
        assert(pend.expected_nonce == Some(acc.nonce));
        assert(pend.pending_debit == 0);
        assert(pend.len == 0);
        match spec_type_payload(tx) {
            Some(PayloadKind::Anchor(r)) => {
                assert(!has_compute_id(v, r.task_id));
                assert(!has_anchor_id(v, r.task_id));
            },
            Some(PayloadKind::Task(k)) => {
                match spec_task_envelope(tx.sender, k) {
                    Ok(id) => assert(!has_compute_id(v, id)),
                    Err(_) => {},
                }
            },
            _ => {},
        }
    }
}

} // verus!
